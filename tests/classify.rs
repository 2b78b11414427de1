use clamav_rest_proxy::reply::{classify, split_lines, ScanOutcome};

fn sigs(o: &ScanOutcome) -> Vec<String> {
    match o {
        ScanOutcome::Infected { signatures } => signatures
            .iter()
            .map(|s| String::from_utf8(s.clone()).unwrap())
            .collect(),
        _ => panic!("not an infection"),
    }
}

#[test]
fn ok_reply_is_clean() {
    assert!(matches!(classify(b"stream: OK\0"), ScanOutcome::Clean));
    assert!(matches!(classify(b"stream: OK\n"), ScanOutcome::Clean));
    assert!(matches!(classify(b"stream: OK"), ScanOutcome::Clean));
}

#[test]
fn found_reply_names_the_signature() {
    let o = classify(b"stream: Eicar-Test-Signature FOUND\0");
    assert_eq!(sigs(&o), vec!["Eicar-Test-Signature".to_string()]);
}

#[test]
fn several_detections_in_order_with_duplicates() {
    let o = classify(b"stream: B FOUND\0stream: A FOUND\0stream: B FOUND\0");
    assert_eq!(sigs(&o), vec!["B".to_string(), "A".to_string(), "B".to_string()]);
}

#[test]
fn error_reply_is_protocol_error() {
    let reply = b"INSTREAM size limit exceeded. ERROR\0";
    match classify(reply) {
        ScanOutcome::ProtocolError { reply: r } => assert_eq!(r, reply.to_vec()),
        _ => panic!("expected a protocol error"),
    }
    assert!(matches!(
        classify(b"stream: lstat() failed ERROR\0"),
        ScanOutcome::ProtocolError { .. }
    ));
}

#[test]
fn empty_reply_is_protocol_error() {
    assert!(matches!(classify(b""), ScanOutcome::ProtocolError { .. }));
    assert!(matches!(classify(b"\0\n"), ScanOutcome::ProtocolError { .. }));
}

#[test]
fn malformed_replies_are_protocol_errors() {
    let cases: [&[u8]; 5] = [
        b"PONG\0",
        b"stream:  FOUND\0",
        b"FOUND",
        b"stream: X FOUND\0stream: OK\0",
        b"\xff\xfe",
    ];
    for r in cases {
        assert!(matches!(classify(r), ScanOutcome::ProtocolError { .. }));
    }
}

#[test]
fn lines_split_on_nul_and_newline() {
    assert_eq!(
        split_lines(b"a\0\0b\nc"),
        vec![b"a".to_vec(), b"b".to_vec(), b"c".to_vec()]
    );
    assert!(split_lines(b"").is_empty());
}
