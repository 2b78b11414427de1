use clamav_rest_proxy::frame::frames;
use clamav_rest_proxy::reply::ScanOutcome;
use clamav_rest_proxy::response::{
    missing_upload, respond, scan_reply, FailureKind, HttpReply,
};
use clamav_rest_proxy::session::{
    orchestrate, Action, Event, Phase, ScanFailure, ScanSession, TransportError,
};

const EICAR: &str = r"X5O!P%@AP[4\PZX54(P^)7CC)7}$EICAR-STANDARD-ANTIVIRUS-TEST-FILE!$H+H*";

/// Drives a session against a daemon that accepts every write and answers
/// `reply`; returns the bytes written and the result.
fn run(payload: &[u8], chunk: usize, reply: &[u8]) -> (Vec<u8>, Result<ScanOutcome, TransportError>) {
    let mut s = ScanSession::new(payload.to_vec(), chunk);
    let mut wire = Vec::new();
    let mut action = s.step(Event::Connected);
    loop {
        action = match action {
            Action::Send { bytes } => {
                wire.extend_from_slice(&bytes);
                s.step(Event::Written)
            }
            Action::ReadReply => s.step(Event::ReplyRead { reply: reply.to_vec() }),
            Action::Finish { result } => {
                assert_eq!(s.current_phase(), Phase::Finished);
                return (wire, result);
            }
        }
    }
}

fn expected_wire(payload: &[u8], chunk: usize) -> Vec<u8> {
    let mut w = b"zINSTREAM\0".to_vec();
    for f in frames(payload.to_vec(), chunk) {
        w.extend_from_slice(&f);
    }
    w
}

#[test]
fn session_sends_command_then_frames() {
    let payload = b"hello world, this is fine";
    let (wire, result) = run(payload, 8, b"stream: OK\0");
    assert_eq!(wire, expected_wire(payload, 8));
    assert_eq!(&wire[..10], b"zINSTREAM\0");
    assert_eq!(&wire[wire.len() - 4..], &[0u8, 0, 0, 0]);
    assert!(matches!(result, Ok(ScanOutcome::Clean)));
}

#[test]
fn eicar_upload_is_reported_infected() {
    let (_, result) = run(EICAR.as_bytes(), 8192, b"stream: Eicar-Test-Signature FOUND\0");
    let reply = scan_reply(EICAR.as_bytes(), orchestrate(result));
    assert_eq!(reply.status(), 200);
    match reply {
        HttpReply::Report { info } => {
            assert!(info.is_infected);
            assert_eq!(info.infected_files, vec![b"Eicar-Test-Signature".to_vec()]);
        }
        HttpReply::Failure { .. } => panic!("expected a report"),
    }
}

#[test]
fn benign_upload_is_clean_with_no_type() {
    let payload = b"0123456789";
    let (_, result) = run(payload, 8192, b"stream: OK\0");
    let reply = scan_reply(payload, orchestrate(result));
    assert_eq!(reply.status(), 200);
    match reply {
        HttpReply::Report { info } => {
            assert!(!info.is_infected);
            assert!(info.infected_files.is_empty());
            assert_eq!(info.detected_mime_type, None);
        }
        HttpReply::Failure { .. } => panic!("expected a report"),
    }
}

#[test]
fn content_type_comes_from_the_payload() {
    let png = [0x89u8, 0x50, 0x4E, 0x47, 0x0D, 0x0A, 0x1A, 0x0A, 0, 0, 0, 0x0D];
    let reply = scan_reply(&png, Ok(ScanOutcome::Clean));
    match reply {
        HttpReply::Report { info } => {
            assert_eq!(info.detected_mime_type, Some("image/png".to_string()))
        }
        HttpReply::Failure { .. } => panic!("expected a report"),
    }
}

#[test]
fn same_payload_same_reply_same_outcome() {
    let payload = b"some bytes to scan twice";
    let reply = b"stream: Win.Test FOUND\0";
    let (w1, r1) = run(payload, 5, reply);
    let (w2, r2) = run(payload, 5, reply);
    assert_eq!(w1, w2);
    match (r1, r2) {
        (Ok(ScanOutcome::Infected { signatures: a }), Ok(ScanOutcome::Infected { signatures: b })) => {
            assert_eq!(a, b);
            assert_eq!(a, vec![b"Win.Test".to_vec()]);
        }
        _ => panic!("expected two identical infections"),
    }
}

#[test]
fn missing_field_is_a_client_error() {
    let reply = missing_upload();
    assert_eq!(reply.status(), 400);
    match reply {
        HttpReply::Failure { kind } => {
            assert_eq!(kind, FailureKind::MissingUpload);
            assert!(!kind.message().is_empty());
        }
        HttpReply::Report { .. } => panic!("expected a failure"),
    }
}

#[test]
fn refused_connection_is_a_server_error() {
    let mut s = ScanSession::new(b"abc".to_vec(), 8192);
    let action = s.step(Event::ConnectFailed { detail: "connection refused".to_string() });
    assert_eq!(s.current_phase(), Phase::Finished);
    let result = match action {
        Action::Finish { result } => result,
        _ => panic!("expected the session to end"),
    };
    let failure = orchestrate(result);
    match &failure {
        Err(ScanFailure::Unreachable { cause: TransportError::Connect { detail } }) => {
            assert_eq!(detail, "connection refused")
        }
        _ => panic!("expected an unreachable scanner"),
    }
    let reply = scan_reply(b"abc", failure);
    assert_eq!(reply.status(), 500);
    match reply {
        HttpReply::Failure { kind } => {
            assert_eq!(kind, FailureKind::ScannerUnavailable);
            assert!(!kind.message().contains("refused"));
        }
        HttpReply::Report { .. } => panic!("expected a failure"),
    }
}

#[test]
fn write_failure_ends_the_session() {
    let mut s = ScanSession::new(b"abc".to_vec(), 2);
    assert!(matches!(s.step(Event::Connected), Action::Send { .. }));
    match s.step(Event::WriteFailed { detail: "broken pipe".to_string() }) {
        Action::Finish { result: Err(TransportError::Io { detail }) } => assert_eq!(detail, "broken pipe"),
        _ => panic!("expected an i/o failure"),
    }
}

#[test]
fn closed_without_reply_is_a_transport_error() {
    let (_, result) = run(b"x", 8192, b"");
    assert!(matches!(result, Err(TransportError::ClosedWithoutReply)));
    assert_eq!(scan_reply(b"x", orchestrate(result)).status(), 500);
}

#[test]
fn read_failure_is_a_transport_error() {
    let mut s = ScanSession::new(Vec::new(), 4);
    assert!(matches!(s.step(Event::Connected), Action::Send { .. }));
    assert!(matches!(s.step(Event::Written), Action::Send { .. }));
    assert!(matches!(s.step(Event::Written), Action::ReadReply));
    assert_eq!(s.current_phase(), Phase::Reading);
    match s.step(Event::ReadFailed { detail: "reset".to_string() }) {
        Action::Finish { result: Err(TransportError::Io { .. }) } => {}
        _ => panic!("expected an i/o failure"),
    }
}

#[test]
fn events_out_of_order_end_the_session() {
    let mut s = ScanSession::new(b"abc".to_vec(), 4);
    assert!(matches!(
        s.step(Event::Written),
        Action::Finish { result: Err(TransportError::OutOfOrder) }
    ));
    assert!(matches!(
        s.step(Event::Connected),
        Action::Finish { result: Err(TransportError::OutOfOrder) }
    ));
}

#[test]
fn daemon_error_reply_is_a_scan_failure() {
    let (_, result) = run(b"abc", 8192, b"INSTREAM size limit exceeded. ERROR\0");
    let reply = respond(orchestrate(result), None);
    assert_eq!(reply.status(), 500);
    assert!(matches!(reply, HttpReply::Failure { kind: FailureKind::ScanFailed }));
}
