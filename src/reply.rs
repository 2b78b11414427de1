//! Reply classifier: the daemon's reply bytes become a scan outcome.
use vstd::prelude::*;

verus! {

/// What a scan found, as reported by the daemon.
pub enum ScanOutcome {
    /// The daemon found nothing.
    Clean,
    /// The daemon reported these signature names, in reply order.
    Infected { signatures: Vec<Vec<u8>> },
    /// The reply was empty, an explicit error, or not understood; it is kept whole.
    ProtocolError { reply: Vec<u8> },
}

/// The mathematical value of a [`ScanOutcome`].
pub enum OutcomeView {
    Clean,
    Infected(Seq<Seq<u8>>),
    ProtocolError(Seq<u8>),
}

impl View for ScanOutcome {
    type V = OutcomeView;

    open spec fn view(&self) -> OutcomeView {
        match self {
            ScanOutcome::Clean => OutcomeView::Clean,
            ScanOutcome::Infected { signatures } => OutcomeView::Infected(signatures.deep_view()),
            ScanOutcome::ProtocolError { reply } => OutcomeView::ProtocolError(reply@),
        }
    }
}

/// A byte that ends a reply line: NUL (the daemon's `z` mode) or newline.
pub open spec fn is_delimiter(b: u8) -> bool {
    b == 0u8 || b == 10u8
}

/// Lines completed so far and the line being read, after reading `r`.
pub open spec fn split_acc(r: Seq<u8>) -> (Seq<Seq<u8>>, Seq<u8>)
    decreases r.len(),
{
    if r.len() == 0 {
        (seq![], seq![])
    } else {
        let (done, cur) = split_acc(r.drop_last());
        if is_delimiter(r.last()) {
            (if cur.len() > 0 { done.push(cur) } else { done }, seq![])
        } else {
            (done, cur.push(r.last()))
        }
    }
}

/// The non-empty lines of a reply, in order, without their delimiters.
pub open spec fn reply_lines(r: Seq<u8>) -> Seq<Seq<u8>> {
    let (done, cur) = split_acc(r);
    if cur.len() > 0 {
        done.push(cur)
    } else {
        done
    }
}

/// `stream: `, the source tag that starts each reply line to a streamed scan.
pub open spec fn stream_tag() -> Seq<u8> {
    seq![115u8, 116u8, 114u8, 101u8, 97u8, 109u8, 58u8, 32u8]
}

/// ` FOUND`, the marker that ends a detection line.
pub open spec fn found_tag() -> Seq<u8> {
    seq![32u8, 70u8, 79u8, 85u8, 78u8, 68u8]
}

/// `: OK`, the marker that ends a clean line.
pub open spec fn ok_tag() -> Seq<u8> {
    seq![58u8, 32u8, 79u8, 75u8]
}

pub open spec fn has_prefix(l: Seq<u8>, tag: Seq<u8>) -> bool {
    l.len() >= tag.len() && l.take(tag.len() as int) == tag
}

pub open spec fn has_suffix(l: Seq<u8>, tag: Seq<u8>) -> bool {
    l.len() >= tag.len() && l.skip(l.len() - tag.len()) == tag
}

/// `stream: <signature> FOUND`, with a non-empty signature.
pub open spec fn is_found_line(l: Seq<u8>) -> bool {
    l.len() > stream_tag().len() + found_tag().len() && has_prefix(l, stream_tag()) && has_suffix(
        l,
        found_tag(),
    )
}

/// The signature named by a detection line.
pub open spec fn signature_of(l: Seq<u8>) -> Seq<u8> {
    l.subrange(stream_tag().len() as int, l.len() - found_tag().len())
}

/// The signature of each detection line, in order.
pub open spec fn signatures_of(ls: Seq<Seq<u8>>) -> Seq<Seq<u8>> {
    Seq::new(ls.len(), |i: int| signature_of(ls[i]))
}

/// A line that ends in `: OK`.
pub open spec fn is_ok_line(l: Seq<u8>) -> bool {
    has_suffix(l, ok_tag())
}

/// The outcome a reply stands for: infected when every line is a detection
/// (the signatures in order, duplicates kept), clean when every line is an OK
/// line, and a protocol error otherwise, which includes an empty reply and an
/// `ERROR` line.
pub open spec fn outcome_of(r: Seq<u8>) -> OutcomeView {
    let ls = reply_lines(r);
    if ls.len() > 0 && forall|i: int| 0 <= i < ls.len() ==> is_found_line(#[trigger] ls[i]) {
        OutcomeView::Infected(signatures_of(ls))
    } else if ls.len() > 0 && forall|i: int| 0 <= i < ls.len() ==> is_ok_line(#[trigger] ls[i]) {
        OutcomeView::Clean
    } else {
        OutcomeView::ProtocolError(r)
    }
}

/// A byte string with no line delimiter in it.
pub open spec fn no_delimiter(l: Seq<u8>) -> bool {
    forall|i: int| 0 <= i < l.len() ==> !is_delimiter(#[trigger] l[i])
}

/// Reading a delimiter-free string leaves it all as the current line.
proof fn lemma_split_acc_plain(l: Seq<u8>)
    requires
        no_delimiter(l),
    ensures
        split_acc(l) == (Seq::<Seq<u8>>::empty(), l),
    decreases l.len(),
{
    if l.len() > 0 {
        let p = l.drop_last();
        assert(no_delimiter(p)) by {
            assert forall|i: int| 0 <= i < p.len() implies !is_delimiter(#[trigger] p[i]) by {
                assert(p[i] == l[i]);
            }
        }
        lemma_split_acc_plain(p);
        assert(!is_delimiter(l[l.len() - 1]));
        assert(p.push(l.last()) =~= l);
    } else {
        assert(l =~= Seq::<u8>::empty());
    }
}

/// A non-empty, delimiter-free line followed by NUL is a reply of that one line.
pub proof fn lemma_single_line(l: Seq<u8>)
    requires
        l.len() > 0,
        no_delimiter(l),
    ensures
        reply_lines(l.push(0u8)) == seq![l],
{
    lemma_split_acc_plain(l);
    assert(l.push(0u8).drop_last() =~= l);
    assert(Seq::<Seq<u8>>::empty().push(l) =~= seq![l]);
}

/// `stream: <name> FOUND`, NUL-terminated, for a non-empty name without
/// delimiters, is an infection with exactly that one signature.
pub proof fn lemma_found_reply(name: Seq<u8>)
    requires
        name.len() > 0,
        no_delimiter(name),
    ensures
        outcome_of((stream_tag() + name + found_tag()).push(0u8)) == OutcomeView::Infected(
            seq![name],
        ),
{
    let l = stream_tag() + name + found_tag();
    assert(no_delimiter(l)) by {
        assert forall|i: int| 0 <= i < l.len() implies !is_delimiter(#[trigger] l[i]) by {
            if 8 <= i < 8 + name.len() {
                assert(l[i] == name[i - 8]);
            }
        }
    }
    lemma_single_line(l);
    assert(l.take(8) =~= stream_tag());
    assert(l.skip(l.len() - 6) =~= found_tag());
    assert(signature_of(l) =~= name);
    let ls = reply_lines(l.push(0u8));
    assert(ls[0] == l);
    assert(signatures_of(ls) =~= seq![name]);
}

/// A delimiter-free line ending in `: OK`, NUL-terminated, is clean.
pub proof fn lemma_ok_reply(l: Seq<u8>)
    requires
        no_delimiter(l),
        has_suffix(l, ok_tag()),
    ensures
        outcome_of(l.push(0u8)) == OutcomeView::Clean,
{
    lemma_single_line(l);
    let ls = reply_lines(l.push(0u8));
    assert(ls[0] == l);
    assert(l.skip(l.len() - 4)[3] == 75u8);
    assert(l[l.len() - 1] == 75u8);
    if is_found_line(l) {
        assert(l.skip(l.len() - 6)[5] == l[l.len() - 1]);
    }
}

/// ` ERROR`, the marker that ends an error line.
pub open spec fn error_tag() -> Seq<u8> {
    seq![32u8, 69u8, 82u8, 82u8, 79u8, 82u8]
}

/// A delimiter-free line ending in ` ERROR`, NUL-terminated, is a protocol
/// error that keeps the reply.
pub proof fn lemma_error_reply(l: Seq<u8>)
    requires
        no_delimiter(l),
        has_suffix(l, error_tag()),
    ensures
        outcome_of(l.push(0u8)) == OutcomeView::ProtocolError(l.push(0u8)),
{
    lemma_single_line(l);
    let ls = reply_lines(l.push(0u8));
    assert(ls[0] == l);
    assert(l.skip(l.len() - 6)[5] == 82u8);
    assert(l[l.len() - 1] == 82u8);
    if is_found_line(l) {
        assert(l.skip(l.len() - 6)[5] == l[l.len() - 1]);
    }
    if is_ok_line(l) {
        assert(l.skip(l.len() - 4)[3] == l[l.len() - 1]);
    }
}

/// An empty reply is a protocol error.
pub proof fn lemma_empty_reply()
    ensures
        outcome_of(Seq::<u8>::empty()) == OutcomeView::ProtocolError(Seq::<u8>::empty()),
{
}

/// The bytes of `s` from `lo` up to `hi`.
fn copy_range(s: &[u8], lo: usize, hi: usize) -> (r: Vec<u8>)
    requires
        lo <= hi <= s@.len(),
    ensures
        r@ == s@.subrange(lo as int, hi as int),
{
    let mut r: Vec<u8> = Vec::new();
    let mut i: usize = lo;
    while i < hi
        invariant
            lo <= i <= hi <= s@.len(),
            r@ == s@.subrange(lo as int, i as int),
        decreases hi - i,
    {
        r.push(s[i]);
        assert(s@.subrange(lo as int, i + 1) =~= s@.subrange(lo as int, i as int).push(s@[i as int]));
        i = i + 1;
    }
    r
}

fn starts_with(l: &[u8], tag: &[u8]) -> (r: bool)
    ensures
        r == has_prefix(l@, tag@),
{
    if l.len() < tag.len() {
        return false;
    }
    let mut i: usize = 0;
    while i < tag.len()
        invariant
            tag@.len() <= l@.len(),
            i <= tag@.len(),
            l@.take(i as int) == tag@.take(i as int),
        decreases tag.len() - i,
    {
        if l[i] != tag[i] {
            assert(l@.take(tag@.len() as int)[i as int] != tag@[i as int]);
            return false;
        }
        assert(l@.take(i + 1) =~= l@.take(i as int).push(l@[i as int]));
        assert(tag@.take(i + 1) =~= tag@.take(i as int).push(tag@[i as int]));
        i = i + 1;
    }
    assert(tag@.take(tag@.len() as int) =~= tag@);
    true
}

fn ends_with(l: &[u8], tag: &[u8]) -> (r: bool)
    ensures
        r == has_suffix(l@, tag@),
{
    if l.len() < tag.len() {
        return false;
    }
    let n = l.len();
    let base = n - tag.len();
    let mut i: usize = 0;
    while i < tag.len()
        invariant
            n == l@.len(),
            base + tag@.len() == n,
            i <= tag@.len(),
            forall|j: int| 0 <= j < i ==> l@[base + j] == tag@[j],
        decreases tag.len() - i,
    {
        if l[base + i] != tag[i] {
            assert(l@.skip(base as int)[i as int] != tag@[i as int]);
            return false;
        }
        i = i + 1;
    }
    assert(l@.skip(base as int) =~= tag@);
    true
}

/// The non-empty lines of `reply`, in order.
pub fn split_lines(reply: &[u8]) -> (r: Vec<Vec<u8>>)
    ensures
        r.deep_view() == reply_lines(reply@),
{
    let mut done: Vec<Vec<u8>> = Vec::new();
    let mut cur: Vec<u8> = Vec::new();
    let mut i: usize = 0;
    while i < reply.len()
        invariant
            i <= reply@.len(),
            (done.deep_view(), cur@) == split_acc(reply@.take(i as int)),
        decreases reply.len() - i,
    {
        let b = reply[i];
        let ghost prev = reply@.take(i as int);
        assert(reply@.take(i + 1).drop_last() =~= prev);
        if b == 0u8 || b == 10u8 {
            if cur.len() > 0 {
                let ghost dv = done.deep_view();
                let ghost cv = cur@;
                let line = cur;
                assert(line.deep_view() =~= cv);
                done.push(line);
                assert(done.deep_view() =~= dv.push(cv));
                cur = Vec::new();
            }
        } else {
            cur.push(b);
        }
        i = i + 1;
    }
    assert(reply@.take(reply@.len() as int) =~= reply@);
    if cur.len() > 0 {
        let ghost dv = done.deep_view();
        let ghost cv = cur@;
        assert(cur.deep_view() =~= cv);
        done.push(cur);
        assert(done.deep_view() =~= dv.push(cv));
    }
    done
}

/// Classifies a daemon reply; every input maps to exactly one outcome.
pub fn classify(reply: &[u8]) -> (r: ScanOutcome)
    ensures
        r@ == outcome_of(reply@),
{
    let stream: [u8; 8] = [115u8, 116u8, 114u8, 101u8, 97u8, 109u8, 58u8, 32u8];
    let found: [u8; 6] = [32u8, 70u8, 79u8, 85u8, 78u8, 68u8];
    let ok: [u8; 4] = [58u8, 32u8, 79u8, 75u8];
    assert(stream@ == stream_tag());
    assert(found@ == found_tag());
    assert(ok@ == ok_tag());
    let lines = split_lines(reply);
    let ghost ls = reply_lines(reply@);
    let mut all_found = lines.len() > 0;
    let mut all_ok = lines.len() > 0;
    let mut names: Vec<Vec<u8>> = Vec::new();
    let mut i: usize = 0;
    while i < lines.len()
        invariant
            lines.deep_view() == ls,
            i <= ls.len(),
            stream@ == stream_tag(),
            found@ == found_tag(),
            ok@ == ok_tag(),
            all_found == (ls.len() > 0 && forall|j: int| 0 <= j < i ==> is_found_line(#[trigger] ls[j])),
            all_ok == (ls.len() > 0 && forall|j: int| 0 <= j < i ==> is_ok_line(#[trigger] ls[j])),
            all_found ==> names.deep_view() == signatures_of(ls.take(i as int)),
        decreases lines.len() - i,
    {
        let line: &[u8] = lines[i].as_slice();
        assert(line@ == ls[i as int]);
        let is_found = line.len() > 14 && starts_with(line, stream.as_slice()) && ends_with(line, found.as_slice());
        let is_ok = ends_with(line, ok.as_slice());
        assert(is_found == is_found_line(ls[i as int]));
        assert(is_ok == is_ok_line(ls[i as int]));
        if all_found {
            if is_found {
                let ghost nv = names.deep_view();
                let name = copy_range(line, 8, line.len() - 6);
                assert(name.deep_view() =~= name@);
                names.push(name);
                assert(names.deep_view() =~= nv.push(signature_of(ls[i as int])));
                assert(signatures_of(ls.take(i + 1)) =~= signatures_of(ls.take(i as int)).push(signature_of(ls[i as int])));
            } else {
                all_found = false;
            }
        }
        if !is_ok {
            all_ok = false;
        }
        i = i + 1;
    }
    assert(ls.take(ls.len() as int) =~= ls);
    if all_found {
        assert(names.deep_view() =~= signatures_of(ls));
        assert(outcome_of(reply@) == OutcomeView::Infected(signatures_of(ls)));
        ScanOutcome::Infected { signatures: names }
    } else if all_ok {
        assert(outcome_of(reply@) == OutcomeView::Clean);
        ScanOutcome::Clean
    } else {
        assert(outcome_of(reply@) == OutcomeView::ProtocolError(reply@));
        let r = copy_range(reply, 0, reply.len());
        assert(r@ =~= reply@);
        ScanOutcome::ProtocolError { reply: r }
    }
}

} // verus!
