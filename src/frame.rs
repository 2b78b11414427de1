//! Chunk framer: a payload becomes length-prefixed chunks and a terminator.
use vstd::prelude::*;

verus! {

/// Default largest chunk body sent in one frame.
pub const DEFAULT_MAX_CHUNK_SIZE: usize = 8192;

/// Largest chunk body that a four-byte length prefix can announce.
pub const LARGEST_CHUNK_SIZE: usize = 0xffff_ffff;

/// A chunk size the framer accepts: positive, and announceable in four bytes.
pub open spec fn valid_chunk_size(c: nat) -> bool {
    0 < c <= LARGEST_CHUNK_SIZE
}

/// The four-byte big-endian encoding of `n`.
pub open spec fn be32(n: u32) -> Seq<u8> {
    seq![(n >> 24u32) as u8, (n >> 16u32) as u8, (n >> 8u32) as u8, n as u8]
}

/// The value of a four-byte big-endian prefix.
pub open spec fn be32_value(b: Seq<u8>) -> int {
    b[0] as int * 0x100_0000 + b[1] as int * 0x1_0000 + b[2] as int * 0x100 + b[3] as int
}

/// The zero-length frame that ends a stream.
pub open spec fn terminator() -> Seq<u8> {
    seq![0u8, 0u8, 0u8, 0u8]
}

/// One frame: the body's length, big-endian in four bytes, then the body.
pub open spec fn frame_of(body: Seq<u8>) -> Seq<u8> {
    be32(body.len() as u32) + body
}

/// The payload cut into consecutive windows of at most `c` bytes, in order.
pub open spec fn chunks(p: Seq<u8>, c: nat) -> Seq<Seq<u8>>
    decreases p.len(),
{
    if c == 0 || p.len() == 0 {
        seq![]
    } else if p.len() <= c {
        seq![p]
    } else {
        seq![p.take(c as int)] + chunks(p.skip(c as int), c)
    }
}

/// Every frame sent for payload `p` with chunk size `c`, terminator included.
pub open spec fn frames_of(p: Seq<u8>, c: nat) -> Seq<Seq<u8>> {
    chunks(p, c).map(|i: int, b: Seq<u8>| frame_of(b)).push(terminator())
}

/// The number of data frames: the payload length divided by `c`, rounded up.
pub open spec fn chunk_count(len: nat, c: nat) -> nat {
    if c == 0 {
        0
    } else {
        ((len + c - 1) as nat / c) as nat
    }
}

/// A big-endian prefix reads back as the value it encodes.
pub proof fn lemma_be32_value(n: u32)
    ensures
        be32_value(be32(n)) == n as int,
{
    let b0 = (n >> 24u32) as u8;
    let b1 = (n >> 16u32) as u8;
    let b2 = (n >> 8u32) as u8;
    let b3 = n as u8;
    assert(b0 as u32 * 0x100_0000u32 + b1 as u32 * 0x1_0000u32 + b2 as u32 * 0x100u32 + b3 as u32
        == n) by (bit_vector)
        requires
            b0 == (n >> 24u32) as u8,
            b1 == (n >> 16u32) as u8,
            b2 == (n >> 8u32) as u8,
            b3 == n as u8,
    ;
}

/// Splitting a payload into chunks loses and reorders nothing; there are
/// `ceil(len / c)` chunks, none empty, each at most `c` bytes, and all but the
/// last exactly `c` bytes.
pub proof fn lemma_chunks(p: Seq<u8>, c: nat)
    requires
        c > 0,
    ensures
        chunks(p, c).flatten() == p,
        chunks(p, c).len() == chunk_count(p.len(), c),
        forall|i: int|
            0 <= i < chunks(p, c).len() ==> 0 < #[trigger] chunks(p, c)[i].len() <= c,
        forall|i: int|
            0 <= i < chunks(p, c).len() - 1 ==> #[trigger] chunks(p, c)[i].len() == c,
    decreases p.len(),
{
    let cs = chunks(p, c);
    if p.len() == 0 {
        assert(chunk_count(0, c) == 0) by (nonlinear_arith)
            requires
                c > 0,
        ;
    } else if p.len() <= c {
        assert(cs.drop_first() =~= Seq::<Seq<u8>>::empty());
        assert(cs.drop_first().flatten() =~= Seq::<u8>::empty());
        assert(cs.flatten() =~= p);
        assert(chunk_count(p.len(), c) == 1) by (nonlinear_arith)
            requires
                c > 0,
                0 < p.len() <= c,
        ;
    } else {
        let rest = p.skip(c as int);
        lemma_chunks(rest, c);
        assert(cs.drop_first() =~= chunks(rest, c));
        assert(cs.flatten() =~= p.take(c as int) + rest);
        assert(p.take(c as int) + rest =~= p);
        let l = p.len();
        assert(chunk_count(l, c) == 1 + chunk_count((l - c) as nat, c)) by (nonlinear_arith)
            requires
                c > 0,
                l > c,
        {
            assert((l + c - 1) as nat == ((l - c) as nat + c - 1) as nat + c);
            assert(((l + c - 1) as nat / c) as nat == ((((l - c) as nat + c - 1) as nat) / c) as nat + 1);
        }
        assert forall|i: int| 0 <= i < cs.len() implies 0 < #[trigger] cs[i].len() <= c by {
            if i > 0 {
                assert(cs[i] == chunks(rest, c)[i - 1]);
            }
        }
        assert forall|i: int| 0 <= i < cs.len() - 1 implies #[trigger] cs[i].len() == c by {
            if i > 0 {
                assert(cs[i] == chunks(rest, c)[i - 1]);
            }
        }
    }
}

/// The frames of a payload, in the order they go on the wire: every frame but
/// the last announces the length of its non-empty body, which is the next
/// chunk of the payload; the last frame, and only it, is the terminator.
pub proof fn lemma_frames(p: Seq<u8>, c: nat)
    requires
        valid_chunk_size(c),
    ensures
        frames_of(p, c).len() == chunk_count(p.len(), c) + 1,
        frames_of(p, c).last() == terminator(),
        forall|i: int|
            0 <= i < frames_of(p, c).len() - 1 ==> {
                &&& #[trigger] frames_of(p, c)[i] != terminator()
                &&& be32_value(frames_of(p, c)[i].take(4)) == chunks(p, c)[i].len()
                &&& frames_of(p, c)[i].skip(4) == chunks(p, c)[i]
            },
{
    lemma_chunks(p, c);
    let cs = chunks(p, c);
    let fs = frames_of(p, c);
    assert forall|i: int| 0 <= i < fs.len() - 1 implies {
        &&& #[trigger] fs[i] != terminator()
        &&& be32_value(fs[i].take(4)) == cs[i].len()
        &&& fs[i].skip(4) == cs[i]
    } by {
        let b = cs[i];
        assert(fs[i] == frame_of(b));
        assert(fs[i].len() > terminator().len());
        assert(fs[i].take(4) =~= be32(b.len() as u32));
        assert(fs[i].skip(4) =~= b);
        lemma_be32_value(b.len() as u32);
    }
}

/// Produces the frames of one payload lazily, one per call, in wire order.
pub struct Framer {
    payload: Vec<u8>,
    max_chunk: usize,
    offset: usize,
    done: bool,
}

impl Framer {
    /// The framer's state is consistent.
    pub closed spec fn wf(&self) -> bool {
        &&& valid_chunk_size(self.max_chunk as nat)
        &&& self.offset <= self.payload@.len()
    }

    /// The frames still to be produced, in order.
    pub closed spec fn pending(&self) -> Seq<Seq<u8>> {
        if self.done {
            seq![]
        } else {
            frames_of(self.payload@.skip(self.offset as int), self.max_chunk as nat)
        }
    }

    /// A framer over `payload` whose chunks hold at most `max_chunk` bytes.
    pub fn new(payload: Vec<u8>, max_chunk: usize) -> (r: Framer)
        requires
            valid_chunk_size(max_chunk as nat),
        ensures
            r.wf(),
            r.pending() == frames_of(payload@, max_chunk as nat),
    {
        let r = Framer { payload, max_chunk, offset: 0, done: false };
        assert(r.payload@.skip(0) =~= r.payload@);
        r
    }

    /// The next frame, or `None` once the terminator has been produced.
    pub fn next_frame(&mut self) -> (r: Option<Vec<u8>>)
        requires
            old(self).wf(),
        ensures
            final(self).wf(),
            old(self).pending().len() == 0 ==> r is None && final(self).pending() == old(
                self,
            ).pending(),
            old(self).pending().len() > 0 ==> r is Some && r->0@ == old(self).pending()[0]
                && final(self).pending() == old(self).pending().drop_first(),
    {
        if self.done {
            return None;
        }
        let ghost c = self.max_chunk as nat;
        let ghost q = self.payload@.skip(self.offset as int);
        let ghost fmap = |i: int, b: Seq<u8>| frame_of(b);
        let len = self.payload.len();
        if self.offset == len {
            self.done = true;
            assert(q =~= Seq::<u8>::empty());
            return Some(vec![0u8, 0u8, 0u8, 0u8]);
        }
        let remaining = len - self.offset;
        let n: usize = if remaining < self.max_chunk {
            remaining
        } else {
            self.max_chunk
        };
        let n32 = n as u32;
        let mut out: Vec<u8> = Vec::new();
        out.push((n32 >> 24u32) as u8);
        out.push((n32 >> 16u32) as u8);
        out.push((n32 >> 8u32) as u8);
        out.push(n32 as u8);
        let start = self.offset;
        let end = start + n;
        let mut i: usize = start;
        while i < end
            invariant
                start <= i <= end,
                end == start + n,
                end <= self.payload@.len(),
                out@ == be32(n32) + self.payload@.subrange(start as int, i as int),
            decreases end - i,
        {
            out.push(self.payload[i]);
            assert(self.payload@.subrange(start as int, i + 1) =~= self.payload@.subrange(
                start as int,
                i as int,
            ).push(self.payload@[i as int]));
            i = i + 1;
        }
        self.offset = end;
        proof {
            let body = self.payload@.subrange(start as int, (start + n) as int);
            let q2 = self.payload@.skip(self.offset as int);
            assert(out@ == frame_of(body));
            if q.len() <= c {
                assert(body =~= q);
                assert(q2 =~= Seq::<u8>::empty());
                assert(chunks(q, c) == seq![q]);
            } else {
                assert(body =~= q.take(c as int));
                assert(q2 =~= q.skip(c as int));
                assert(chunks(q, c) == seq![q.take(c as int)] + chunks(q2, c));
                assert(chunks(q, c).drop_first() =~= chunks(q2, c));
            }
            assert(frames_of(q, c)[0] == frame_of(chunks(q, c)[0]));
            assert(frames_of(q, c).drop_first() =~= frames_of(q2, c));
        }
        Some(out)
    }
}

/// All frames of `payload`, terminator included, in wire order.
pub fn frames(payload: Vec<u8>, max_chunk: usize) -> (r: Vec<Vec<u8>>)
    requires
        valid_chunk_size(max_chunk as nat),
    ensures
        r.deep_view() == frames_of(payload@, max_chunk as nat),
{
    let ghost all = frames_of(payload@, max_chunk as nat);
    let mut f = Framer::new(payload, max_chunk);
    let mut out: Vec<Vec<u8>> = Vec::new();
    loop
        invariant
            f.wf(),
            all == frames_of(payload@, max_chunk as nat),
            out.deep_view() + f.pending() == all,
        decreases f.pending().len(),
    {
        let ghost before = f.pending();
        match f.next_frame() {
            Some(fr) => {
                let ghost v = fr@;
                let ghost prev = out.deep_view();
                assert(fr.deep_view() =~= v);
                out.push(fr);
                assert(out.deep_view() =~= prev.push(v));
                assert(before =~= seq![v] + f.pending());
                assert(out.deep_view() + f.pending() =~= all);
            },
            None => {
                assert(f.pending() =~= Seq::<Seq<u8>>::empty());
                assert(out.deep_view() + f.pending() =~= out.deep_view());
                return out;
            },
        }
    }
}

} // verus!
