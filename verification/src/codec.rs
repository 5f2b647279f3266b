//! Frame decoding: splitting an inbound byte stream into discrete frames
//! terminated by a fixed three-byte delimiter, tolerant of delimiter bytes
//! split across separate reads and of payload bytes that coincide with parts
//! of the delimiter.

use vstd::prelude::*;

verus! {

/// First byte of the frame delimiter.
pub const DELIM_0: u8 = 0xFF;
/// Second byte of the frame delimiter.
pub const DELIM_1: u8 = 0x0D;
/// Third byte of the frame delimiter.
pub const DELIM_2: u8 = 0x0A;
/// Maximum total size of a frame (payload plus delimiter). A stream that
/// needs more buffered bytes than this before a delimiter completes is a
/// protocol violation.
pub const MAX_FRAME: usize = 4096;

/// The delimiter as a byte sequence.
pub open spec fn delim() -> Seq<u8> {
    seq![DELIM_0, DELIM_1, DELIM_2]
}

/// The full delimiter occurs in `s` starting at index `i`.
pub open spec fn delim_at(s: Seq<u8>, i: int) -> bool {
    &&& 0 <= i
    &&& i + 3 <= s.len()
    &&& s[i] == DELIM_0
    &&& s[i + 1] == DELIM_1
    &&& s[i + 2] == DELIM_2
}

/// `s` contains the full delimiter somewhere.
pub open spec fn has_delim(s: Seq<u8>) -> bool {
    exists|i: int| delim_at(s, i)
}

/// No full delimiter occurs anywhere in `s` (partial prefixes of the
/// delimiter may still occur).
pub open spec fn delim_free(s: Seq<u8>) -> bool {
    forall|i: int| !delim_at(s, i)
}

/// The delimiter occurs at `i` and nowhere earlier: `i` is the boundary of
/// the first complete frame in `s`.
pub open spec fn first_delim_at(s: Seq<u8>, i: int) -> bool {
    &&& delim_at(s, i)
    &&& forall|j: int| 0 <= j < i ==> !delim_at(s, j)
}

/// `s` has a first delimiter occurrence.
pub open spec fn has_first_delim(s: Seq<u8>) -> bool {
    exists|i: int| first_delim_at(s, i)
}

/// The position of the first delimiter occurrence in `s`.
pub open spec fn first_delim_idx(s: Seq<u8>) -> int {
    choose|i: int| first_delim_at(s, i)
}

/// A payload that the framing protocol can carry: it contains no full
/// delimiter, and together with the delimiter it fits within a frame.
pub open spec fn wf_frame(p: Seq<u8>) -> bool {
    &&& delim_free(p)
    &&& p.len() + 3 <= MAX_FRAME
}

/// If the delimiter occurs at all, it has a first occurrence.
pub proof fn lemma_first_delim_exists(s: Seq<u8>)
    requires
        has_delim(s),
    ensures
        has_first_delim(s),
{
    let i = choose|i: int| delim_at(s, i);
    lemma_first_delim_from(s, i);
}

proof fn lemma_first_delim_from(s: Seq<u8>, i: int)
    requires
        delim_at(s, i),
    ensures
        has_first_delim(s),
    decreases i,
{
    if exists|j: int| 0 <= j < i && delim_at(s, j) {
        let j = choose|j: int| 0 <= j < i && delim_at(s, j);
        lemma_first_delim_from(s, j);
    } else {
        assert(first_delim_at(s, i));
    }
}

/// The first delimiter occurrence is unique.
pub proof fn lemma_first_delim_unique(s: Seq<u8>, i: int, k: int)
    requires
        first_delim_at(s, i),
        first_delim_at(s, k),
    ensures
        i == k,
{
    if i < k {
        assert(!delim_at(s, i));
    }
    if k < i {
        assert(!delim_at(s, k));
    }
}

/// The outcome of scanning a byte stream completely: the frames it carries
/// (in order), the bytes left over after the last complete frame, and
/// whether a protocol violation was met (a frame, complete or still open,
/// that cannot fit within `MAX_FRAME` bytes).
pub ghost struct Scan {
    pub frames: Seq<Seq<u8>>,
    pub rest: Seq<u8>,
    pub abort: bool,
}

/// Scanning a whole byte stream: split at the first delimiter, repeat on
/// what follows. A complete frame longer than `MAX_FRAME` aborts, as does a
/// delimiter-free stretch that already holds `MAX_FRAME` bytes or more (no
/// delimiter can complete a small enough frame any more).
pub open spec fn scan(s: Seq<u8>) -> Scan
    decreases s.len(),
{
    if has_first_delim(s) {
        let i = first_delim_idx(s);
        if i + 3 <= MAX_FRAME {
            let tail = scan(s.skip(i + 3));
            Scan { frames: seq![s.take(i)] + tail.frames, rest: tail.rest, abort: tail.abort }
        } else {
            Scan { frames: seq![], rest: s, abort: true }
        }
    } else if s.len() >= MAX_FRAME {
        Scan { frames: seq![], rest: s, abort: true }
    } else {
        Scan { frames: seq![], rest: s, abort: false }
    }
}

/// Unrolling `scan` one frame at the (unique) first delimiter position.
pub proof fn lemma_scan_step(s: Seq<u8>, i: int)
    requires
        first_delim_at(s, i),
        i + 3 <= MAX_FRAME,
    ensures
        scan(s).frames == seq![s.take(i)] + scan(s.skip(i + 3)).frames,
        scan(s).rest == scan(s.skip(i + 3)).rest,
        scan(s).abort == scan(s.skip(i + 3)).abort,
{
    assert(has_first_delim(s));
    lemma_first_delim_unique(s, i, first_delim_idx(s));
}

/// A stream carrying the given payloads: each payload followed by the
/// delimiter, concatenated in order.
pub open spec fn encode(ps: Seq<Seq<u8>>) -> Seq<u8>
    decreases ps.len(),
{
    if ps.len() == 0 {
        Seq::empty()
    } else {
        ps[0] + delim() + encode(ps.skip(1))
    }
}

/// In `p + delim + t` with `p` delimiter-free, the first delimiter stands
/// exactly at the end of `p`: a payload whose tail looks like a prefix of
/// the delimiter never causes an earlier (false) frame boundary.
pub proof fn lemma_frame_boundary(p: Seq<u8>, t: Seq<u8>)
    requires
        delim_free(p),
    ensures
        first_delim_at(p + delim() + t, p.len() as int),
{
    let s = p + delim() + t;
    assert(s[p.len() as int] == DELIM_0);
    assert(s[p.len() as int + 1] == DELIM_1);
    assert(s[p.len() as int + 2] == DELIM_2);
    assert(delim_at(s, p.len() as int));
    assert forall|j: int| 0 <= j < p.len() implies !delim_at(s, j) by {
        if j + 3 <= p.len() {
            assert(!delim_at(p, j));
            assert(s[j] == p[j] && s[j + 1] == p[j + 1] && s[j + 2] == p[j + 2]);
        } else if j == p.len() - 2 {
            assert(s[j + 2] == DELIM_0);
        } else {
            assert(j == p.len() - 1);
            assert(s[j + 1] == DELIM_0);
        }
    }
}

/// A stream of well-formed delimiter-terminated frames decodes to exactly
/// those frames, with correct boundaries, nothing left over and no
/// violation — even when payload bytes coincide with parts of the
/// delimiter.
pub proof fn lemma_decode_encoded(ps: Seq<Seq<u8>>)
    requires
        forall|k: int| 0 <= k < ps.len() ==> wf_frame(#[trigger] ps[k]),
    ensures
        scan(encode(ps)).frames == ps,
        scan(encode(ps)).rest == Seq::<u8>::empty(),
        !scan(encode(ps)).abort,
    decreases ps.len(),
{
    if ps.len() == 0 {
        assert(forall|i: int| !delim_at(encode(ps), i));
        assert(!has_first_delim(encode(ps)));
        assert(scan(encode(ps)).frames =~= ps);
    } else {
        let p = ps[0];
        let t = encode(ps.skip(1));
        let s = encode(ps);
        assert(wf_frame(p));
        lemma_frame_boundary(p, t);
        lemma_scan_step(s, p.len() as int);
        assert(s.take(p.len() as int) =~= p);
        assert(s.skip(p.len() as int + 3) =~= t);
        assert(forall|k: int| 0 <= k < ps.skip(1).len() ==> wf_frame(#[trigger] ps.skip(1)[k]));
        lemma_decode_encoded(ps.skip(1));
        assert(scan(s).frames =~= ps);
    }
}

/// A delimiter-free stretch longer than the maximum frame size is a
/// protocol violation, and no frame — not even a partial one — is yielded
/// from it.
pub proof fn lemma_oversized_aborts(s: Seq<u8>)
    requires
        delim_free(s),
        s.len() > MAX_FRAME,
    ensures
        scan(s).abort,
        scan(s).frames == Seq::<Seq<u8>>::empty(),
{
    assert(!has_first_delim(s));
}

/// Decoding is independent of read boundaries: scanning `a`, keeping its
/// leftover bytes, and scanning them together with the next read `b` yields
/// the same frames as scanning `a + b` at one stroke.
pub proof fn lemma_scan_extend(a: Seq<u8>, b: Seq<u8>)
    requires
        !scan(a).abort,
    ensures
        scan(a + b).frames == scan(a).frames + scan(scan(a).rest + b).frames,
        scan(a + b).rest == scan(scan(a).rest + b).rest,
        scan(a + b).abort == scan(scan(a).rest + b).abort,
    decreases a.len(),
{
    if has_first_delim(a) {
        let i = first_delim_idx(a);
        assert(first_delim_at(a, i));
        assert(i + 3 <= MAX_FRAME) by {
            if i + 3 > MAX_FRAME {
                assert(scan(a).abort);
            }
        }
        assert(delim_at(a + b, i));
        assert forall|j: int| 0 <= j < i implies !delim_at(a + b, j) by {
            assert(!delim_at(a, j));
            assert(j + 3 <= a.len());
            assert((a + b)[j] == a[j] && (a + b)[j + 1] == a[j + 1] && (a + b)[j + 2] == a[j + 2]);
        }
        assert(first_delim_at(a + b, i));
        lemma_scan_step(a, i);
        lemma_scan_step(a + b, i);
        assert((a + b).skip(i + 3) =~= a.skip(i + 3) + b);
        assert((a + b).take(i) =~= a.take(i));
        lemma_scan_extend(a.skip(i + 3), b);
        assert(scan(a + b).frames =~= scan(a).frames + scan(scan(a).rest + b).frames);
    } else {
        assert(scan(a).rest == a);
        assert(scan(a).frames =~= Seq::<Seq<u8>>::empty());
        assert(scan(a + b).frames =~= scan(a).frames + scan(scan(a).rest + b).frames);
    }
}

/// The delimiter as executable bytes.
pub fn delim_bytes() -> (v: Vec<u8>)
    ensures
        v@ == delim(),
{
    let mut v: Vec<u8> = Vec::new();
    v.push(DELIM_0);
    v.push(DELIM_1);
    v.push(DELIM_2);
    proof {
        assert(v@ =~= delim());
    }
    v
}

/// What one call of [`FrameDecoder::poll`] yields.
pub enum Poll {
    /// No complete frame is buffered yet, and the buffer is still small
    /// enough that one may yet complete within bounds.
    Pending,
    /// The payload of the first complete frame, its delimiter stripped.
    Frame(Vec<u8>),
    /// Protocol violation: the first frame, complete or still open, cannot
    /// fit within `MAX_FRAME` bytes. The producer connection must be torn
    /// down and the decoder discarded.
    Violation,
}

/// An incremental frame decoder: an accumulation buffer that survives
/// across reads, plus a resumable scan position, so bytes already known to
/// hold no delimiter start are never rescanned.
pub struct FrameDecoder {
    buf: Vec<u8>,
    scanned: usize,
}

impl View for FrameDecoder {
    type V = Seq<u8>;

    /// The bytes currently buffered and not yet yielded as frames.
    closed spec fn view(&self) -> Seq<u8> {
        self.buf@
    }
}

impl FrameDecoder {
    /// The scan position only skips positions where no delimiter can ever
    /// start, even after more bytes arrive.
    pub closed spec fn wf(self) -> bool {
        &&& self.scanned == 0 || self.scanned + 2 <= self.buf@.len()
        &&& forall|j: int| 0 <= j < self.scanned ==> !delim_at(self.buf@, j)
    }

    /// A fresh decoder with an empty buffer.
    pub fn new() -> (d: FrameDecoder)
        ensures
            d.wf(),
            d@ == Seq::<u8>::empty(),
    {
        FrameDecoder { buf: Vec::new(), scanned: 0 }
    }

    /// Append one read's worth of bytes to the accumulation buffer.
    pub fn push(&mut self, chunk: &[u8])
        requires
            old(self).wf(),
        ensures
            final(self).wf(),
            final(self)@ == old(self)@ + chunk@,
    {
        let ghost pre = self.buf@;
        let mut i: usize = 0;
        while i < chunk.len()
            invariant
                0 <= i <= chunk@.len(),
                self.buf@ == pre + chunk@.take(i as int),
                self.scanned == old(self).scanned,
            decreases chunk@.len() - i,
        {
            let b = chunk[i];
            self.buf.push(b);
            proof {
                assert(pre + chunk@.take(i as int) + seq![chunk@[i as int]] =~= pre + chunk@.take(
                    i + 1,
                ));
            }
            i += 1;
        }
        proof {
            assert(self.buf@ =~= pre + chunk@);
            assert forall|j: int| 0 <= j < self.scanned implies !delim_at(self.buf@, j) by {
                assert(!delim_at(pre, j));
                assert(j + 3 <= pre.len());
            }
        }
    }

    /// Scan for the first complete frame in the buffer. Yields its payload
    /// and consumes it, or reports that more bytes are needed, or reports a
    /// protocol violation; in the latter two cases the buffer is unchanged.
    pub fn poll(&mut self) -> (r: Poll)
        requires
            old(self).wf(),
        ensures
            final(self).wf(),
            match r {
                Poll::Frame(f) => {
                    &&& first_delim_at(old(self)@, f@.len() as int)
                    &&& f@.len() + 3 <= MAX_FRAME
                    &&& f@ == old(self)@.take(f@.len() as int)
                    &&& final(self)@ == old(self)@.skip(f@.len() as int + 3)
                },
                Poll::Pending => {
                    &&& final(self)@ == old(self)@
                    &&& !has_delim(old(self)@)
                    &&& old(self)@.len() < MAX_FRAME
                },
                Poll::Violation => {
                    &&& final(self)@ == old(self)@
                    &&& (forall|i: int| first_delim_at(old(self)@, i) ==> i + 3 > MAX_FRAME)
                    &&& (!has_delim(old(self)@) ==> old(self)@.len() >= MAX_FRAME)
                },
            },
    {
        let n = self.buf.len();
        let mut j: usize = self.scanned;
        if n >= 3 {
            while j <= n - 3
                invariant
                    n == self.buf@.len(),
                    3 <= n,
                    j <= n - 2,
                    self.buf@ == old(self)@,
                    self.scanned == old(self).scanned,
                    old(self).wf(),
                    forall|jj: int| 0 <= jj < j ==> !delim_at(self.buf@, jj),
                decreases n - j,
            {
                if self.buf[j + 2] == DELIM_2 && self.buf[j + 1] == DELIM_1 && self.buf[j]
                    == DELIM_0 {
                    proof {
                        assert(delim_at(self.buf@, j as int));
                        assert(first_delim_at(self.buf@, j as int));
                    }
                    if j + 3 <= MAX_FRAME {
                        // Extract the payload and drop it plus the
                        // delimiter from the buffer.
                        let mut payload: Vec<u8> = Vec::new();
                        let mut k: usize = 0;
                        while k < j
                            invariant
                                k <= j,
                                j + 3 <= n,
                                n == self.buf@.len(),
                                self.buf@ == old(self)@,
                                payload@ == self.buf@.take(k as int),
                            decreases j - k,
                        {
                            let b = self.buf[k];
                            payload.push(b);
                            proof {
                                assert(self.buf@.take(k as int).push(self.buf@[k as int])
                                    =~= self.buf@.take(k + 1));
                            }
                            k += 1;
                        }
                        let mut rest: Vec<u8> = Vec::new();
                        let mut k2: usize = j + 3;
                        while k2 < n
                            invariant
                                j + 3 <= k2 <= n,
                                n == self.buf@.len(),
                                self.buf@ == old(self)@,
                                rest@ == self.buf@.subrange(j + 3, k2 as int),
                            decreases n - k2,
                        {
                            let b = self.buf[k2];
                            rest.push(b);
                            proof {
                                assert(self.buf@.subrange(j + 3, k2 as int).push(
                                    self.buf@[k2 as int],
                                ) =~= self.buf@.subrange(j + 3, k2 + 1));
                            }
                            k2 += 1;
                        }
                        self.buf = rest;
                        self.scanned = 0;
                        proof {
                            assert(self.buf@ =~= old(self)@.skip(j + 3));
                            assert(payload@.len() == j);
                        }
                        return Poll::Frame(payload);
                    } else {
                        proof {
                            assert forall|i: int| first_delim_at(old(self)@, i) implies i + 3
                                > MAX_FRAME by {
                                lemma_first_delim_unique(old(self)@, i, j as int);
                            }
                        }
                        return Poll::Violation;
                    }
                }
                proof {
                    assert(!delim_at(self.buf@, j as int));
                }
                j += 1;
            }
        }
        // No complete delimiter anywhere in the buffer.
        proof {
            if n >= 3 {
                assert(j > n - 3);
            }
            assert forall|jj: int| !delim_at(self.buf@, jj) by {
                if 0 <= jj && jj + 3 <= n {
                    assert(jj < j);
                }
            }
            assert(!has_delim(old(self)@));
        }
        self.scanned = if n >= 2 {
            n - 2
        } else {
            0
        };
        if n >= MAX_FRAME {
            Poll::Violation
        } else {
            Poll::Pending
        }
    }
}

} // verus!
