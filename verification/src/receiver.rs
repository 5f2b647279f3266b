//! The receiver core: one producer session at a time, whose bytes are
//! decoded into frames, each frame stamped with its arrival time and handed
//! out for publication to every destination, in arrival order.

use vstd::prelude::*;

use crate::codec::{FrameDecoder, Poll, scan};
use crate::codec::{delim_at, first_delim_at, has_delim, has_first_delim, first_delim_idx};
use crate::codec::{lemma_first_delim_exists, lemma_scan_step, MAX_FRAME};
use crate::stamp::{stamp, stamped};

verus! {

/// Seconds the receiver waits after a producer session ends before
/// listening for the next connection.
pub const COOLDOWN_SECS: u64 = 5;

/// Receiver session state: at most one producer connection is serviced at a
/// time.
#[derive(PartialEq, Eq, Structural)]
pub enum RxState {
    /// No producer connected; listening (after the cooldown) for one.
    Waiting,
    /// One producer connection is being serviced.
    Streaming,
}

/// The outcome of feeding one read's worth of producer bytes through the
/// receiver.
pub enum IngestResult {
    /// The stamped messages to publish to every destination, in frame
    /// arrival order. Possibly empty: more bytes are then needed before the
    /// next frame completes.
    Published(Vec<Vec<u8>>),
    /// Protocol violation: a frame could not fit within `MAX_FRAME` bytes.
    /// The messages for the frames that completed before the violation are
    /// carried along, still to be published; no part of the offending frame
    /// itself is among them. The session is over and the partial buffer has
    /// been discarded.
    Abort(Vec<Vec<u8>>),
}

/// The receiver: session state plus the frame decoder for the current
/// session.
pub struct Receiver {
    state: RxState,
    dec: FrameDecoder,
}

impl Receiver {
    /// The decoder's resumable scan position is sound.
    pub closed spec fn wf(self) -> bool {
        self.dec.wf()
    }

    /// A producer session is currently being serviced.
    pub closed spec fn session_active(self) -> bool {
        self.state == RxState::Streaming
    }

    /// The bytes read from the producer and not yet yielded as frames.
    pub closed spec fn buffered(self) -> Seq<u8> {
        self.dec@
    }

    /// A fresh receiver, waiting for the first producer connection.
    pub fn new() -> (r: Receiver)
        ensures
            r.wf(),
            !r.session_active(),
            r.buffered() == Seq::<u8>::empty(),
    {
        Receiver { state: RxState::Waiting, dec: FrameDecoder::new() }
    }

    /// Whether a producer session is currently being serviced: a second
    /// connection must not be accepted while one is.
    pub fn is_active(&self) -> (b: bool)
        ensures
            b == self.session_active(),
    {
        match self.state {
            RxState::Streaming => true,
            RxState::Waiting => false,
        }
    }

    /// A producer connection was accepted: begin its session with a fresh
    /// decoder. Only one session runs at a time, so none may be active.
    pub fn accept(&mut self)
        requires
            old(self).wf(),
            !old(self).session_active(),
        ensures
            final(self).wf(),
            final(self).session_active(),
            final(self).buffered() == Seq::<u8>::empty(),
    {
        self.state = RxState::Streaming;
        self.dec = FrameDecoder::new();
    }

    /// The producer session ended (EOF or read error): discard the decoder's
    /// partial buffer — it is never reused across connections — and return
    /// to waiting.
    pub fn end_session(&mut self)
        requires
            old(self).wf(),
        ensures
            final(self).wf(),
            !final(self).session_active(),
            final(self).buffered() == Seq::<u8>::empty(),
    {
        self.state = RxState::Waiting;
        self.dec = FrameDecoder::new();
    }

    /// Feed one read's worth of bytes from the producer. Every frame that
    /// completes is stamped with `now` and returned for publication, in
    /// arrival order; the messages are exactly the frames of the bytes seen
    /// so far, each extended with the decimal timestamp and the delimiter.
    /// A frame that cannot fit within `MAX_FRAME` bytes aborts the session:
    /// no part of it is ever published, while the messages for the frames
    /// that completed before it are carried in the abort, still to be
    /// published.
    pub fn ingest(&mut self, chunk: &[u8], now: u128) -> (r: IngestResult)
        requires
            old(self).wf(),
            old(self).session_active(),
        ensures
            final(self).wf(),
            match r {
                IngestResult::Published(msgs) => {
                    &&& final(self).session_active()
                    &&& !scan(old(self).buffered() + chunk@).abort
                    &&& msgs@.len() == scan(old(self).buffered() + chunk@).frames.len()
                    &&& (forall|k: int|
                        0 <= k < msgs@.len() ==> msgs@[k]@ == stamped(
                            scan(old(self).buffered() + chunk@).frames[k],
                            now as nat,
                        ))
                    &&& final(self).buffered() == scan(old(self).buffered() + chunk@).rest
                },
                IngestResult::Abort(msgs) => {
                    &&& scan(old(self).buffered() + chunk@).abort
                    &&& msgs@.len() == scan(old(self).buffered() + chunk@).frames.len()
                    &&& (forall|k: int|
                        0 <= k < msgs@.len() ==> msgs@[k]@ == stamped(
                            scan(old(self).buffered() + chunk@).frames[k],
                            now as nat,
                        ))
                    &&& !final(self).session_active()
                    &&& final(self).buffered() == Seq::<u8>::empty()
                },
            },
    {
        let ghost s0 = old(self).buffered() + chunk@;
        self.dec.push(chunk);
        let mut msgs: Vec<Vec<u8>> = Vec::new();
        let ghost done: Seq<Seq<u8>> = Seq::empty();
        proof {
            assert(scan(s0).frames =~= done + scan(self.dec@).frames);
        }
        let mut done = Ghost(done);
        loop
            invariant
                s0 == old(self).buffered() + chunk@,
                self.dec.wf(),
                self.state == RxState::Streaming,
                scan(s0).frames == done@ + scan(self.dec@).frames,
                scan(s0).rest == scan(self.dec@).rest,
                scan(s0).abort == scan(self.dec@).abort,
                msgs@.len() == done@.len(),
                forall|k: int| 0 <= k < done@.len() ==> msgs@[k]@ == stamped(done@[k], now as nat),
            decreases self.dec@.len(),
        {
            let ghost cur = self.dec@;
            match self.dec.poll() {
                Poll::Frame(f) => {
                    proof {
                        lemma_scan_step(cur, f@.len() as int);
                        assert(scan(cur).frames == seq![f@] + scan(self.dec@).frames);
                    }
                    let m = stamp(&f, now);
                    msgs.push(m);
                    proof {
                        done@ = done@ + seq![f@];
                        assert(scan(s0).frames =~= done@ + scan(self.dec@).frames);
                    }
                },
                Poll::Pending => {
                    proof {
                        assert(!has_first_delim(cur)) by {
                            if has_first_delim(cur) {
                                let i = first_delim_idx(cur);
                                assert(first_delim_at(cur, i));
                                assert(delim_at(cur, i));
                                assert(has_delim(cur));
                            }
                        }
                        assert(scan(s0).frames =~= done@);
                    }
                    return IngestResult::Published(msgs);
                },
                Poll::Violation => {
                    proof {
                        if has_delim(cur) {
                            lemma_first_delim_exists(cur);
                            let i = first_delim_idx(cur);
                            assert(first_delim_at(cur, i));
                            assert(i + 3 > MAX_FRAME);
                        } else {
                            assert(!has_first_delim(cur)) by {
                                if has_first_delim(cur) {
                                    let i = first_delim_idx(cur);
                                    assert(delim_at(cur, i));
                                }
                            }
                            assert(cur.len() >= MAX_FRAME);
                        }
                        assert(scan(cur).abort);
                        assert(scan(s0).frames =~= done@);
                    }
                    self.state = RxState::Waiting;
                    self.dec = FrameDecoder::new();
                    return IngestResult::Abort(msgs);
                },
            }
        }
    }
}

/// One publication of a stamped message: the same bytes enqueued once per
/// destination, in destination-list order. Entry `k` of the result is what
/// destination `k`'s queue receives.
pub fn fan_out(msg: &Vec<u8>, destinations: usize) -> (copies: Vec<Vec<u8>>)
    ensures
        copies@.len() == destinations,
        forall|k: int| 0 <= k < destinations ==> copies@[k]@ == msg@,
{
    let mut copies: Vec<Vec<u8>> = Vec::new();
    let mut d: usize = 0;
    while d < destinations
        invariant
            d <= destinations,
            copies@.len() == d,
            forall|k: int| 0 <= k < d ==> copies@[k]@ == msg@,
        decreases destinations - d,
    {
        let mut one: Vec<u8> = Vec::new();
        let mut k: usize = 0;
        let mlen = msg.len();
        while k < mlen
            invariant
                k <= mlen,
                mlen == msg@.len(),
                one@ == msg@.take(k as int),
            decreases mlen - k,
        {
            let b = msg[k];
            one.push(b);
            proof {
                assert(msg@.take(k as int).push(msg@[k as int]) =~= msg@.take(k + 1));
            }
            k += 1;
        }
        proof {
            assert(one@ =~= msg@);
        }
        copies.push(one);
        d += 1;
    }
    copies
}

} // verus!
