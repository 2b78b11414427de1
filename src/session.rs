//! Scan transport as a state machine: the caller performs each action on its
//! own connection to the daemon and reports back what happened.
use vstd::prelude::*;
use crate::frame::{Framer, frames_of, valid_chunk_size};
use crate::reply::{OutcomeView, ScanOutcome, classify, outcome_of};

verus! {

/// `zINSTREAM` and a NUL: asks the daemon for a streamed scan with
/// NUL-terminated replies.
pub open spec fn instream_command() -> Seq<u8> {
    seq![122u8, 73u8, 78u8, 83u8, 84u8, 82u8, 69u8, 65u8, 77u8, 0u8]
}

/// Why a scan could not be carried out.
pub enum TransportError {
    /// The connection to the daemon could not be opened.
    Connect { detail: String },
    /// A write or read on the open connection failed.
    Io { detail: String },
    /// The daemon closed the connection without sending a reply.
    ClosedWithoutReply,
    /// An event arrived that the session's phase does not expect.
    OutOfOrder,
}

/// What the caller observed after performing the last action.
pub enum Event {
    Connected,
    ConnectFailed { detail: String },
    Written,
    WriteFailed { detail: String },
    /// Everything the daemon sent before closing the connection.
    ReplyRead { reply: Vec<u8> },
    ReadFailed { detail: String },
}

/// What the caller must do next.
pub enum Action {
    /// Write these bytes to the connection, in full, then report `Written`.
    Send { bytes: Vec<u8> },
    /// Read the reply until the daemon closes the connection.
    ReadReply,
    /// Close the connection; the scan is over with this result.
    Finish { result: Result<ScanOutcome, TransportError> },
}

#[derive(Clone, Copy, PartialEq, Eq, Structural, Debug)]
pub enum Phase {
    /// Waiting for the connection to open.
    Connecting,
    /// Sending the command, then the frames.
    Streaming,
    /// Waiting for the daemon's reply.
    Reading,
    /// The scan is over.
    Finished,
}

/// One scan over one connection.
pub struct ScanSession {
    framer: Framer,
    phase: Phase,
}

impl ScanSession {
    pub closed spec fn wf(&self) -> bool {
        self.framer.wf()
    }

    pub closed spec fn phase(&self) -> Phase {
        self.phase
    }

    /// The frames not yet handed out for sending.
    pub closed spec fn pending(&self) -> Seq<Seq<u8>> {
        self.framer.pending()
    }

    /// A session for one payload; the caller opens the connection first.
    pub fn new(payload: Vec<u8>, max_chunk: usize) -> (r: ScanSession)
        requires
            valid_chunk_size(max_chunk as nat),
        ensures
            r.wf(),
            r.phase() == Phase::Connecting,
            r.pending() == frames_of(payload@, max_chunk as nat),
    {
        ScanSession { framer: Framer::new(payload, max_chunk), phase: Phase::Connecting }
    }

    pub fn current_phase(&self) -> (r: Phase)
        ensures
            r == self.phase(),
    {
        self.phase
    }

    /// Advances the session by one observed event. The command goes first,
    /// then each frame in order; the reply is asked for only once the
    /// terminator has been written; every failure ends the session. What
    /// happens depends on the phase, the frames still pending and the event
    /// alone.
    pub fn step(&mut self, event: Event) -> (r: Action)
        requires
            old(self).wf(),
        ensures
            final(self).wf(),
            (final(self).phase(), final(self).pending(), r@) == next_of(
                old(self).phase(),
                old(self).pending(),
                event,
            ),
    {
        let ph = self.phase;
        match event {
            Event::Connected => {
                if ph == Phase::Connecting {
                    self.phase = Phase::Streaming;
                    Action::Send { bytes: vec![122u8, 73u8, 78u8, 83u8, 84u8, 82u8, 69u8, 65u8, 77u8, 0u8] }
                } else {
                    self.abandon()
                }
            },
            Event::ConnectFailed { detail } => {
                if ph == Phase::Connecting {
                    self.phase = Phase::Finished;
                    Action::Finish { result: Err(TransportError::Connect { detail }) }
                } else {
                    self.abandon()
                }
            },
            Event::Written => {
                if ph == Phase::Streaming {
                    match self.framer.next_frame() {
                        Some(bytes) => Action::Send { bytes },
                        None => {
                            self.phase = Phase::Reading;
                            Action::ReadReply
                        },
                    }
                } else {
                    self.abandon()
                }
            },
            Event::WriteFailed { detail } => {
                if ph == Phase::Streaming {
                    self.phase = Phase::Finished;
                    Action::Finish { result: Err(TransportError::Io { detail }) }
                } else {
                    self.abandon()
                }
            },
            Event::ReplyRead { reply } => {
                if ph == Phase::Reading {
                    self.phase = Phase::Finished;
                    if reply.len() == 0 {
                        Action::Finish { result: Err(TransportError::ClosedWithoutReply) }
                    } else {
                        Action::Finish { result: Ok(classify(reply.as_slice())) }
                    }
                } else {
                    self.abandon()
                }
            },
            Event::ReadFailed { detail } => {
                if ph == Phase::Reading {
                    self.phase = Phase::Finished;
                    Action::Finish { result: Err(TransportError::Io { detail }) }
                } else {
                    self.abandon()
                }
            },
        }
    }

    fn abandon(&mut self) -> (r: Action)
        requires
            old(self).wf(),
        ensures
            final(self).wf(),
            final(self).phase() == Phase::Finished,
            final(self).pending() == old(self).pending(),
            r@ == ActionView::Finish(Err(TransportErrorView::OutOfOrder)),
    {
        self.phase = Phase::Finished;
        Action::Finish { result: Err(TransportError::OutOfOrder) }
    }
}

/// The mathematical value of a [`TransportError`].
pub enum TransportErrorView {
    Connect(Seq<char>),
    Io(Seq<char>),
    ClosedWithoutReply,
    OutOfOrder,
}

impl View for TransportError {
    type V = TransportErrorView;

    open spec fn view(&self) -> TransportErrorView {
        match self {
            TransportError::Connect { detail } => TransportErrorView::Connect(detail@),
            TransportError::Io { detail } => TransportErrorView::Io(detail@),
            TransportError::ClosedWithoutReply => TransportErrorView::ClosedWithoutReply,
            TransportError::OutOfOrder => TransportErrorView::OutOfOrder,
        }
    }
}

/// The mathematical value of an [`Action`].
pub enum ActionView {
    Send(Seq<u8>),
    ReadReply,
    Finish(Result<OutcomeView, TransportErrorView>),
}

impl View for Action {
    type V = ActionView;

    open spec fn view(&self) -> ActionView {
        match self {
            Action::Send { bytes } => ActionView::Send(bytes@),
            Action::ReadReply => ActionView::ReadReply,
            Action::Finish { result } => ActionView::Finish(
                match result {
                    Ok(o) => Ok(o@),
                    Err(e) => Err(e@),
                },
            ),
        }
    }
}

/// The next phase, the frames then pending, and the action, for an event
/// observed in phase `ph` with frames `pend` still to send.
pub open spec fn next_of(ph: Phase, pend: Seq<Seq<u8>>, event: Event) -> (
    Phase,
    Seq<Seq<u8>>,
    ActionView,
) {
    let abandon = (Phase::Finished, pend, ActionView::Finish(Err(TransportErrorView::OutOfOrder)));
    match event {
        Event::Connected => if ph == Phase::Connecting {
            (Phase::Streaming, pend, ActionView::Send(instream_command()))
        } else {
            abandon
        },
        Event::ConnectFailed { detail } => if ph == Phase::Connecting {
            (Phase::Finished, pend, ActionView::Finish(Err(TransportErrorView::Connect(detail@))))
        } else {
            abandon
        },
        Event::Written => if ph == Phase::Streaming {
            if pend.len() > 0 {
                (Phase::Streaming, pend.drop_first(), ActionView::Send(pend[0]))
            } else {
                (Phase::Reading, pend, ActionView::ReadReply)
            }
        } else {
            abandon
        },
        Event::WriteFailed { detail } => if ph == Phase::Streaming {
            (Phase::Finished, pend, ActionView::Finish(Err(TransportErrorView::Io(detail@))))
        } else {
            abandon
        },
        Event::ReplyRead { reply } => if ph == Phase::Reading {
            if reply@.len() == 0 {
                (
                    Phase::Finished,
                    pend,
                    ActionView::Finish(Err(TransportErrorView::ClosedWithoutReply)),
                )
            } else {
                (Phase::Finished, pend, ActionView::Finish(Ok(outcome_of(reply@))))
            }
        } else {
            abandon
        },
        Event::ReadFailed { detail } => if ph == Phase::Reading {
            (Phase::Finished, pend, ActionView::Finish(Err(TransportErrorView::Io(detail@))))
        } else {
            abandon
        },
    }
}

/// Phase and pending frames after `k` successful writes, from `(ph, pend)`.
pub open spec fn after_writes(ph: Phase, pend: Seq<Seq<u8>>, k: nat) -> (Phase, Seq<Seq<u8>>)
    decreases k,
{
    if k == 0 {
        (ph, pend)
    } else {
        let (p2, q2, a) = next_of(ph, pend, Event::Written);
        after_writes(p2, q2, (k - 1) as nat)
    }
}

/// While streaming, one write per pending frame and one for the frame
/// already in flight bring the session to the reading phase.
proof fn lemma_stream_to_reading(pend: Seq<Seq<u8>>)
    ensures
        after_writes(Phase::Streaming, pend, pend.len() + 1).0 == Phase::Reading,
        after_writes(Phase::Streaming, pend, pend.len() + 1).1.len() == 0,
    decreases pend.len(),
{
    if pend.len() > 0 {
        lemma_stream_to_reading(pend.drop_first());
    } else {
        reveal_with_fuel(after_writes, 2);
    }
}

/// A scan whose connection opens and whose writes all succeed sends the
/// command and one frame per chunk plus the terminator, then reads the
/// reply; a non-empty reply ends it with the outcome of that reply alone,
/// whatever the payload. Scanning the same bytes against a daemon that
/// answers the same way therefore gives the same outcome every time.
pub proof fn lemma_full_scan(p: Seq<u8>, c: nat, reply_event: Event)
    requires
        valid_chunk_size(c),
        reply_event matches Event::ReplyRead { reply } && reply@.len() > 0,
    ensures
        ({
            let (p1, q1, a1) = next_of(Phase::Connecting, frames_of(p, c), Event::Connected);
            let (p2, q2) = after_writes(p1, q1, frames_of(p, c).len() + 1);
            &&& a1 == ActionView::Send(instream_command())
            &&& p2 == Phase::Reading
            &&& q2.len() == 0
            &&& reply_event matches Event::ReplyRead { reply } && next_of(p2, q2, reply_event).2
                == ActionView::Finish(Ok(outcome_of(reply@)))
        }),
{
    lemma_stream_to_reading(frames_of(p, c));
}

/// The one failure a caller of a scan sees: the daemon could not be used.
/// The cause is kept for diagnostics.
pub enum ScanFailure {
    Unreachable { cause: TransportError },
}

/// Folds every transport failure into `Unreachable`; any classified
/// outcome, an infection included, is a successful scan.
pub fn orchestrate(result: Result<ScanOutcome, TransportError>) -> (r: Result<ScanOutcome, ScanFailure>)
    ensures
        match result {
            Ok(o) => r matches Ok(o2) && o2@ == o@,
            Err(e) => r matches Err(ScanFailure::Unreachable { cause }) && cause == e,
        },
{
    match result {
        Ok(o) => Ok(o),
        Err(e) => Err(ScanFailure::Unreachable { cause: e }),
    }
}

} // verus!
