//! The sending side of a transfer, from the first data block on.
use std::time::Duration;
use vstd::prelude::*;

use crate::addr::SocketAddr;
use crate::error::{Error, ErrorView};
use crate::proto::packet::{packet_of, packet_wire, PacketView};
use crate::proto::{decode, ErrorCode, Mode, Packet};
use crate::sender::{
    acks_are_cumulative, acks_reach_this_far, acks_take_from_what_is_outstanding,
    filling_keeps_the_terms, filling_keeps_what_is_outstanding, Window, WindowView,
};
use crate::session::{
    answer_stranger, ascii_text_wire_len, outputs_view, quiet, send_error, send_view,
    stranger_step, Negotiated, Next, NextView, Output, OutputView, Step, StepView,
};

verus! {

/// What the peer is told when the transfer is given up.
pub open spec fn timed_out_report() -> PacketView {
    PacketView::Error { code: ErrorCode::NotDefined, msg: "timed out"@ }
}

/// The outputs with which a transfer is given up after its last timeout.
pub open spec fn give_up(peer: SocketAddr, report: bool) -> Seq<OutputView> {
    if report {
        seq![send_view(peer, timed_out_report())]
    } else {
        Seq::empty()
    }
}

/// Makes those outputs.
pub(crate) fn giving_up(peer: SocketAddr, report: bool) -> (outputs: Vec<Output>)
    ensures
        outputs_view(outputs@) == give_up(peer, report),
{
    let mut outputs: Vec<Output> = Vec::new();
    if report {
        proof {
            reveal_strlit("timed out");
            ascii_text_wire_len("timed out"@);
        }
        outputs.push(send_error(peer, ErrorCode::NotDefined, "timed out"));
    }
    assert(outputs_view(outputs@) =~= give_up(peer, report));
    outputs
}

/// What an [`Outgoing`] stands for.
#[verifier::ext_equal]
pub struct OutgoingView {
    /// Who receives.
    pub peer: SocketAddr,
    /// How often a window is sent again for want of an answer.
    pub retries: u32,
    /// How long to wait for an answer.
    pub timeout: Duration,
    /// Whether the sender serves the peer.  If so, the peer is told when the
    /// transfer is given up, and only an acknowledgement of a block in flight
    /// counts.
    pub serving: bool,
    pub window: WindowView,
    /// How often the window was sent again for want of an answer.
    pub attempt: u32,
}

impl OutgoingView {
    /// A transfer before its first block.
    pub open spec fn start(
        peer: SocketAddr,
        retries: u32,
        serving: bool,
        mode: Mode,
        neg: Negotiated,
    ) -> OutgoingView {
        OutgoingView {
            peer,
            retries,
            timeout: neg.timeout,
            serving,
            window: WindowView::start(mode, neg.blksize as nat, neg.windowsize),
            attempt: 0,
        }
    }

    pub open spec fn wf(self) -> bool {
        &&& self.window.wf()
        &&& self.attempt <= self.retries
    }

    /// Whether the next event must be a read of the source.
    pub open spec fn reading(self) -> bool {
        self.window.wants_input()
    }

    /// Whether the next event must be a datagram or a timeout.
    pub open spec fn waiting(self) -> bool {
        !self.window.wants_input() && self.window.in_flight.len() > 0
    }

    /// Sends the window and waits.
    pub open spec fn sent(self) -> StepView {
        StepView {
            outputs: self.window.datagrams(self.peer),
            next: NextView::Wait(self.timeout),
        }
    }

    /// Goes on after a change of the window: fills it, which may take a read
    /// of the source first, and sends it.  A window that stays empty ends the
    /// transfer.
    pub open spec fn proceed(self) -> (OutgoingView, StepView) {
        let next = OutgoingView { window: self.window.filled(), attempt: 0, ..self };
        if next.reading() {
            let wish = NextView::Read(next.window.sender.blksize);
            (next, StepView { outputs: Seq::empty(), next: wish })
        } else if next.window.in_flight.len() == 0 {
            (next, StepView { outputs: Seq::empty(), next: NextView::Done })
        } else {
            (next, next.sent())
        }
    }

    /// Takes what one read of the source gave.
    pub open spec fn fed(self, chunk: Seq<u8>) -> OutgoingView {
        OutgoingView { window: self.window.fed(chunk), ..self }
    }

    /// After a read of the source.
    pub open spec fn on_chunk(self, chunk: Seq<u8>) -> (OutgoingView, StepView) {
        self.fed(chunk).proceed()
    }

    /// After a wait in which the peer sent nothing: the window is sent again,
    /// `retries` times in a row at most.
    pub open spec fn on_timeout(self) -> (OutgoingView, StepView) {
        if self.attempt >= self.retries {
            let end = NextView::Fail(ErrorView::Timeout(self.attempt));
            (self, StepView { outputs: give_up(self.peer, self.serving), next: end })
        } else {
            let next = OutgoingView { attempt: (self.attempt + 1) as u32, ..self };
            (next, next.sent())
        }
    }

    /// After a datagram: an acknowledgement that covers a block in flight
    /// moves the window on, an error ends the transfer, and anything else
    /// from the peer has the window sent again.
    pub open spec fn on_datagram(self, src: SocketAddr, bytes: Seq<u8>) -> (
        OutgoingView,
        StepView,
    ) {
        if src != self.peer {
            (self, stranger_step(src))
        } else {
            match packet_of(bytes) {
                Ok(PacketView::Ack { block }) => if self.window.advanced_by(block, self.serving) {
                    OutgoingView { window: self.window.acknowledged(block, self.serving), ..self }.proceed()
                } else {
                    (self, self.sent())
                },
                Ok(PacketView::Error { code, msg }) => {
                    let end = NextView::Fail(ErrorView::Peer { code, msg });
                    (self, StepView { outputs: Seq::empty(), next: end })
                },
                _ => (self, self.sent()),
            }
        }
    }
}

/// The sending side of a transfer.  Its owner reads the source and exchanges
/// the datagrams.
#[derive(Debug)]
pub struct Outgoing {
    peer: SocketAddr,
    retries: u32,
    timeout: Duration,
    serving: bool,
    window: Window,
    attempt: u32,
}

impl View for Outgoing {
    type V = OutgoingView;

    closed spec fn view(&self) -> OutgoingView {
        OutgoingView {
            peer: self.peer,
            retries: self.retries,
            timeout: self.timeout,
            serving: self.serving,
            window: self.window@,
            attempt: self.attempt,
        }
    }
}

impl Outgoing {
    /// A transfer before its first block.
    pub fn new(peer: SocketAddr, retries: u32, serving: bool, mode: Mode, neg: Negotiated) -> (out:
        Outgoing)
        requires
            neg.blksize > 0,
            neg.windowsize > 0,
        ensures
            out@ == OutgoingView::start(peer, retries, serving, mode, neg),
            out@.wf(),
    {
        Outgoing {
            peer,
            retries,
            timeout: neg.timeout,
            serving,
            window: Window::new(mode, neg.blksize, neg.windowsize),
            attempt: 0,
        }
    }

    /// Who receives.
    pub fn peer(&self) -> (peer: SocketAddr)
        ensures
            peer == self@.peer,
    {
        self.peer
    }

    /// How often a window is sent again for want of an answer.
    pub fn retries(&self) -> (n: u32)
        ensures
            n == self@.retries,
    {
        self.retries
    }

    /// How long to wait for an answer.
    pub fn timeout(&self) -> (d: Duration)
        ensures
            d == self@.timeout,
    {
        self.timeout
    }

    /// Number of encoded bytes that are not in a block yet.
    pub fn pending_len(&self) -> (n: usize)
        ensures
            n == self@.window.sender.pending.len(),
    {
        self.window.pending_len()
    }

    fn send(&self) -> (step: Step)
        requires
            self@.wf(),
        ensures
            step@ == self@.sent(),
    {
        Step { outputs: self.window.datagrams(self.peer), next: Next::Wait(self.timeout) }
    }

    /// Fills the window and sends it.
    pub fn proceed(&mut self) -> (step: Step)
        requires
            old(self)@.wf(),
        ensures
            final(self)@ == old(self)@.proceed().0,
            step@ == old(self)@.proceed().1,
            final(self)@.wf(),
            final(self)@.window.sender.pending.len() <= old(self)@.window.sender.pending.len(),
            follows(final(self)@, step@),
    {
        proof {
            filling_keeps_what_is_outstanding(self.window@, Seq::empty());
        }
        self.window.fill();
        self.attempt = 0;
        if self.window.wants_input() {
            quiet(Next::Read(self.window.blksize()))
        } else if self.window.is_empty() {
            quiet(Next::Done)
        } else {
            self.send()
        }
    }

    /// Takes what one read of the source gave.
    pub fn feed(&mut self, chunk: &[u8])
        requires
            old(self)@.wf(),
            old(self)@.reading(),
        ensures
            final(self)@ == old(self)@.fed(chunk@),
            final(self)@.wf(),
    {
        self.window.feed(chunk);
    }

    /// After a wait in which the peer sent nothing.
    pub fn on_timeout(&mut self) -> (step: Step)
        requires
            old(self)@.wf(),
            old(self)@.waiting(),
        ensures
            final(self)@ == old(self)@.on_timeout().0,
            step@ == old(self)@.on_timeout().1,
            final(self)@.wf(),
            final(self)@.window == old(self)@.window,
            follows(final(self)@, step@),
    {
        if self.attempt >= self.retries {
            Step {
                outputs: giving_up(self.peer, self.serving),
                next: Next::Fail(Error::Timeout(self.attempt)),
            }
        } else {
            self.attempt = self.attempt + 1;
            self.send()
        }
    }

    /// After a datagram.
    pub fn on_datagram(&mut self, src: SocketAddr, bytes: &[u8]) -> (step: Step)
        requires
            old(self)@.wf(),
            old(self)@.waiting(),
        ensures
            final(self)@ == old(self)@.on_datagram(src, bytes@).0,
            step@ == old(self)@.on_datagram(src, bytes@).1,
            final(self)@.wf(),
            final(self)@.window.sender.pending.len() <= old(self)@.window.sender.pending.len(),
            follows(final(self)@, step@),
    {
        if src != self.peer {
            return answer_stranger(src);
        }
        match decode(bytes) {
            Ok(Packet::Ack { block }) => {
                if self.window.acknowledge(block, self.serving) {
                    self.proceed()
                } else {
                    assert(self@.window =~= old(self)@.window);
                    self.send()
                }
            },
            Ok(Packet::Error { code, msg }) => quiet(Next::Fail(Error::Peer { code, msg })),
            _ => self.send(),
        }
    }
}

/// Whether a step asks for the event that the state is ready for.
pub open spec fn follows(state: OutgoingView, step: StepView) -> bool {
    match step.next {
        NextView::Read(n) => state.reading() && n == state.window.sender.blksize,
        NextView::Wait(d) => state.waiting() && d == state.timeout,
        NextView::KeepWaiting => state.waiting(),
        NextView::Done => state.window.in_flight.len() == 0 && state.window.sender.final_emitted,
        NextView::Fail(_) => true,
    }
}

/// The state after `n` timeouts in a row.
pub open spec fn after_timeouts(s: OutgoingView, n: nat) -> OutgoingView
    decreases n,
{
    if n == 0 {
        s
    } else {
        after_timeouts(s, (n - 1) as nat).on_timeout().0
    }
}

/// Timeouts in a row have the same window sent again as long as the retries
/// last, and then end the transfer with the number of retries.
pub proof fn retries_are_bounded(s: OutgoingView, n: nat)
    requires
        s.wf(),
    ensures
        s.attempt + n < s.retries ==> after_timeouts(s, n).on_timeout().1 == s.sent(),
        s.attempt + n >= s.retries ==> after_timeouts(s, n).on_timeout().1 == (StepView {
            outputs: give_up(s.peer, s.serving),
            next: NextView::Fail(ErrorView::Timeout(s.retries)),
        }),
        after_timeouts(s, n) == (OutgoingView {
            attempt: (if s.attempt + n < s.retries {
                s.attempt + n
            } else {
                s.retries as int
            }) as u32,
            ..s
        }),
    decreases n,
{
    if n > 0 {
        retries_are_bounded(s, (n - 1) as nat);
    }
}

/// Going on changes nothing in what is outstanding, and the transfer ends
/// only when nothing is.
pub proof fn proceeding_keeps_what_is_outstanding(s: OutgoingView, rest: Seq<u8>)
    requires
        s.wf(),
        s.window.sender.eof ==> rest.len() == 0,
    ensures
        s.proceed().0.wf(),
        s.proceed().0.window.outstanding(rest) == s.window.outstanding(rest),
        s.proceed().1.next is Done ==> s.window.outstanding(rest).len() == 0,
        follows(s.proceed().0, s.proceed().1),
{
    filling_keeps_what_is_outstanding(s.window, rest);
}

/// Whatever arrives while the sender waits, blocks leave what is outstanding
/// only from its front, and only by an acknowledgement from the peer.  A
/// success comes with an acknowledgement that covers all that is outstanding;
/// at a server it is one of the last block.
pub proof fn blocks_leave_only_by_acknowledgement(
    s: OutgoingView,
    src: SocketAddr,
    bytes: Seq<u8>,
    rest: Seq<u8>,
)
    requires
        s.wf(),
        s.waiting(),
        s.window.sender.eof ==> rest.len() == 0,
    ensures
        ({
            let next = s.on_datagram(src, bytes).0;
            let covered = match packet_of(bytes) {
                Ok(PacketView::Ack { block }) if src == s.peer => s.window.acked_by(
                    block,
                    s.serving,
                ),
                _ => 0,
            };
            &&& next.wf()
            &&& next.window.outstanding(rest) == s.window.outstanding(rest).skip(covered as int)
            &&& s.on_datagram(src, bytes).1.next is Done ==> next.window.outstanding(rest).len()
                == 0
            &&& s.on_datagram(src, bytes).1.next is Done ==> src == s.peer && (packet_of(
                bytes,
            ) matches Ok(PacketView::Ack { block }) && (s.serving ==> block
                == s.window.in_flight.last().0))
        }),
{
    assert(s.window.outstanding(rest).skip(0) =~= s.window.outstanding(rest));
    if src == s.peer {
        if let Ok(PacketView::Ack { block }) = packet_of(bytes) {
            acks_take_from_what_is_outstanding(s.window, block, s.serving, rest);
            let after = OutgoingView { window: s.window.acknowledged(block, s.serving), ..s };
            if s.window.advanced_by(block, s.serving) {
                proceeding_keeps_what_is_outstanding(after, rest);
                filling_keeps_what_is_outstanding(after.window, rest);
                let w = s.window;
                acks_are_cumulative(w.in_flight, w.next_block, block, w.windowsize, s.serving);
            }
        }
    }
}

/// However the sender comes to wait for an answer (at the start, after a read
/// of the source, after a timeout, after a datagram from the peer), it waits
/// for its timeout, and before that sends every block in flight to the peer:
/// all of them, in order, each once, and nothing else.
pub proof fn the_whole_window_is_sent(
    s: OutgoingView,
    chunk: Seq<u8>,
    src: SocketAddr,
    bytes: Seq<u8>,
    next: OutgoingView,
    step: StepView,
)
    requires
        s.wf(),
        (next, step) == s.proceed() || (next, step) == s.on_chunk(chunk) || (
        s.window.in_flight.len() > 0 && ((next, step) == s.on_timeout() || (next, step)
            == s.on_datagram(src, bytes))),
        step.next is Wait,
    ensures
        step.next == NextView::Wait(s.timeout),
        step.outputs.len() == next.window.in_flight.len(),
        step.outputs.len() > 0,
        forall|i: int|
            0 <= i < next.window.in_flight.len() ==> #[trigger] step.outputs[i]
                == (OutputView::Send {
                to: s.peer,
                datagram: packet_wire(
                    PacketView::Data {
                        block: next.window.in_flight[i].0,
                        data: next.window.in_flight[i].1,
                    },
                ),
            }),
{
}

/// No event changes who the peer is, how long and how often the sender waits,
/// whether it serves, or how it makes blocks.
pub proof fn a_transfer_keeps_its_terms(
    s: OutgoingView,
    chunk: Seq<u8>,
    src: SocketAddr,
    bytes: Seq<u8>,
    next: OutgoingView,
)
    requires
        s.wf(),
        next == s.proceed().0 || next == s.on_chunk(chunk).0 || next == s.on_timeout().0 || next
            == s.on_datagram(src, bytes).0,
    ensures
        next.peer == s.peer,
        next.retries == s.retries,
        next.timeout == s.timeout,
        next.serving == s.serving,
        next.window.windowsize == s.window.windowsize,
        next.window.sender.mode == s.window.sender.mode,
        next.window.sender.blksize == s.window.sender.blksize,
{
    filling_keeps_the_terms(s.window);
    filling_keeps_the_terms(s.window.fed(chunk));
    if let Ok(PacketView::Ack { block }) = packet_of(bytes) {
        filling_keeps_the_terms(s.window.acknowledged(block, s.serving));
    }
}

/// A transfer starts with the terms that were agreed on, with nothing read,
/// nothing in flight and no retry made, and its first block has number 1.
pub proof fn a_transfer_starts_with_what_was_agreed(
    peer: SocketAddr,
    retries: u32,
    serving: bool,
    mode: Mode,
    neg: Negotiated,
)
    ensures
        ({
            let s = OutgoingView::start(peer, retries, serving, mode, neg);
            &&& s.peer == peer
            &&& s.retries == retries
            &&& s.timeout == neg.timeout
            &&& s.serving == serving
            &&& s.attempt == 0
            &&& s.window.windowsize == neg.windowsize
            &&& s.window.in_flight.len() == 0
            &&& s.window.next_block == 1
            &&& s.window.sender.blksize == neg.blksize
            &&& s.window.sender.mode == mode
            &&& s.window.sender.pending.len() == 0
            &&& !s.window.sender.eof
            &&& !s.window.sender.final_emitted
        }),
{
}

/// When the sender goes on, it asks for one block's worth of the source if
/// that is needed to fill the window, waits if there is anything in flight,
/// and is done otherwise.  What it has ready it puts in flight: a window that
/// is sent is full or holds the last block.  The retries start over.
pub proof fn going_on_fills_the_window(s: OutgoingView)
    requires
        s.wf(),
    ensures
        ({
            let (next, step) = s.proceed();
            let w = next.window;
            &&& next == (OutgoingView { window: s.window.filled(), attempt: 0, ..s })
            &&& w.in_flight.len() <= w.windowsize
            &&& w.in_flight.len() < w.windowsize ==> w.sender.final_emitted || (!w.sender.eof
                && w.sender.pending.len() < w.sender.blksize)
            &&& match step.next {
                NextView::Read(n) => {
                    &&& n == s.window.sender.blksize
                    &&& step.outputs.len() == 0
                    &&& w.in_flight.len() < w.windowsize
                    &&& !w.sender.eof
                    &&& w.sender.pending.len() < w.sender.blksize
                },
                NextView::Wait(_) => {
                    &&& w.in_flight.len() > 0
                    &&& w.in_flight.len() == w.windowsize || w.sender.final_emitted
                },
                NextView::Done => {
                    &&& step.outputs.len() == 0
                    &&& w.in_flight.len() == 0
                    &&& w.sender.final_emitted
                },
                _ => false,
            }
        }),
{
    filling_keeps_what_is_outstanding(s.window, Seq::empty());
}

/// A timeout counts as one retry and changes nothing else; when all retries
/// are used up it ends the transfer with their number, and a server tells the
/// peer, with error code 0, that it timed out.
pub proof fn a_timeout_is_one_retry(s: OutgoingView)
    requires
        s.wf(),
        s.window.in_flight.len() > 0,
    ensures
        s.attempt < s.retries ==> s.on_timeout().0 == (OutgoingView {
            attempt: (s.attempt + 1) as u32,
            ..s
        }) && s.on_timeout().1.next == NextView::Wait(s.timeout),
        s.attempt == s.retries ==> s.on_timeout().0 == s && s.on_timeout().1.next
            == NextView::Fail(ErrorView::Timeout(s.retries)) && s.on_timeout().1.outputs == (
        if s.serving {
            seq![
                OutputView::Send {
                    to: s.peer,
                    datagram: packet_wire(
                        PacketView::Error { code: ErrorCode::NotDefined, msg: "timed out"@ },
                    ),
                },
            ]
        } else {
            Seq::empty()
        }),
{
}

/// What a datagram does to a sender that waits.  From anyone but the peer it
/// changes nothing and is answered with error code 5.  From the peer, an
/// error ends the transfer with just that error.  An acknowledgement of a
/// block in flight, which lies `ahead` places behind the oldest (counted
/// around the end of the numbers), takes that block and those before it out
/// of flight; at a client one of a block that the window would still have
/// room for takes out all; and the sender goes on.  Anything else changes
/// nothing, and the window is sent again.
pub proof fn datagrams_at_a_sender(s: OutgoingView, src: SocketAddr, bytes: Seq<u8>, ahead: int)
    requires
        s.wf(),
        s.window.in_flight.len() > 0,
        0 <= ahead < 65536,
    ensures
        ({
            let (next, step) = s.on_datagram(src, bytes);
            let in_flight = s.window.in_flight;
            let unknown = PacketView::Error {
                code: ErrorCode::UnknownTid,
                msg: "unknown transfer id"@,
            };
            &&& src != s.peer ==> next == s && step.next is KeepWaiting && step.outputs == seq![
                OutputView::Send { to: src, datagram: packet_wire(unknown) },
            ]
            &&& src == s.peer ==> match packet_of(bytes) {
                Ok(PacketView::Error { code, msg }) => {
                    &&& next == s
                    &&& step.outputs.len() == 0
                    &&& step.next == NextView::Fail(ErrorView::Peer { code, msg })
                },
                Ok(PacketView::Ack { block }) => {
                    let n = if ahead < in_flight.len() {
                        ahead + 1
                    } else if !s.serving && ahead < s.window.windowsize {
                        in_flight.len() as int
                    } else {
                        0
                    };
                    let left = WindowView { in_flight: in_flight.skip(n), ..s.window };
                    in_flight[0].0 + ahead == block || in_flight[0].0 + ahead == block + 65536 ==> {
                        &&& n > 0 ==> (next, step) == (OutgoingView { window: left, ..s }).proceed()
                        &&& n == 0 ==> next == s && step.next == NextView::Wait(s.timeout)
                    }
                },
                _ => next == s && step.next == NextView::Wait(s.timeout),
            }
        }),
{
    if let Ok(PacketView::Ack { block }) = packet_of(bytes) {
        let first = s.window.in_flight[0].0;
        if first + ahead == block || first + ahead == block + 65536 {
            acks_reach_this_far(s.window, block, s.serving, ahead);
        }
    }
}

/// What a read of the source gave goes to the sender of the window, and
/// nothing else changes before the sender goes on.
pub proof fn reads_go_to_the_window(s: OutgoingView, chunk: Seq<u8>)
    ensures
        ({
            let window = WindowView { sender: s.window.sender.fed(chunk), ..s.window };
            &&& s.fed(chunk) == (OutgoingView { window, ..s })
            &&& s.on_chunk(chunk) == (OutgoingView { window, ..s }).proceed()
        }),
{
}

} // verus!
