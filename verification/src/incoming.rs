//! The receiving side of a transfer, up to its last data block.
use std::time::Duration;
use vstd::prelude::*;

use crate::addr::SocketAddr;
use crate::error::{Error, ErrorView};
use crate::netascii::{
    from_wire, from_wire_len, from_wire_of_pieces, netascii_round_trips, pending_after, wire_tail,
    FromWire,
};
use crate::outgoing::{give_up, giving_up};
use crate::proto::packet::{packet_of, packet_wire, PacketView};
use crate::proto::{decode, ErrorCode, Mode, Packet};
use crate::sender::{blocks_of, encoded, number_after};
use crate::session::{
    answer_stranger, outputs_view, quiet, send_ack, send_view, single, stranger_step, written,
    written_of_groups, Negotiated, Next, NextView, Output, OutputView, Step, StepView,
};

verus! {

/// What the bytes `s` from the wire put on disk, where `held` says that a CR
/// before them is undecided.
pub open spec fn decoded(mode: Mode, held: bool, s: Seq<u8>) -> Seq<u8> {
    if mode == Mode::NetAscii {
        from_wire(held, s)
    } else {
        s
    }
}

/// Whether a CR is undecided behind the bytes `s`.
pub open spec fn held_after(mode: Mode, held: bool, s: Seq<u8>) -> bool {
    mode == Mode::NetAscii && pending_after(held, s)
}

/// What an [`Incoming`] stands for.
#[verifier::ext_equal]
pub struct IncomingView {
    /// Who sends.
    pub peer: SocketAddr,
    /// How often an acknowledgement is sent again for want of an answer.
    pub retries: u32,
    /// How long to wait for a block.
    pub timeout: Duration,
    /// Whether the receiver serves the peer.  If so, the peer is told when
    /// the transfer is given up, and the last block is acknowledged only when
    /// all has been written.
    pub serving: bool,
    /// How bytes are decoded.
    pub mode: Mode,
    /// Whether the bytes so far end with a CR that is undecided.
    pub held: bool,
    /// Length of a full block.
    pub blksize: nat,
    /// How many blocks one acknowledgement covers.
    pub windowsize: u16,
    /// The number of the block that must come next.
    pub next_block: u16,
    /// How many blocks came since the last acknowledgement.
    pub in_window: nat,
    /// The number of the last block that came; 0 at the start.
    pub last_acked: u16,
    /// How often an acknowledgement was sent again for want of an answer.
    pub attempt: u32,
    /// Whether the last block has come.
    pub finished: bool,
}

impl IncomingView {
    /// A transfer before its first block.
    pub open spec fn start(
        peer: SocketAddr,
        retries: u32,
        serving: bool,
        mode: Mode,
        neg: Negotiated,
    ) -> IncomingView {
        IncomingView {
            peer,
            retries,
            timeout: neg.timeout,
            serving,
            mode,
            held: false,
            blksize: neg.blksize as nat,
            windowsize: neg.windowsize,
            next_block: 1,
            in_window: 0,
            last_acked: 0,
            attempt: 0,
            finished: false,
        }
    }

    pub open spec fn wf(self) -> bool {
        &&& self.attempt <= self.retries
        &&& !self.finished ==> self.in_window < self.windowsize
        &&& self.mode == Mode::Octet ==> !self.held
    }

    /// The output that acknowledges a block.
    pub open spec fn ack(self, block: u16) -> OutputView {
        send_view(self.peer, PacketView::Ack { block })
    }

    /// Waits for the next block.
    pub open spec fn wait(self, outputs: Seq<OutputView>) -> StepView {
        StepView { outputs, next: NextView::Wait(self.timeout) }
    }

    /// What is left to write when the last block has been written.
    pub open spec fn closing(self) -> Seq<OutputView> {
        if self.held {
            seq![OutputView::Write(wire_tail(true)), OutputView::Flush]
        } else {
            seq![OutputView::Flush]
        }
    }

    /// The state after the block that had to come next.
    pub open spec fn with_block(self, data: Seq<u8>) -> IncomingView {
        IncomingView {
            held: held_after(self.mode, self.held, data),
            next_block: number_after(self.next_block, 1),
            in_window: self.in_window + 1,
            last_acked: self.next_block,
            ..self
        }
    }

    /// After a data block.  The one that had to come next is written; it is
    /// acknowledged if it is short, which makes it the last, or if it fills
    /// the window.  Any other block has the last acknowledgement sent again.
    pub open spec fn accept(self, block: u16, data: Seq<u8>) -> (IncomingView, StepView) {
        if block != self.next_block {
            (
                IncomingView { in_window: 0, ..self },
                self.wait(seq![self.ack(self.last_acked)]),
            )
        } else {
            let write = OutputView::Write(decoded(self.mode, self.held, data));
            let next = self.with_block(data);
            if data.len() < self.blksize {
                let outputs = if self.serving {
                    seq![write] + next.closing() + seq![self.ack(block)]
                } else {
                    seq![write, self.ack(block)] + next.closing()
                };
                (
                    IncomingView { held: false, finished: true, ..next },
                    StepView { outputs, next: NextView::Done },
                )
            } else if next.in_window >= self.windowsize {
                (
                    IncomingView { in_window: 0, ..next },
                    self.wait(seq![write, self.ack(block)]),
                )
            } else {
                (next, self.wait(seq![write]))
            }
        }
    }

    /// After a wait in which the peer sent nothing: the last acknowledgement
    /// is sent again, `retries` times in a row at most.
    pub open spec fn on_timeout(self) -> (IncomingView, StepView) {
        if self.attempt >= self.retries {
            let end = NextView::Fail(ErrorView::Timeout(self.attempt));
            (self, StepView { outputs: give_up(self.peer, self.serving), next: end })
        } else {
            let next = IncomingView { attempt: (self.attempt + 1) as u32, ..self };
            (next, self.wait(seq![self.ack(self.last_acked)]))
        }
    }

    /// After a datagram: a data block is taken, an error ends the transfer,
    /// and anything else from the peer is passed over.
    pub open spec fn on_datagram(self, src: SocketAddr, bytes: Seq<u8>) -> (
        IncomingView,
        StepView,
    ) {
        if src != self.peer {
            (self, stranger_step(src))
        } else {
            match packet_of(bytes) {
                Ok(PacketView::Data { block, data }) => {
                    IncomingView { attempt: 0, ..self }.accept(block, data)
                },
                Ok(PacketView::Error { code, msg }) => {
                    let end = NextView::Fail(ErrorView::Peer { code, msg });
                    (self, StepView { outputs: Seq::empty(), next: end })
                },
                _ => (self, self.wait(Seq::empty())),
            }
        }
    }
}

/// The receiving side of a transfer.  Its owner exchanges the datagrams and
/// writes what came.
#[derive(Debug)]
pub struct Incoming {
    peer: SocketAddr,
    retries: u32,
    timeout: Duration,
    serving: bool,
    decoder: Option<FromWire>,
    blksize: u16,
    windowsize: u16,
    next_block: u16,
    in_window: u16,
    last_acked: u16,
    attempt: u32,
    finished: bool,
}

impl View for Incoming {
    type V = IncomingView;

    closed spec fn view(&self) -> IncomingView {
        IncomingView {
            peer: self.peer,
            retries: self.retries,
            timeout: self.timeout,
            serving: self.serving,
            mode: if self.decoder is Some {
                Mode::NetAscii
            } else {
                Mode::Octet
            },
            held: match self.decoder {
                Some(decoder) => decoder@,
                None => false,
            },
            blksize: self.blksize as nat,
            windowsize: self.windowsize,
            next_block: self.next_block,
            in_window: self.in_window as nat,
            last_acked: self.last_acked,
            attempt: self.attempt,
            finished: self.finished,
        }
    }
}

impl Incoming {
    /// A transfer before its first block.
    pub fn new(peer: SocketAddr, retries: u32, serving: bool, mode: Mode, neg: Negotiated) -> (inc:
        Incoming)
        requires
            neg.windowsize > 0,
        ensures
            inc@ == IncomingView::start(peer, retries, serving, mode, neg),
            inc@.wf(),
    {
        let decoder: Option<FromWire> = match mode {
            Mode::NetAscii => Some(FromWire::new()),
            Mode::Octet => None,
        };
        Incoming {
            peer,
            retries,
            timeout: neg.timeout,
            serving,
            decoder,
            blksize: neg.blksize,
            windowsize: neg.windowsize,
            next_block: 1,
            in_window: 0,
            last_acked: 0,
            attempt: 0,
            finished: false,
        }
    }

    /// Whether the last block has come.
    pub fn finished(&self) -> (finished: bool)
        ensures
            finished == self@.finished,
    {
        self.finished
    }

    /// Decodes the bytes of a block.
    fn decode_block(&mut self, data: &[u8]) -> (out: Vec<u8>)
        ensures
            out@ == decoded(old(self)@.mode, old(self)@.held, data@),
            final(self)@ == (IncomingView {
                held: held_after(old(self)@.mode, old(self)@.held, data@),
                ..old(self)@
            }),
    {
        let mut out: Vec<u8> = Vec::new();
        match &mut self.decoder {
            Some(decoder) => {
                decoder.translate(data, &mut out);
                assert(out@ =~= from_wire(old(self)@.held, data@));
            },
            None => {
                out.extend_from_slice(data);
                assert(out@ =~= data@);
            },
        }
        out
    }

    /// Ends the decoding: writes what is held back, and flushes.
    fn close(&mut self, outputs: &mut Vec<Output>)
        ensures
            outputs_view(final(outputs)@) == outputs_view(old(outputs)@) + old(self)@.closing(),
            final(self)@ == (IncomingView { held: false, ..old(self)@ }),
    {
        let mut tail: Vec<u8> = Vec::new();
        match &mut self.decoder {
            Some(decoder) => {
                decoder.finish(&mut tail);
                assert(tail@ =~= wire_tail(old(self)@.held));
            },
            None => {},
        }
        if tail.len() > 0 {
            outputs.push(Output::Write(tail));
        }
        outputs.push(Output::Flush);
        assert(outputs_view(outputs@) =~= outputs_view(old(outputs)@) + old(self)@.closing());
    }

    /// After a data block.
    pub fn accept(&mut self, block: u16, data: &[u8]) -> (step: Step)
        requires
            old(self)@.wf(),
            !old(self)@.finished,
        ensures
            final(self)@ == old(self)@.accept(block, data@).0,
            step@ == old(self)@.accept(block, data@).1,
            final(self)@.wf(),
    {
        let ghost start = self@;
        if block != self.next_block {
            self.in_window = 0;
            return single(send_ack(self.peer, self.last_acked), Next::Wait(self.timeout));
        }
        let written: Vec<u8> = self.decode_block(data);
        let mut outputs: Vec<Output> = Vec::new();
        outputs.push(Output::Write(written));
        self.last_acked = block;
        self.next_block = self.next_block.wrapping_add(1);
        self.in_window = self.in_window + 1;
        assert(self@ =~= start.with_block(data@));
        let ghost write = OutputView::Write(decoded(start.mode, start.held, data@));
        assert(outputs_view(outputs@) =~= seq![write]);
        if data.len() < self.blksize as usize {
            if self.serving {
                self.close(&mut outputs);
                let ghost made = outputs@;
                outputs.push(send_ack(self.peer, block));
                assert(outputs_view(outputs@) =~= outputs_view(made) + seq![start.ack(block)]);
            } else {
                outputs.push(send_ack(self.peer, block));
                assert(outputs_view(outputs@) =~= seq![write, start.ack(block)]);
                self.close(&mut outputs);
            }
            self.finished = true;
            return Step { outputs, next: Next::Done };
        }
        if self.in_window >= self.windowsize {
            outputs.push(send_ack(self.peer, block));
            assert(outputs_view(outputs@) =~= seq![write, start.ack(block)]);
            self.in_window = 0;
        }
        Step { outputs, next: Next::Wait(self.timeout) }
    }

    /// After a wait in which the peer sent nothing.
    pub fn on_timeout(&mut self) -> (step: Step)
        requires
            old(self)@.wf(),
            !old(self)@.finished,
        ensures
            final(self)@ == old(self)@.on_timeout().0,
            step@ == old(self)@.on_timeout().1,
            final(self)@.wf(),
    {
        if self.attempt >= self.retries {
            Step {
                outputs: giving_up(self.peer, self.serving),
                next: Next::Fail(Error::Timeout(self.attempt)),
            }
        } else {
            self.attempt = self.attempt + 1;
            single(send_ack(self.peer, self.last_acked), Next::Wait(self.timeout))
        }
    }

    /// After a datagram.
    pub fn on_datagram(&mut self, src: SocketAddr, bytes: &[u8]) -> (step: Step)
        requires
            old(self)@.wf(),
            !old(self)@.finished,
        ensures
            final(self)@ == old(self)@.on_datagram(src, bytes@).0,
            step@ == old(self)@.on_datagram(src, bytes@).1,
            final(self)@.wf(),
    {
        if src != self.peer {
            return answer_stranger(src);
        }
        match decode(bytes) {
            Ok(Packet::Data { block, data }) => {
                self.attempt = 0;
                self.accept(block, data)
            },
            Ok(Packet::Error { code, msg }) => quiet(Next::Fail(Error::Peer { code, msg })),
            _ => quiet(Next::Wait(self.timeout)),
        }
    }
}

/// A data block that does not have the expected number writes nothing and
/// changes nothing but the count towards the next acknowledgement; the last
/// acknowledgement is sent again.
pub proof fn unexpected_blocks_write_nothing(s: IncomingView, block: u16, data: Seq<u8>)
    requires
        block != s.next_block,
    ensures
        written(s.accept(block, data).1.outputs) == Seq::<u8>::empty(),
        s.accept(block, data).1.outputs == seq![s.ack(s.last_acked)],
        s.accept(block, data).0 == (IncomingView { in_window: 0, ..s }),
{
    reveal_with_fuel(written, 2);
    assert(seq![s.ack(s.last_acked)].drop_last() =~= Seq::<OutputView>::empty());
    assert(written(s.accept(block, data).1.outputs) =~= Seq::<u8>::empty());
}

/// What one step writes for the block that had to come next.
pub(crate) proof fn expected_block_is_written(s: IncomingView, data: Seq<u8>)
    ensures
        written(s.accept(s.next_block, data).1.outputs) == decoded(s.mode, s.held, data) + (
        if data.len() < s.blksize {
            wire_tail(held_after(s.mode, s.held, data))
        } else {
            Seq::empty()
        }),
{
    let next = s.with_block(data);
    let write = OutputView::Write(decoded(s.mode, s.held, data));
    let ack = s.ack(s.next_block);
    reveal_with_fuel(written, 3);
    assert(seq![write].drop_last() =~= Seq::<OutputView>::empty());
    assert(seq![ack].drop_last() =~= Seq::<OutputView>::empty());
    assert(seq![write, ack].drop_last() =~= seq![write]);
    assert(seq![OutputView::Flush].drop_last() =~= Seq::<OutputView>::empty());
    let tail = OutputView::Write(wire_tail(true));
    assert(seq![tail, OutputView::Flush].drop_last() =~= seq![tail]);
    assert(seq![tail].drop_last() =~= Seq::<OutputView>::empty());
    assert(written(next.closing()) =~= wire_tail(next.held));
    assert(written(seq![write]) =~= decoded(s.mode, s.held, data));
    assert(written(seq![write, ack]) =~= decoded(s.mode, s.held, data));
    assert(written(seq![ack]) =~= Seq::<u8>::empty());
    written_of_groups(seq![write], next.closing());
    written_of_groups(seq![write] + next.closing(), seq![ack]);
    written_of_groups(seq![write, ack], next.closing());
    assert(written(s.accept(s.next_block, data).1.outputs) =~= decoded(s.mode, s.held, data) + (
    if data.len() < s.blksize {
        wire_tail(next.held)
    } else {
        Seq::empty()
    }));
}

/// Taking a block writes at most the bytes of the block and a CR that was
/// held back before it.
pub proof fn accepting_writes_no_more_than_came(s: IncomingView, block: u16, data: Seq<u8>)
    ensures
        written(s.accept(block, data).1.outputs).len() <= data.len() + 1,
{
    if block == s.next_block {
        expected_block_is_written(s, data);
        from_wire_len(s.held, data);
    } else {
        unexpected_blocks_write_nothing(s, block, data);
    }
}

/// No step writes more bytes than its datagram has.
pub proof fn datagrams_bound_what_is_written(s: IncomingView, src: SocketAddr, bytes: Seq<u8>)
    ensures
        written(s.on_datagram(src, bytes).1.outputs).len() <= bytes.len(),
{
    reveal_with_fuel(written, 2);
    let reply = stranger_step(src).outputs;
    assert(reply.drop_last() =~= Seq::<OutputView>::empty());
    if src == s.peer {
        if let Ok(PacketView::Data { block, data }) = packet_of(bytes) {
            accepting_writes_no_more_than_came(IncomingView { attempt: 0, ..s }, block, data);
        }
    }
}

/// An acknowledgement writes nothing.
pub proof fn acks_write_nothing(inc: IncomingView, block: u16)
    ensures
        written(seq![inc.ack(block)]) == Seq::<u8>::empty(),
{
    reveal_with_fuel(written, 2);
    assert(seq![inc.ack(block)].drop_last() =~= Seq::<OutputView>::empty());
    assert(written(seq![inc.ack(block)]) =~= Seq::<u8>::empty());
}

/// A timeout writes nothing.
pub proof fn timeouts_write_nothing(s: IncomingView)
    ensures
        written(s.on_timeout().1.outputs) == Seq::<u8>::empty(),
{
    reveal_with_fuel(written, 2);
    let outputs = s.on_timeout().1.outputs;
    if outputs.len() > 0 {
        assert(outputs.drop_last() =~= Seq::<OutputView>::empty());
    }
    assert(written(outputs) =~= Seq::<u8>::empty());
}

/// The state after the blocks `blocks` came in order, and what was written
/// on the way.  Nothing is taken once the transfer has finished.
pub open spec fn delivered(s: IncomingView, blocks: Seq<Seq<u8>>) -> (IncomingView, Seq<u8>)
    decreases blocks.len(),
{
    if blocks.len() == 0 || s.finished {
        (s, Seq::empty())
    } else {
        let (next, step) = s.accept(s.next_block, blocks[0]);
        let (end, more) = delivered(next, blocks.drop_first());
        (end, written(step.outputs) + more)
    }
}

/// All that a stream of bytes from the wire puts on disk.
pub open spec fn content(mode: Mode, held: bool, stream: Seq<u8>) -> Seq<u8> {
    decoded(mode, held, stream) + wire_tail(held_after(mode, held, stream))
}

/// A stream that makes one short block.
proof fn short_stream_is_delivered(s: IncomingView, stream: Seq<u8>)
    requires
        !s.finished,
        stream.len() < s.blksize,
    ensures
        delivered(s, seq![stream]).0.finished,
        delivered(s, seq![stream]).1 == content(s.mode, s.held, stream),
{
    let blocks = seq![stream];
    expected_block_is_written(s, stream);
    let (next, step) = s.accept(s.next_block, stream);
    assert(blocks.drop_first() =~= Seq::<Seq<u8>>::empty());
    assert(delivered(next, blocks.drop_first()) == (next, Seq::<u8>::empty()));
    assert(written(step.outputs) + Seq::<u8>::empty() =~= content(s.mode, s.held, stream));
}

/// What a full block does, with any blocks behind it.
proof fn full_block_is_delivered(s: IncomingView, head: Seq<u8>, behind: Seq<Seq<u8>>)
    requires
        s.wf(),
        !s.finished,
        head.len() == s.blksize,
    ensures
        ({
            let next = s.accept(s.next_block, head).0;
            let all = seq![head] + behind;
            &&& next.wf()
            &&& !next.finished
            &&& next.mode == s.mode
            &&& next.blksize == s.blksize
            &&& next.held == held_after(s.mode, s.held, head)
            &&& delivered(s, all).0 == delivered(next, behind).0
            &&& delivered(s, all).1 == decoded(s.mode, s.held, head) + delivered(next, behind).1
        }),
{
    let all = seq![head] + behind;
    expected_block_is_written(s, head);
    assert(all.drop_first() =~= behind);
    assert(all[0] == head);
    let first = decoded(s.mode, s.held, head);
    assert(first + Seq::<u8>::empty() =~= first);
}

/// The content of two pieces, one behind the other.
pub(crate) proof fn content_of_pieces(mode: Mode, held: bool, a: Seq<u8>, b: Seq<u8>)
    requires
        mode == Mode::Octet ==> !held,
    ensures
        content(mode, held, a + b) == decoded(mode, held, a) + content(
            mode,
            held_after(mode, held, a),
            b,
        ),
{
    from_wire_of_pieces(held, a, b);
    assert(content(mode, held, a + b) =~= decoded(mode, held, a) + content(
        mode,
        held_after(mode, held, a),
        b,
    ));
}

/// The blocks of a stream, taken in order, write its content and finish the
/// transfer; without the last of them it has not finished.
pub proof fn blocks_deliver_their_stream(s: IncomingView, stream: Seq<u8>)
    requires
        s.wf(),
        !s.finished,
        s.blksize > 0,
    ensures
        delivered(s, blocks_of(stream, s.blksize)).0.finished,
        delivered(s, blocks_of(stream, s.blksize)).1 == content(s.mode, s.held, stream),
        !delivered(s, blocks_of(stream, s.blksize).drop_last()).0.finished,
    decreases stream.len(),
{
    let blocks = blocks_of(stream, s.blksize);
    if stream.len() < s.blksize {
        short_stream_is_delivered(s, stream);
        assert(blocks.drop_last() =~= Seq::<Seq<u8>>::empty());
    } else {
        let head = stream.take(s.blksize as int);
        let rest = stream.skip(s.blksize as int);
        let behind = blocks_of(rest, s.blksize);
        let next = s.accept(s.next_block, head).0;
        assert(head + rest =~= stream);
        full_block_is_delivered(s, head, behind);
        full_block_is_delivered(s, head, behind.drop_last());
        blocks_deliver_their_stream(next, rest);
        content_of_pieces(s.mode, s.held, head, rest);
        assert(blocks.drop_last() =~= seq![head] + behind.drop_last());
    }
}

/// A file that is encoded, cut into blocks and taken in order by a receiver
/// that decodes with the same mode and block size arrives whole.
pub proof fn files_arrive_whole(s: IncomingView, file: Seq<u8>)
    requires
        s.wf(),
        !s.finished,
        !s.held,
        s.blksize > 0,
    ensures
        delivered(s, blocks_of(encoded(s.mode, file), s.blksize)).0.finished,
        delivered(s, blocks_of(encoded(s.mode, file), s.blksize)).1 == file,
{
    blocks_deliver_their_stream(s, encoded(s.mode, file));
    netascii_round_trips(file);
    assert(content(s.mode, false, encoded(s.mode, file)) =~= file);
}

/// The state after `n` timeouts in a row.
pub open spec fn after_timeouts(s: IncomingView, n: nat) -> IncomingView
    decreases n,
{
    if n == 0 {
        s
    } else {
        after_timeouts(s, (n - 1) as nat).on_timeout().0
    }
}

/// Timeouts in a row have the same acknowledgement sent again as long as the
/// retries last, and then end the transfer with the number of retries.
pub proof fn retries_are_bounded(s: IncomingView, n: nat)
    requires
        s.wf(),
    ensures
        s.attempt + n < s.retries ==> after_timeouts(s, n).on_timeout().1 == s.wait(
            seq![s.ack(s.last_acked)],
        ),
        s.attempt + n >= s.retries ==> after_timeouts(s, n).on_timeout().1 == (StepView {
            outputs: give_up(s.peer, s.serving),
            next: NextView::Fail(ErrorView::Timeout(s.retries)),
        }),
        after_timeouts(s, n) == (IncomingView {
            attempt: (if s.attempt + n < s.retries {
                s.attempt + n
            } else {
                s.retries as int
            }) as u32,
            ..s
        }),
    decreases n,
{
    if n > 0 {
        retries_are_bounded(s, (n - 1) as nat);
    }
}

/// In octet mode bytes go to disk as they came, with no CR ever undecided; in
/// netascii mode they are decoded.
pub proof fn only_netascii_is_decoded(held: bool, s: Seq<u8>)
    ensures
        decoded(Mode::Octet, held, s) == s,
        !held_after(Mode::Octet, held, s),
        decoded(Mode::NetAscii, held, s) == from_wire(held, s),
        held_after(Mode::NetAscii, held, s) == pending_after(held, s),
{
}

/// A transfer starts with the terms that were agreed on, waiting for block 1,
/// with nothing taken, nothing held back and no retry made.
pub proof fn a_transfer_starts_with_what_was_agreed(
    peer: SocketAddr,
    retries: u32,
    serving: bool,
    mode: Mode,
    neg: Negotiated,
)
    ensures
        ({
            let s = IncomingView::start(peer, retries, serving, mode, neg);
            &&& s.peer == peer
            &&& s.retries == retries
            &&& s.timeout == neg.timeout
            &&& s.serving == serving
            &&& s.mode == mode
            &&& s.blksize == neg.blksize
            &&& s.windowsize == neg.windowsize
            &&& s.next_block == 1
            &&& s.last_acked == 0
            &&& s.in_window == 0
            &&& s.attempt == 0
            &&& !s.held
            &&& !s.finished
        }),
{
}

/// No event changes who the peer is, how bytes are decoded, or how long and
/// how often the receiver waits, and whenever it waits anew it waits for just
/// that long.
pub proof fn a_transfer_keeps_its_terms(
    s: IncomingView,
    block: u16,
    data: Seq<u8>,
    src: SocketAddr,
    bytes: Seq<u8>,
    next: IncomingView,
    step: StepView,
)
    requires
        (next, step) == s.accept(block, data) || (next, step) == s.on_timeout() || (next, step)
            == s.on_datagram(src, bytes),
    ensures
        step.next is Wait ==> step.next == NextView::Wait(s.timeout),
        next.peer == s.peer,
        next.retries == s.retries,
        next.timeout == s.timeout,
        next.serving == s.serving,
        next.mode == s.mode,
        next.blksize == s.blksize,
        next.windowsize == s.windowsize,
{
}

/// Something that can happen to a receiver.
pub enum Arrival {
    /// A datagram came.
    Datagram { src: SocketAddr, bytes: Seq<u8> },
    /// Nothing came in time.
    Silence,
}

/// The state after one arrival, and the step that it gives.
pub open spec fn on_arrival(s: IncomingView, arrival: Arrival) -> (IncomingView, StepView) {
    match arrival {
        Arrival::Datagram { src, bytes } => s.on_datagram(src, bytes),
        Arrival::Silence => s.on_timeout(),
    }
}

/// The state after arrivals, one behind the other.
pub open spec fn after_arrivals(s: IncomingView, arrivals: Seq<Arrival>) -> IncomingView
    decreases arrivals.len(),
{
    if arrivals.len() == 0 {
        s
    } else {
        on_arrival(after_arrivals(s, arrivals.drop_last()), arrivals.last()).0
    }
}

/// From the start of a transfer on, whatever arrives and however often, a
/// receiver that waits anew waits for the timeout that was agreed on.
pub proof fn every_wait_is_the_agreed_timeout(
    peer: SocketAddr,
    retries: u32,
    serving: bool,
    mode: Mode,
    neg: Negotiated,
    arrivals: Seq<Arrival>,
    arrival: Arrival,
)
    ensures
        ({
            let start = IncomingView::start(peer, retries, serving, mode, neg);
            let step = on_arrival(after_arrivals(start, arrivals), arrival).1;
            &&& after_arrivals(start, arrivals).timeout == neg.timeout
            &&& after_arrivals(start, arrivals).peer == peer
            &&& step.next is Wait ==> step.next == NextView::Wait(neg.timeout)
        }),
    decreases arrivals.len(),
{
    if arrivals.len() > 0 {
        every_wait_is_the_agreed_timeout(
            peer,
            retries,
            serving,
            mode,
            neg,
            arrivals.drop_last(),
            arrivals.last(),
        );
    }
}

/// The block that had to come next is written, decoded, and the one behind it
/// is awaited (0 behind 65535).  If it is shorter than a full block it is the
/// last: a CR that is still held back is written too, all is flushed, and the
/// transfer is done; a server acknowledges it at the very end, a client right
/// behind the block.  Any other block is acknowledged just when it fills the
/// window.
pub proof fn the_next_block_is_taken(s: IncomingView, data: Seq<u8>)
    ensures
        ({
            let block = s.next_block;
            let (next, step) = s.accept(block, data);
            let ack = OutputView::Send {
                to: s.peer,
                datagram: packet_wire(PacketView::Ack { block }),
            };
            let text = if s.mode == Mode::NetAscii {
                from_wire(s.held, data)
            } else {
                data
            };
            let held = s.mode == Mode::NetAscii && pending_after(s.held, data);
            let tail = if held {
                seq![OutputView::Write(seq![13u8]), OutputView::Flush]
            } else {
                seq![OutputView::Flush]
            };
            &&& next.last_acked == block
            &&& next.next_block == (if block == 65535 {
                0
            } else {
                block + 1
            })
            &&& next.attempt == s.attempt
            &&& data.len() < s.blksize ==> {
                &&& step.next is Done
                &&& next.finished
                &&& !next.held
                &&& s.serving ==> step.outputs == seq![OutputView::Write(text)] + tail + seq![ack]
                &&& !s.serving ==> step.outputs == seq![OutputView::Write(text), ack] + tail
            }
            &&& data.len() >= s.blksize ==> {
                &&& step.next == NextView::Wait(s.timeout)
                &&& next.finished == s.finished
                &&& next.held == held
                &&& s.in_window + 1 >= s.windowsize ==> {
                    &&& next.in_window == 0
                    &&& step.outputs == seq![OutputView::Write(text), ack]
                }
                &&& s.in_window + 1 < s.windowsize ==> {
                    &&& next.in_window == s.in_window + 1
                    &&& step.outputs == seq![OutputView::Write(text)]
                }
            }
        }),
{
    assert(wire_tail(true) =~= seq![13u8]);
}

/// Any other block is dropped: nothing is written, the acknowledgement of the
/// last block that was taken (0 before the first) is sent again, and the
/// count towards the next acknowledgement starts over.
pub proof fn other_blocks_are_dropped(s: IncomingView, block: u16, data: Seq<u8>)
    requires
        block != s.next_block,
    ensures
        s.accept(block, data).0 == (IncomingView { in_window: 0, ..s }),
        s.accept(block, data).1.next == NextView::Wait(s.timeout),
        s.accept(block, data).1.outputs == seq![
            OutputView::Send {
                to: s.peer,
                datagram: packet_wire(PacketView::Ack { block: s.last_acked }),
            },
        ],
{
}

/// A timeout has the last acknowledgement sent again and counts as one retry;
/// when all retries are used up it ends the transfer with their number, and a
/// server tells the peer, with error code 0, that it timed out.
pub proof fn a_timeout_is_one_retry(s: IncomingView)
    requires
        s.wf(),
    ensures
        s.attempt < s.retries ==> {
            &&& s.on_timeout().0 == (IncomingView { attempt: (s.attempt + 1) as u32, ..s })
            &&& s.on_timeout().1.next == NextView::Wait(s.timeout)
            &&& s.on_timeout().1.outputs == seq![
                OutputView::Send {
                    to: s.peer,
                    datagram: packet_wire(PacketView::Ack { block: s.last_acked }),
                },
            ]
        },
        s.attempt == s.retries ==> {
            &&& s.on_timeout().0 == s
            &&& s.on_timeout().1.next == NextView::Fail(ErrorView::Timeout(s.retries))
            &&& s.on_timeout().1.outputs == (if s.serving {
                seq![
                    OutputView::Send {
                        to: s.peer,
                        datagram: packet_wire(
                            PacketView::Error { code: ErrorCode::NotDefined, msg: "timed out"@ },
                        ),
                    },
                ]
            } else {
                Seq::empty()
            })
        },
{
}

/// What a datagram does to a receiver.  From anyone but the peer it changes
/// nothing and is answered with error code 5.  From the peer, a data block is
/// taken or dropped by its number, and the retries start over; an error ends
/// the transfer with just that error; anything else is passed over.
pub proof fn datagrams_at_a_receiver(s: IncomingView, src: SocketAddr, bytes: Seq<u8>)
    ensures
        ({
            let (next, step) = s.on_datagram(src, bytes);
            let unknown = PacketView::Error {
                code: ErrorCode::UnknownTid,
                msg: "unknown transfer id"@,
            };
            &&& src != s.peer ==> next == s && step.next is KeepWaiting && step.outputs == seq![
                OutputView::Send { to: src, datagram: packet_wire(unknown) },
            ]
            &&& src == s.peer ==> match packet_of(bytes) {
                Ok(PacketView::Data { block, data }) => {
                    (next, step) == (IncomingView { attempt: 0, ..s }).accept(block, data)
                },
                Ok(PacketView::Error { code, msg }) => {
                    &&& next == s
                    &&& step.outputs.len() == 0
                    &&& step.next == NextView::Fail(ErrorView::Peer { code, msg })
                },
                _ => next == s && step.outputs.len() == 0 && step.next == NextView::Wait(s.timeout),
            }
        }),
{
}

} // verus!
