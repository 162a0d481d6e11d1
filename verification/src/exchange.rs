//! What both ends of a transfer achieve together.
use std::time::Duration;
use vstd::prelude::*;

use crate::addr::SocketAddr;
use crate::client::{asked_for, merged, GetView, Options, PutView};
use crate::error::ErrorView;
use crate::incoming::{
    acks_write_nothing, content, content_of_pieces, decoded, expected_block_is_written,
    held_after, unexpected_blocks_write_nothing, IncomingView,
};
use crate::netascii::{from_wire_of_pieces, netascii_round_trips, wire_tail};
use crate::outgoing::{going_on_fills_the_window, the_whole_window_is_sent, OutgoingView};
use crate::proto::options::{
    all_valid, block_size_in, distinct_kinds, lookup, position_of_is_first, timeout_in,
    transfer_size_in, valid_part, valid_part_is_valid, window_size_in,
};
use crate::proto::packet::{
    no_nul, packet_of, packet_wire, packets_lose_only_invalid_options, packets_round_trip,
    PacketView,
};
use crate::proto::{Mode, OptionKind, OptionValue, MIN_BLOCK_SIZE};
use crate::sender::{
    acks_are_cumulative, acks_take_from_what_is_outstanding, blocks_carry_the_stream, blocks_of,
    distance, encoded, filling_keeps_what_is_outstanding, joined, number_after,
    reading_keeps_what_is_outstanding, start_has_all_to_come, Numbered, WindowView,
};
use crate::server::{
    agreed, agreed_block_size, agreed_timeout, agreed_transfer_size, agreed_window_size, in_force,
    taking, Config, RrqSenderView,
};
use crate::session::{
    send_view, stranger_step, written, written_of_groups, Negotiated, NextView, OutputView,
    StepView,
};

verus! {

/// A transfer in which blocks may be lost, repeated and put out of order on
/// the way: the receiver, how many blocks it has taken, and what it has
/// written.
#[verifier::ext_equal]
pub struct Reception {
    pub inc: IncomingView,
    pub taken: nat,
    pub written: Seq<u8>,
}

impl Reception {
    /// Before the first block.
    pub open spec fn start(inc: IncomingView) -> Reception {
        Reception { inc, taken: 0, written: Seq::empty() }
    }

    /// After the block at index `i` of `blocks` came in.
    pub open spec fn after(self, blocks: Seq<Seq<u8>>, i: int) -> Reception {
        if self.inc.finished {
            self
        } else {
            let (inc, step) = self.inc.accept(number_after(1, i), blocks[i]);
            Reception {
                inc,
                taken: if i == self.taken {
                    self.taken + 1
                } else {
                    self.taken
                },
                written: self.written + written(step.outputs),
            }
        }
    }

    /// After the blocks at these indices came in, one after the other.
    pub open spec fn after_all(self, blocks: Seq<Seq<u8>>, arrivals: Seq<int>) -> Reception
        decreases arrivals.len(),
    {
        if arrivals.len() == 0 {
            self
        } else {
            self.after(blocks, arrivals[0]).after_all(blocks, arrivals.drop_first())
        }
    }

    /// Whether no block comes so late, or so early, that its number could be
    /// mistaken for that of another block.
    pub open spec fn timely(self, blocks: Seq<Seq<u8>>, arrivals: Seq<int>) -> bool
        decreases arrivals.len(),
    {
        arrivals.len() > 0 ==> {
            &&& 0 <= arrivals[0] < blocks.len()
            &&& self.taken - 0x10000 < arrivals[0] < self.taken + 0x10000
            &&& self.after(blocks, arrivals[0]).timely(blocks, arrivals.drop_first())
        }
    }

    /// Whether what was written is what the blocks taken so far carry, the last
    /// of them is what an acknowledgement names, and the transfer has finished
    /// just if these are all blocks of `stream`.
    pub open spec fn faithful(self, stream: Seq<u8>) -> bool {
        let blocks = blocks_of(stream, self.inc.blksize);
        let so_far = joined(blocks.take(self.taken as int));
        &&& self.inc.wf()
        &&& self.inc.blksize > 0
        &&& self.taken <= blocks.len()
        &&& self.inc.finished <==> self.taken == blocks.len()
        &&& self.inc.next_block == number_after(1, self.taken as int)
        &&& self.inc.last_acked == number_after(0, self.taken as int)
        &&& self.written == if self.inc.finished {
            content(self.inc.mode, false, stream)
        } else {
            decoded(self.inc.mode, false, so_far)
        }
        &&& !self.inc.finished ==> self.inc.held == held_after(self.inc.mode, false, so_far)
    }
}

/// Joining one more block appends it.
proof fn joined_push(blocks: Seq<Seq<u8>>, block: Seq<u8>)
    ensures
        joined(blocks.push(block)) == joined(blocks) + block,
    decreases blocks.len(),
{
    let more = blocks.push(block);
    if blocks.len() == 0 {
        reveal_with_fuel(joined, 2);
        assert(more.drop_first() =~= Seq::<Seq<u8>>::empty());
        assert(joined(more) =~= joined(blocks) + block);
    } else {
        assert(more.drop_first() =~= blocks.drop_first().push(block));
        joined_push(blocks.drop_first(), block);
        assert(joined(more) =~= joined(blocks) + block);
    }
}

/// Joining two groups of blocks puts one behind the other.
proof fn joined_of_groups(a: Seq<Seq<u8>>, b: Seq<Seq<u8>>)
    ensures
        joined(a + b) == joined(a) + joined(b),
    decreases a.len(),
{
    if a.len() == 0 {
        assert(a + b =~= b);
        assert(joined(a) + joined(b) =~= joined(b));
    } else {
        assert((a + b).drop_first() =~= a.drop_first() + b);
        joined_of_groups(a.drop_first(), b);
        assert(joined(a + b) =~= joined(a) + joined(b));
    }
}

/// Decoding two pieces, one behind the other.
proof fn decoded_of_pieces(mode: Mode, held: bool, a: Seq<u8>, b: Seq<u8>)
    requires
        mode == Mode::Octet ==> !held,
    ensures
        decoded(mode, held, a + b) == decoded(mode, held, a) + decoded(
            mode,
            held_after(mode, held, a),
            b,
        ),
        held_after(mode, held, a + b) == held_after(mode, held_after(mode, held, a), b),
{
    from_wire_of_pieces(held, a, b);
}

pub(crate) proof fn near_numbers_differ(i: int, k: int)
    requires
        k - 0x10000 < i < k + 0x10000,
    ensures
        number_after(1, i) == number_after(1, k) <==> i == k,
{
}

pub(crate) proof fn number_of_next(k: int)
    ensures
        number_after(number_after(1, k), 1) == number_after(1, k + 1),
        number_after(1, k) == number_after(0, k + 1),
{
}

/// One arrival keeps a reception faithful.
pub proof fn one_arrival_keeps_faithful(r: Reception, stream: Seq<u8>, i: int)
    requires
        r.faithful(stream),
        0 <= i < blocks_of(stream, r.inc.blksize).len(),
        r.taken - 0x10000 < i < r.taken + 0x10000,
    ensures
        r.after(blocks_of(stream, r.inc.blksize), i).faithful(stream),
        r.after(blocks_of(stream, r.inc.blksize), i).inc.blksize == r.inc.blksize,
        r.after(blocks_of(stream, r.inc.blksize), i).inc.mode == r.inc.mode,
{
    let blocks = blocks_of(stream, r.inc.blksize);
    let k = r.taken as int;
    let next = r.after(blocks, i);
    near_numbers_differ(i, k);
    if !r.inc.finished {
        if i == k {
            let so_far = joined(blocks.take(k));
            expected_block_is_written(r.inc, blocks[k]);
            blocks_carry_the_stream(stream, r.inc.blksize);
            number_of_next(k);
            assert(blocks.take(k + 1) =~= blocks.take(k).push(blocks[k]));
            joined_push(blocks.take(k), blocks[k]);
            decoded_of_pieces(r.inc.mode, false, so_far, blocks[k]);
            if k + 1 == blocks.len() {
                vstd::arithmetic::div_mod::lemma_mod_bound(
                    stream.len() as int,
                    r.inc.blksize as int,
                );
                assert(blocks.take(k + 1) =~= blocks);
                assert(next.written =~= content(r.inc.mode, false, stream));
            } else {
                assert(blocks[k].len() == r.inc.blksize);
                assert(next.written =~= decoded(r.inc.mode, false, so_far + blocks[k]));
            }
        } else {
            unexpected_blocks_write_nothing(r.inc, number_after(1, i), blocks[i]);
            assert(next.written =~= r.written);
        }
    }
}

/// However the blocks of a stream are lost, repeated or put out of order on
/// their way, what has been written is at any time the content of the blocks
/// taken so far, which are the first ones of the stream; once the transfer
/// has finished, it is the content of the whole stream.
pub proof fn reception_is_faithful(r: Reception, stream: Seq<u8>, arrivals: Seq<int>)
    requires
        r.faithful(stream),
        r.timely(blocks_of(stream, r.inc.blksize), arrivals),
    ensures
        r.after_all(blocks_of(stream, r.inc.blksize), arrivals).faithful(stream),
    decreases arrivals.len(),
{
    if arrivals.len() > 0 {
        let blocks = blocks_of(stream, r.inc.blksize);
        one_arrival_keeps_faithful(r, stream, arrivals[0]);
        reception_is_faithful(r.after(blocks, arrivals[0]), stream, arrivals.drop_first());
    }
}

/// A receiver before its first block is faithful to any stream.
pub proof fn reception_starts_faithful(
    peer: SocketAddr,
    retries: u32,
    serving: bool,
    mode: Mode,
    neg: Negotiated,
    stream: Seq<u8>,
)
    requires
        neg.blksize > 0,
        neg.windowsize > 0,
    ensures
        Reception::start(IncomingView::start(peer, retries, serving, mode, neg)).faithful(stream),
{
    let inc = IncomingView::start(peer, retries, serving, mode, neg);
    let blocks = blocks_of(stream, inc.blksize);
    blocks_carry_the_stream(stream, inc.blksize);
    vstd::arithmetic::div_mod::lemma_div_pos_is_pos(stream.len() as int, inc.blksize as int);
    assert(blocks.take(0) =~= Seq::<Seq<u8>>::empty());
    assert(decoded(mode, false, Seq::<u8>::empty()) =~= Seq::<u8>::empty());
}

/// The datagrams among outputs.
pub open spec fn datagrams_in(outputs: Seq<OutputView>) -> Seq<Seq<u8>>
    decreases outputs.len(),
{
    if outputs.len() == 0 {
        Seq::empty()
    } else {
        datagrams_in(outputs.drop_last()) + match outputs.last() {
            OutputView::Send { datagram, .. } => seq![datagram],
            _ => Seq::empty(),
        }
    }
}

proof fn datagrams_in_groups(a: Seq<OutputView>, b: Seq<OutputView>)
    ensures
        datagrams_in(a + b) == datagrams_in(a) + datagrams_in(b),
    decreases b.len(),
{
    if b.len() == 0 {
        assert(a + b =~= a);
        assert(datagrams_in(a) + datagrams_in(b) =~= datagrams_in(a));
    } else {
        assert((a + b).drop_last() =~= a + b.drop_last());
        datagrams_in_groups(a, b.drop_last());
        assert(datagrams_in(a + b) =~= datagrams_in(a) + datagrams_in(b));
    }
}

/// The receiver after datagrams from its peer came in, one after the other,
/// and all that it put out on the way.
#[verifier::opaque]
pub open spec fn handed_over(inc: IncomingView, datagrams: Seq<Seq<u8>>) -> (
    IncomingView,
    Seq<OutputView>,
)
    decreases datagrams.len(),
{
    if datagrams.len() == 0 || inc.finished {
        (inc, Seq::empty())
    } else {
        let (next, step) = inc.on_datagram(inc.peer, datagrams[0]);
        let (end, more) = handed_over(next, datagrams.drop_first());
        (end, step.outputs + more)
    }
}

/// The sender after datagrams from its peer came in, one after the other.
#[verifier::opaque]
pub open spec fn answered(out: OutgoingView, datagrams: Seq<Seq<u8>>) -> OutgoingView
    decreases datagrams.len(),
{
    if datagrams.len() == 0 {
        out
    } else {
        answered(out.on_datagram(out.peer, datagrams[0]).0, datagrams.drop_first())
    }
}

/// The last step that the sender then took; `step` if no datagram came.
#[verifier::opaque]
pub open spec fn answered_step(
    out: OutgoingView,
    datagrams: Seq<Seq<u8>>,
    step: StepView,
) -> StepView
    decreases datagrams.len(),
{
    if datagrams.len() == 0 {
        step
    } else {
        let (next, taken) = out.on_datagram(out.peer, datagrams[0]);
        answered_step(next, datagrams.drop_first(), taken)
    }
}

/// Whether a step is the one that a sender takes when it goes on: it reads
/// if it has to, sends each block in flight to the peer and waits, or is done
/// if there is none.
pub open spec fn is_due(out: OutgoingView, step: StepView) -> bool {
    &&& out.reading() ==> step.next == NextView::Read(out.window.sender.blksize)
        && step.outputs.len() == 0
    &&& out.waiting() ==> {
        &&& step.next == NextView::Wait(out.timeout)
        &&& step.outputs.len() == out.window.in_flight.len()
        &&& forall|i: int|
            0 <= i < out.window.in_flight.len() ==> #[trigger] step.outputs[i]
                == (OutputView::Send {
                to: out.peer,
                datagram: packet_wire(
                    PacketView::Data {
                        block: out.window.in_flight[i].0,
                        data: out.window.in_flight[i].1,
                    },
                ),
            })
    }
    &&& !out.reading() && !out.waiting() ==> step.next is Done && step.outputs.len() == 0
}

/// The step of a sender that goes on is due.
proof fn going_on_is_due(s: OutgoingView)
    requires
        s.wf(),
    ensures
        is_due(s.proceed().0, s.proceed().1),
{
    let (next, step) = s.proceed();
    going_on_fills_the_window(s);
    if step.next is Wait {
        the_whole_window_is_sent(s, Seq::empty(), s.peer, Seq::empty(), next, step);
    }
}

/// The datagrams that carry these blocks.
pub open spec fn wires(blocks: Seq<Numbered>) -> Seq<Seq<u8>> {
    blocks.map_values(|b: Numbered| packet_wire(PacketView::Data { block: b.0, data: b.1 }))
}

/// The contents of these blocks.
pub open spec fn contents(blocks: Seq<Numbered>) -> Seq<Seq<u8>> {
    blocks.map_values(|b: Numbered| b.1)
}

proof fn window_datagrams(w: WindowView, to: SocketAddr)
    ensures
        datagrams_in(w.datagrams(to)) == wires(w.in_flight),
    decreases w.in_flight.len(),
{
    if w.in_flight.len() > 0 {
        let less = WindowView { in_flight: w.in_flight.drop_last(), ..w };
        window_datagrams(less, to);
        assert(w.datagrams(to).drop_last() =~= less.datagrams(to));
    }
    assert(datagrams_in(w.datagrams(to)) =~= wires(w.in_flight));
}

/// Where nothing has to be read, the datagrams of the step that is due carry
/// the blocks in flight.
proof fn due_datagrams(out: OutgoingView, step: StepView)
    requires
        is_due(out, step),
        !out.reading(),
    ensures
        datagrams_in(step.outputs) == wires(out.window.in_flight),
{
    assert(step.outputs =~= out.window.datagrams(out.peer));
    window_datagrams(out.window, out.peer);
}

/// What one step answers to the block that had to come next.
pub(crate) proof fn expected_block_is_answered(s: IncomingView, data: Seq<u8>)
    ensures
        datagrams_in(s.accept(s.next_block, data).1.outputs) == (if data.len() < s.blksize
            || s.in_window + 1 >= s.windowsize {
            seq![packet_wire(PacketView::Ack { block: s.next_block })]
        } else {
            Seq::empty()
        }),
{
    let next = s.with_block(data);
    let write = OutputView::Write(decoded(s.mode, s.held, data));
    let ack = s.ack(s.next_block);
    let wire = packet_wire(PacketView::Ack { block: s.next_block });
    reveal_with_fuel(datagrams_in, 3);
    assert(seq![write].drop_last() =~= Seq::<OutputView>::empty());
    assert(seq![ack].drop_last() =~= Seq::<OutputView>::empty());
    assert(seq![write, ack].drop_last() =~= seq![write]);
    assert(seq![OutputView::Flush].drop_last() =~= Seq::<OutputView>::empty());
    let tail = OutputView::Write(wire_tail(true));
    assert(seq![tail, OutputView::Flush].drop_last() =~= seq![tail]);
    assert(seq![tail].drop_last() =~= Seq::<OutputView>::empty());
    assert(datagrams_in(next.closing()) =~= Seq::<Seq<u8>>::empty());
    assert(datagrams_in(seq![write]) =~= Seq::<Seq<u8>>::empty());
    assert(datagrams_in(seq![ack]) =~= seq![wire]);
    assert(datagrams_in(seq![write, ack]) =~= seq![wire]);
    datagrams_in_groups(seq![write], next.closing());
    datagrams_in_groups(seq![write] + next.closing(), seq![ack]);
    datagrams_in_groups(seq![write, ack], next.closing());
    assert(seq![wire] + Seq::<Seq<u8>>::empty() =~= seq![wire]);
    assert(Seq::<Seq<u8>>::empty() + Seq::<Seq<u8>>::empty() =~= Seq::<Seq<u8>>::empty());
    assert(Seq::<Seq<u8>>::empty() + seq![wire] =~= seq![wire]);
}

/// What comes of the datagram with the block that had to come next.
proof fn next_block_arrives(inc: IncomingView, data: Seq<u8>)
    requires
        inc.wf(),
        !inc.finished,
        inc.attempt == 0,
    ensures
        ({
            let packet = PacketView::Data { block: inc.next_block, data };
            let (next, step) = inc.on_datagram(inc.peer, packet_wire(packet));
            let last = data.len() < inc.blksize;
            let full = inc.in_window + 1 >= inc.windowsize;
            &&& next.wf()
            &&& next.finished == last
            &&& next.attempt == 0
            &&& next.peer == inc.peer
            &&& next.mode == inc.mode
            &&& next.blksize == inc.blksize
            &&& next.windowsize == inc.windowsize
            &&& next.next_block == number_after(inc.next_block, 1)
            &&& !last ==> next.in_window == if full {
                0
            } else {
                inc.in_window + 1
            }
            &&& !last ==> next.held == held_after(inc.mode, inc.held, data)
            &&& datagrams_in(step.outputs) == (if last || full {
                seq![packet_wire(PacketView::Ack { block: inc.next_block })]
            } else {
                Seq::empty()
            })
            &&& written(step.outputs) == decoded(inc.mode, inc.held, data) + (if last {
                wire_tail(held_after(inc.mode, inc.held, data))
            } else {
                Seq::empty()
            })
        }),
{
    packets_round_trip(PacketView::Data { block: inc.next_block, data });
    assert(IncomingView { attempt: 0, ..inc } =~= inc);
    expected_block_is_written(inc, data);
    expected_block_is_answered(inc, data);
}

proof fn count_on(first: u16, i: int)
    ensures
        number_after(number_after(first, 1), i) == number_after(first, i + 1),
        number_after(first, 0) == first,
{
}

/// The blocks that are left of a window, handed over in order, are written,
/// and one acknowledgement comes back, of the last of them.
proof fn rest_of_window_arrives(inc: IncomingView, blocks: Seq<Numbered>, last: bool)
    requires
        inc.wf(),
        !inc.finished,
        inc.attempt == 0,
        blocks.len() > 0,
        last || inc.in_window + blocks.len() == inc.windowsize,
        inc.in_window + blocks.len() <= inc.windowsize,
        forall|i: int|
            0 <= i < blocks.len() ==> (#[trigger] blocks[i]).0 == number_after(inc.next_block, i),
        forall|i: int|
            0 <= i < blocks.len() ==> ((#[trigger] blocks[i]).1.len() < inc.blksize <==> last && i
                == blocks.len() - 1),
    ensures
        ({
            let (end, outputs) = handed_over(inc, wires(blocks));
            let stream = joined(contents(blocks));
            &&& end.wf()
            &&& end.finished == last
            &&& end.attempt == 0
            &&& end.mode == inc.mode
            &&& end.blksize == inc.blksize
            &&& end.windowsize == inc.windowsize
            &&& !last ==> end.in_window == 0
            &&& !last ==> end.next_block == number_after(inc.next_block, blocks.len() as int)
            &&& !last ==> end.held == held_after(inc.mode, inc.held, stream)
            &&& datagrams_in(outputs) == seq![
                packet_wire(PacketView::Ack { block: blocks.last().0 }),
            ]
            &&& written(outputs) == if last {
                content(inc.mode, inc.held, stream)
            } else {
                decoded(inc.mode, inc.held, stream)
            }
        }),
    decreases blocks.len(),
{
    let data = blocks[0].1;
    let rest = blocks.drop_first();
    count_on(inc.next_block, 0);
    let wire = packet_wire(PacketView::Data { block: inc.next_block, data });
    assert(wires(blocks)[0] == wire);
    assert(wires(blocks).drop_first() =~= wires(rest));
    assert(contents(blocks)[0] == data);
    assert(contents(blocks).drop_first() =~= contents(rest));
    next_block_arrives(inc, data);
    let (next, step) = inc.on_datagram(inc.peer, wire);
    let (end, more) = handed_over(next, wires(rest));
    reveal_with_fuel(handed_over, 2);
    assert(handed_over(inc, wires(blocks)) == (end, step.outputs + more));
    written_of_groups(step.outputs, more);
    datagrams_in_groups(step.outputs, more);
    let stream = joined(contents(rest));
    assert(joined(contents(blocks)) == data + stream);
    if rest.len() == 0 {
        assert(more == Seq::<OutputView>::empty());
        assert(stream == Seq::<u8>::empty());
        assert(step.outputs + more =~= step.outputs);
        assert(data + stream =~= data);
        let held = held_after(inc.mode, inc.held, data);
        assert(decoded(inc.mode, inc.held, data) + wire_tail(held) == content(
            inc.mode,
            inc.held,
            data,
        ));
        assert(decoded(inc.mode, inc.held, data) + Seq::<u8>::empty() =~= decoded(
            inc.mode,
            inc.held,
            data,
        ));
    } else {
        assert forall|i: int| 0 <= i < rest.len() implies (#[trigger] rest[i]).0 == number_after(
            next.next_block,
            i,
        ) && (rest[i].1.len() < next.blksize <==> last && i == rest.len() - 1) by {
            assert(rest[i] == blocks[i + 1]);
            count_on(inc.next_block, i);
        }
        rest_of_window_arrives(next, rest, last);
        assert(rest.last() == blocks.last());
        count_on(inc.next_block, rest.len() as int);
        let first = decoded(inc.mode, inc.held, data);
        assert(first + Seq::<u8>::empty() =~= first);
        decoded_of_pieces(inc.mode, inc.held, data, stream);
        content_of_pieces(inc.mode, inc.held, data, stream);
        assert(datagrams_in(step.outputs + more) =~= datagrams_in(more));
    }
}

/// Filling a window reads nothing from the source.
pub proof fn filled_keeps_eof(w: WindowView)
    ensures
        w.filled().sender.eof == w.sender.eof,
    decreases w.windowsize - w.in_flight.len(),
{
    if w.in_flight.len() < w.windowsize && w.sender.ready() {
        filled_keeps_eof(w.with_block());
    }
}

/// How much one read gives of a source that holds `rest`.
pub open spec fn read_len(out: OutgoingView, rest: Seq<u8>) -> int {
    if out.window.sender.blksize < rest.len() {
        out.window.sender.blksize as int
    } else {
        rest.len() as int
    }
}

/// The sender after it has read what it needs from a source that holds
/// `rest`, and what the source then holds.
#[verifier::opaque]
pub open spec fn read_up(out: OutgoingView, rest: Seq<u8>) -> (OutgoingView, Seq<u8>)
    decreases
            rest.len(),
            if out.window.sender.eof {
                0nat
            } else {
                1nat
            },
{
    if !out.reading() {
        (out, rest)
    } else {
        let n = read_len(out, rest);
        proof {
            filled_keeps_eof(out.window.fed(rest.take(n)));
        }
        read_up(out.on_chunk(rest.take(n)).0, rest.skip(n))
    }
}

/// The last step that the sender took to read it; `step` if it needed nothing.
#[verifier::opaque]
pub open spec fn read_up_step(out: OutgoingView, rest: Seq<u8>, step: StepView) -> StepView
    decreases
            rest.len(),
            if out.window.sender.eof {
                0nat
            } else {
                1nat
            },
{
    if !out.reading() {
        step
    } else {
        let n = read_len(out, rest);
        proof {
            filled_keeps_eof(out.window.fed(rest.take(n)));
        }
        let (next, taken) = out.on_chunk(rest.take(n));
        read_up_step(next, rest.skip(n), taken)
    }
}

/// Reading keeps the last step due.
proof fn read_up_step_is_due(out: OutgoingView, rest: Seq<u8>, step: StepView)
    requires
        out.wf(),
        out.window.settled(),
        out.window.sender.eof ==> rest.len() == 0,
        is_due(out, step),
    ensures
        is_due(read_up(out, rest).0, read_up_step(out, rest, step)),
    decreases
            rest.len(),
            if out.window.sender.eof {
                0nat
            } else {
                1nat
            },
{
    reveal_with_fuel(read_up, 2);
    reveal_with_fuel(read_up_step, 2);
    if out.reading() {
        let n = read_len(out, rest);
        let chunk = rest.take(n);
        let left = rest.skip(n);
        assert(chunk + left =~= rest);
        reading_keeps_what_is_outstanding(out.window, chunk, left);
        filling_keeps_what_is_outstanding(out.window.fed(chunk), left);
        going_on_is_due(out.fed(chunk));
        let (next, taken) = out.on_chunk(chunk);
        read_up_step_is_due(next, left, taken);
    }
}

proof fn read_up_settles(out: OutgoingView, rest: Seq<u8>)
    requires
        out.wf(),
        out.window.settled(),
        out.window.sender.eof ==> rest.len() == 0,
    ensures
        ({
            let (end, left) = read_up(out, rest);
            &&& end.wf()
            &&& end.window.settled()
            &&& !end.reading()
            &&& end.peer == out.peer
            &&& end.window.outstanding(left) == out.window.outstanding(rest)
            &&& end.window.sender.eof ==> left.len() == 0
            &&& end.window.sender.mode == out.window.sender.mode
            &&& end.window.sender.blksize == out.window.sender.blksize
            &&& end.window.windowsize == out.window.windowsize
            &&& end.window.first_number() == out.window.first_number()
        }),
    decreases
            rest.len(),
            if out.window.sender.eof {
                0nat
            } else {
                1nat
            },
{
    reveal_with_fuel(read_up, 2);
    if out.reading() {
        let n = read_len(out, rest);
        let chunk = rest.take(n);
        let left = rest.skip(n);
        assert(chunk + left =~= rest);
        reading_keeps_what_is_outstanding(out.window, chunk, left);
        filling_keeps_what_is_outstanding(out.window.fed(chunk), left);
        let next = out.on_chunk(chunk).0;
        read_up_settles(next, left);
    }
}

/// Both ends of a transfer over a network that loses nothing and keeps the
/// order.
#[verifier::ext_equal]
pub struct Exchange {
    pub out: OutgoingView,
    /// The last step of the sender.
    pub sent: StepView,
    pub inc: IncomingView,
    /// What the source still holds.
    pub rest: Seq<u8>,
    /// What the receiver has written.
    pub written: Seq<u8>,
}

impl Exchange {
    /// Before the first block of `file`.
    pub open spec fn start(out: OutgoingView, inc: IncomingView, file: Seq<u8>) -> Exchange {
        let (next, step) = out.proceed();
        Exchange { out: next, sent: step, inc, rest: file, written: Seq::empty() }
    }

    /// All blocks that the sender has no acknowledgement of.
    pub open spec fn outstanding(self) -> Seq<Seq<u8>> {
        self.out.window.outstanding(self.rest)
    }

    /// Whether both ends agree on the parameters and on how far they are.
    pub open spec fn synchronised(self) -> bool {
        &&& self.out.wf()
        &&& self.inc.wf()
        &&& self.out.window.settled()
        &&& is_due(self.out, self.sent)
        &&& self.out.window.sender.eof ==> self.rest.len() == 0
        &&& self.inc.mode == self.out.window.sender.mode
        &&& self.inc.blksize == self.out.window.sender.blksize
        &&& self.inc.windowsize == self.out.window.windowsize
        &&& self.inc.attempt == 0
        &&& self.inc.finished <==> self.outstanding().len() == 0
        &&& !self.inc.finished ==> self.inc.in_window == 0 && self.inc.next_block
            == self.out.window.first_number()
    }

    /// One round: the sender reads what it needs, the receiver gets what the
    /// last step of the sender put out, and the sender takes the answers.
    #[verifier::opaque]
    pub open spec fn round(self) -> Exchange {
        let (out, rest) = read_up(self.out, self.rest);
        let sent = read_up_step(self.out, self.rest, self.sent);
        let (inc, outputs) = handed_over(self.inc, datagrams_in(sent.outputs));
        Exchange {
            out: answered(out, datagrams_in(outputs)),
            sent: answered_step(out, datagrams_in(outputs), sent),
            inc,
            rest,
            written: self.written + written(outputs),
        }
    }

    /// After `n` rounds.
    pub open spec fn after_rounds(self, n: nat) -> Exchange
        decreases n,
    {
        if n == 0 {
            self
        } else {
            self.round().after_rounds((n - 1) as nat)
        }
    }
}

proof fn ends_of_window(next: u16, n: int)
    requires
        0 < n <= 0xffff,
    ensures
        distance(number_after(next, -n), number_after(next, -1)) == n - 1,
{
}

pub(crate) proof fn number_within_window(next: u16, n: int, i: int)
    ensures
        number_after(number_after(next, -n), i) == number_after(next, i - n),
{
}

/// An acknowledgement of the last block in flight has the sender go on with
/// an empty window.
proof fn last_ack_empties_the_window(out: OutgoingView, rest: Seq<u8>, step: StepView)
    requires
        out.wf(),
        out.window.in_flight.len() > 0,
        out.window.sender.eof ==> rest.len() == 0,
    ensures
        ({
            let last = out.window.in_flight.last().0;
            let acks = seq![packet_wire(PacketView::Ack { block: last })];
            let end = answered(out, acks);
            &&& is_due(end, answered_step(out, acks, step))
            &&& end.wf()
            &&& end.window.settled()
            &&& end.peer == out.peer
            &&& end.window.sender.eof ==> rest.len() == 0
            &&& end.window.sender.mode == out.window.sender.mode
            &&& end.window.sender.blksize == out.window.sender.blksize
            &&& end.window.windowsize == out.window.windowsize
            &&& end.window.first_number() == out.window.next_block
            &&& end.window.outstanding(rest) == out.window.sender.to_come(rest)
        }),
{
    let w = out.window;
    let n = w.in_flight.len() as int;
    let last = w.in_flight.last().0;
    let wire = packet_wire(PacketView::Ack { block: last });
    packets_round_trip(PacketView::Ack { block: last });
    assert(w.in_flight[0].0 == number_after(w.next_block, -n));
    assert(last == number_after(w.next_block, -1));
    ends_of_window(w.next_block, n);
    acks_are_cumulative(w.in_flight, w.next_block, last, w.windowsize, out.serving);
    acks_take_from_what_is_outstanding(w, last, out.serving, rest);
    let acknowledged = w.acknowledged(last, out.serving);
    assert(acknowledged.in_flight =~= Seq::<Numbered>::empty());
    assert(acknowledged.outstanding(rest) =~= w.sender.to_come(rest));
    filling_keeps_what_is_outstanding(acknowledged, rest);
    reveal_with_fuel(answered, 2);
    assert(seq![wire].drop_first() =~= Seq::<Seq<u8>>::empty());
    assert(answered(out, seq![wire]) == out.on_datagram(out.peer, wire).0);
    reveal_with_fuel(answered_step, 2);
    assert(answered_step(out, seq![wire], step) == out.on_datagram(out.peer, wire).1);
    going_on_is_due(OutgoingView { window: acknowledged, ..out });
}

/// A round keeps both ends synchronised.  Unless the transfer has finished,
/// at least one block arrives in it; what was outstanding is what is written
/// in the round and what is outstanding then.
proof fn round_makes_progress(s: Exchange)
    requires
        s.synchronised(),
    ensures
        s.round().synchronised(),
        s.round().inc.mode == s.inc.mode,
        s.inc.finished ==> s.round().inc.finished && s.round().written == s.written,
        !s.inc.finished ==> ({
            let next = s.round();
            let n = s.outstanding().len() - next.outstanding().len();
            let stream = joined(s.outstanding().take(n));
            &&& n > 0
            &&& next.outstanding() == s.outstanding().skip(n)
            &&& next.written == s.written + (if next.inc.finished {
                content(s.inc.mode, s.inc.held, stream)
            } else {
                decoded(s.inc.mode, s.inc.held, stream)
            })
            &&& !next.inc.finished ==> next.inc.held == held_after(
                s.inc.mode,
                s.inc.held,
                stream,
            )
        }),
{
    reveal(Exchange::round);
    read_up_settles(s.out, s.rest);
    let (out, rest) = read_up(s.out, s.rest);
    let w = out.window;
    let next = s.round();
    let sent = read_up_step(s.out, s.rest, s.sent);
    read_up_step_is_due(s.out, s.rest, s.sent);
    due_datagrams(out, sent);
    let (inc, outputs) = handed_over(s.inc, wires(w.in_flight));
    let last = w.sender.final_emitted;
    blocks_carry_the_stream(w.sender.pending + encoded(w.sender.mode, rest), w.sender.blksize);
    if s.inc.finished {
        reveal_with_fuel(handed_over, 1);
        reveal_with_fuel(answered, 1);
        reveal_with_fuel(answered_step, 1);
        assert(outputs =~= Seq::<OutputView>::empty());
        assert(next.written =~= s.written);
    } else {
        assert(w.in_flight.len() > 0);
        assert forall|i: int| 0 <= i < w.in_flight.len() implies (#[trigger] w.in_flight[i]).0
            == number_after(s.inc.next_block, i) by {
            number_within_window(w.next_block, w.in_flight.len() as int, i);
        }
        rest_of_window_arrives(s.inc, w.in_flight, last);
        last_ack_empties_the_window(out, rest, sent);
        number_within_window(w.next_block, w.in_flight.len() as int, w.in_flight.len() as int);
        assert(s.outstanding() == contents(w.in_flight) + w.sender.to_come(rest));
        let n = s.outstanding().len() - next.outstanding().len();
        assert(n == w.in_flight.len());
        assert(s.outstanding().take(n) =~= contents(w.in_flight));
        assert(s.outstanding().skip(n) =~= w.sender.to_come(rest));
    }
}

/// A sender with nothing outstanding has told its owner that it is done.
proof fn nothing_outstanding_means_done(s: Exchange)
    requires
        s.synchronised(),
        s.outstanding().len() == 0,
    ensures
        s.sent.next is Done,
{
    let sender = s.out.window.sender;
    blocks_carry_the_stream(sender.pending + encoded(sender.mode, s.rest), sender.blksize);
    assert(contents(s.out.window.in_flight).len() == 0);
    if !sender.final_emitted {
        vstd::arithmetic::div_mod::lemma_div_pos_is_pos(
            (sender.pending + encoded(sender.mode, s.rest)).len() as int,
            sender.blksize as int,
        );
    }
}

/// Over a network that loses nothing, a transfer between synchronised ends
/// completes, with at least one block in each round.  The receiver has then
/// written the content of all that was outstanding, and nothing else.
pub proof fn exchanges_complete(s: Exchange, n: nat)
    requires
        s.synchronised(),
        n >= s.outstanding().len(),
    ensures
        s.after_rounds(n).synchronised(),
        s.after_rounds(n).inc.finished,
        s.after_rounds(n).outstanding().len() == 0,
        s.after_rounds(n).sent.next is Done,
        s.after_rounds(n).written == s.written + (if s.inc.finished {
            Seq::empty()
        } else {
            content(s.inc.mode, s.inc.held, joined(s.outstanding()))
        }),
    decreases n,
{
    if n == 0 {
        assert(s.written + Seq::empty() =~= s.written);
        nothing_outstanding_means_done(s);
    } else {
        round_makes_progress(s);
        let next = s.round();
        exchanges_complete(next, (n - 1) as nat);
        if !s.inc.finished {
            let k = s.outstanding().len() - next.outstanding().len();
            let a = s.outstanding().take(k);
            let b = next.outstanding();
            assert(s.outstanding() =~= a + b);
            joined_of_groups(a, b);
            content_of_pieces(s.inc.mode, s.inc.held, joined(a), joined(b));
            if next.inc.finished {
                assert(joined(a) + joined(b) =~= joined(a));
                assert(next.written + Seq::empty() =~= next.written);
            } else {
                let first = decoded(s.inc.mode, s.inc.held, joined(a));
                let more = content(s.inc.mode, next.inc.held, joined(b));
                assert((s.written + first) + more =~= s.written + (first + more));
            }
        }
    }
}

/// Two ends that have yet to begin and go by the same mode, block size and
/// window size are synchronised, and a file sent from one arrives whole at
/// the other.
pub proof fn transfers_deliver_the_file(
    out_peer: SocketAddr,
    out_retries: u32,
    out_serving: bool,
    out_neg: Negotiated,
    inc_peer: SocketAddr,
    inc_retries: u32,
    inc_serving: bool,
    inc_neg: Negotiated,
    mode: Mode,
    file: Seq<u8>,
    n: nat,
)
    requires
        out_neg.blksize == inc_neg.blksize > 0,
        out_neg.windowsize == inc_neg.windowsize > 0,
        n >= encoded(mode, file).len() / out_neg.blksize as nat + 1,
    ensures
        ({
            let out = OutgoingView::start(out_peer, out_retries, out_serving, mode, out_neg);
            let inc = IncomingView::start(inc_peer, inc_retries, inc_serving, mode, inc_neg);
            let start = Exchange::start(out, inc, file);
            let end = start.after_rounds(n);
            &&& start.synchronised()
            &&& end.written == file
            &&& end.inc.finished
            &&& end.outstanding().len() == 0
            &&& end.sent.next is Done
        }),
{
    let out = OutgoingView::start(out_peer, out_retries, out_serving, mode, out_neg);
    let inc = IncomingView::start(inc_peer, inc_retries, inc_serving, mode, inc_neg);
    let start = Exchange::start(out, inc, file);
    let stream = encoded(mode, file);
    let blksize = out_neg.blksize as nat;
    start_has_all_to_come(mode, blksize, file);
    assert(out.window.outstanding(file) =~= blocks_of(stream, blksize));
    filling_keeps_what_is_outstanding(out.window, file);
    going_on_is_due(out);
    blocks_carry_the_stream(stream, blksize);
    vstd::arithmetic::div_mod::lemma_div_pos_is_pos(stream.len() as int, blksize as int);
    exchanges_complete(start, n);
    netascii_round_trips(file);
    assert(content(mode, false, stream) =~= file);
    assert(Seq::empty() + file =~= file);
}

/// The values among options that were agreed to.
pub proof fn agreed_values(cfg: Config, requested: Seq<OptionValue>, file_size: Option<u64>)
    ensures
        block_size_in(agreed(cfg, requested, file_size)) == agreed_block_size(cfg, requested),
        timeout_in(agreed(cfg, requested, file_size)) == agreed_timeout(requested),
        transfer_size_in(agreed(cfg, requested, file_size)) == agreed_transfer_size(
            requested,
            file_size,
        ),
        window_size_in(agreed(cfg, requested, file_size)) == agreed_window_size(cfg, requested),
        distinct_kinds(agreed(cfg, requested, file_size)),
{
    let options = agreed(cfg, requested, file_size);
    position_of_is_first(options, OptionKind::BlockSize);
    position_of_is_first(options, OptionKind::Timeout);
    position_of_is_first(options, OptionKind::TransferSize);
    position_of_is_first(options, OptionKind::WindowSize);
    let b: int = if agreed_block_size(cfg, requested) is Some {
        1
    } else {
        0
    };
    let t: int = if agreed_timeout(requested) is Some {
        b + 1
    } else {
        b
    };
    let s: int = if agreed_transfer_size(requested, file_size) is Some {
        t + 1
    } else {
        t
    };
    assert(b == 1 ==> options[0] == OptionValue::BlockSize(agreed_block_size(cfg, requested)->0));
    assert(t == b + 1 ==> options[b] == OptionValue::Timeout(agreed_timeout(requested)->0));
    assert(s == t + 1 ==> options[t] == OptionValue::TransferSize(
        agreed_transfer_size(requested, file_size)->0,
    ));
    assert(options.len() == s + 1 ==> options[s] == OptionValue::WindowSize(
        agreed_window_size(cfg, requested)->0,
    ));
}

/// A server agrees only to options that were asked for, to a block size in
/// its own range that is no larger than the one asked for, and, where what
/// was asked for is valid, only to valid values.
pub proof fn agreement_stays_within_the_request(
    cfg: Config,
    requested: Seq<OptionValue>,
    file_size: Option<u64>,
    kind: OptionKind,
)
    requires
        all_valid(requested),
        block_size_in(requested) is Some ==> cfg.max_block_size >= MIN_BLOCK_SIZE,
    ensures
        lookup(agreed(cfg, requested, file_size), kind) is Some ==> lookup(requested, kind) is Some,
        agreed_block_size(cfg, requested) matches Some(b) ==> MIN_BLOCK_SIZE <= b
            <= cfg.max_block_size && b <= block_size_in(requested)->0,
        all_valid(agreed(cfg, requested, file_size)),
        requested.len() == 0 ==> agreed(cfg, requested, file_size).len() == 0,
{
    agreed_values(cfg, requested, file_size);
    let options = agreed(cfg, requested, file_size);
    position_of_is_first(options, kind);
    position_of_is_first(requested, OptionKind::BlockSize);
    position_of_is_first(requested, OptionKind::Timeout);
    position_of_is_first(requested, OptionKind::TransferSize);
    position_of_is_first(requested, OptionKind::WindowSize);
}

/// The client that takes over what the server has agreed to works with the
/// same block size and window size as the server, and with the same timeout
/// where it asked for one.
pub proof fn negotiation_agrees(
    cfg: Config,
    requested: Seq<OptionValue>,
    file_size: Option<u64>,
    timeout: Duration,
)
    ensures
        ({
            let client = merged(
                Negotiated::unnegotiated(timeout),
                agreed(cfg, requested, file_size),
            );
            let server = in_force(cfg, requested);
            &&& client.blksize == server.blksize
            &&& client.windowsize == server.windowsize
            &&& timeout_in(requested) is Some ==> client.timeout == server.timeout
            &&& timeout_in(requested) is None ==> client.timeout == timeout && server.timeout
                == cfg.timeout
        }),
{
    agreed_values(cfg, requested, file_size);
}

proof fn in_flight_is_not_next(next: u16, n: int, i: int)
    requires
        0 <= i < n <= 0xffff,
    ensures
        number_after(next, i - n) != next,
{
}

/// Where the acknowledgement of a whole window is lost, the sender sends the
/// window again, and any block of it has the receiver send the
/// acknowledgement again without writing anything.  This takes all those
/// blocks out of flight.
pub proof fn lost_acks_are_sent_again(
    out: OutgoingView,
    inc: IncomingView,
    rest: Seq<u8>,
    i: int,
)
    requires
        out.wf(),
        out.window.sender.eof ==> rest.len() == 0,
        0 <= i < out.window.in_flight.len(),
        !inc.finished,
        inc.next_block == out.window.next_block,
        inc.last_acked == out.window.in_flight.last().0,
    ensures
        ({
            let block = out.window.in_flight[i];
            let again = packet_wire(PacketView::Data { block: block.0, data: block.1 });
            let step = inc.on_datagram(inc.peer, again).1;
            let ack = PacketView::Ack { block: inc.last_acked };
            let end = answered(out, seq![packet_wire(ack)]);
            &&& out.attempt < out.retries ==> out.on_timeout().1 == out.sent()
            &&& out.attempt < out.retries ==> out.on_timeout().1.outputs[i] == send_view(
                out.peer,
                PacketView::Data { block: block.0, data: block.1 },
            )
            &&& step.outputs == seq![send_view(inc.peer, ack)]
            &&& written(step.outputs) == Seq::<u8>::empty()
            &&& end.window.outstanding(rest) == out.window.sender.to_come(rest)
        }),
{
    let block = out.window.in_flight[i];
    packets_round_trip(PacketView::Data { block: block.0, data: block.1 });
    in_flight_is_not_next(out.window.next_block, out.window.in_flight.len() as int, i);
    unexpected_blocks_write_nothing(IncomingView { attempt: 0, ..inc }, block.0, block.1);
    last_ack_empties_the_window(out, rest, out.sent());
}

/// A datagram from anyone but the peer is answered with the error that the
/// transfer identifier is unknown, and changes nothing in the transfer: the
/// wait for the peer goes on.
pub proof fn strangers_change_nothing(
    serving: RrqSenderView,
    out: OutgoingView,
    inc: IncomingView,
    src: SocketAddr,
    bytes: Seq<u8>,
)
    ensures
        src != serving.out.peer ==> serving.on_datagram(src, bytes) == (
            serving,
            stranger_step(src),
        ),
        src != out.peer ==> out.on_datagram(src, bytes) == (out, stranger_step(src)),
        src != inc.peer ==> inc.on_datagram(src, bytes) == (inc, stranger_step(src)),
{
    assert(RrqSenderView { out: serving.out, ..serving } =~= serving);
}

/// The same holds of a client's transfer once the server has answered.
pub proof fn strangers_change_nothing_at_a_client(
    get: GetView,
    put: PutView,
    src: SocketAddr,
    bytes: Seq<u8>,
)
    ensures
        get.inc matches Some(inc) ==> src != inc.peer ==> get.on_datagram(src, bytes) == (
            get,
            stranger_step(src),
        ),
        put.out matches Some(out) ==> src != out.peer ==> put.on_datagram(src, bytes) == (
            put,
            stranger_step(src),
        ),
{
    reveal_with_fuel(written, 2);
    assert(stranger_step(src).outputs.drop_last() =~= Seq::<OutputView>::empty());
}

/// Reading a file from a server.  The request says at the server what the
/// client asked for, but for values out of range, which are dropped.  If the
/// server agrees to options, it sends them, the client takes them over and
/// acknowledges them with block number 0, and then the server begins;
/// otherwise the server begins at once, and the client takes the first block
/// as a receiver that has begun does.  Either way both ends then go by the
/// same parameters, and over a network that loses nothing what the server
/// sends makes the file arrive whole.
pub proof fn downloads_deliver_the_file(
    cfg: Config,
    opts: Options,
    listen: SocketAddr,
    server: SocketAddr,
    client: SocketAddr,
    remote: Seq<char>,
    file: Seq<u8>,
    n: nat,
)
    requires
        no_nul(remote),
        block_size_in(valid_part(asked_for(opts, None))) is Some ==> cfg.max_block_size
            >= MIN_BLOCK_SIZE,
        file.len() <= u64::MAX,
        n > encoded(opts.mode, file).len(),
    ensures
        ({
            let requested = valid_part(asked_for(opts, None));
            let size = file.len() as u64;
            let options = agreed(cfg, requested, Some(size));
            let neg = merged(Negotiated::unnegotiated(opts.timeout), options);
            let (asking, request) = GetView::start(listen, opts, remote);
            let (serving, first) = RrqSenderView::start(
                cfg,
                client,
                opts.mode,
                requested,
                size,
            );
            let out = OutgoingView::start(
                client,
                cfg.retries,
                true,
                opts.mode,
                in_force(cfg, requested),
            );
            let inc = IncomingView::start(server, opts.retries, false, opts.mode, neg);
            let end = Exchange::start(out, inc, file).after_rounds(n);
            &&& request.outputs == seq![send_view(listen, asking.asking.packet())]
            &&& packet_of(packet_wire(asking.asking.packet())) == Ok::<PacketView, ErrorView>(
                PacketView::Rrq { filename: remote, mode: opts.mode, options: requested },
            )
            &&& if options.len() > 0 {
                let (taken, step) = asking.on_datagram(
                    server,
                    packet_wire(PacketView::Oack { options }),
                );
                let ack = packet_wire(PacketView::Ack { block: 0 });
                &&& first.outputs == seq![send_view(client, PacketView::Oack { options })]
                &&& taken.inc == Some(inc)
                &&& step.outputs == seq![send_view(server, PacketView::Ack { block: 0 })]
                &&& serving.on_datagram(client, ack).0.out == out.proceed().0
                &&& serving.on_datagram(client, ack).1 == out.proceed().1
            } else {
                &&& serving.out == out.proceed().0
                &&& first == out.proceed().1
                &&& forall|data: Seq<u8>|
                    asking.on_datagram(
                        server,
                        #[trigger] packet_wire(PacketView::Data { block: 1, data }),
                    ) == asking.with_step(
                        inc.on_datagram(
                            server,
                            packet_wire(PacketView::Data { block: 1, data }),
                        ),
                    )
            }
            &&& end.inc.finished
            &&& end.sent.next is Done
            &&& end.written == file
        }),
{
    let asked = asked_for(opts, None);
    let requested = valid_part(asked);
    let size = file.len() as u64;
    let options = agreed(cfg, requested, Some(size));
    let neg = merged(Negotiated::unnegotiated(opts.timeout), options);
    let asking = GetView::start(listen, opts, remote).0;
    let inc = IncomingView::start(server, opts.retries, false, opts.mode, neg);
    asked_for_is_distinct(opts, None);
    valid_part_is_valid(asked);
    packets_lose_only_invalid_options(
        PacketView::Rrq { filename: remote, mode: opts.mode, options: asked },
    );
    agreed_values(cfg, requested, Some(size));
    agreement_stays_within_the_request(cfg, requested, Some(size), OptionKind::BlockSize);
    negotiation_agrees(cfg, requested, Some(size), opts.timeout);
    if options.len() > 0 {
        packets_round_trip(PacketView::Oack { options });
        packets_round_trip(PacketView::Ack { block: 0 });
        acks_write_nothing(inc, 0);
    } else {
        assert forall|data: Seq<u8>|
            asking.on_datagram(
                server,
                #[trigger] packet_wire(PacketView::Data { block: 1, data }),
            ) == asking.with_step(
                inc.on_datagram(server, packet_wire(PacketView::Data { block: 1, data })),
            ) by {
            packets_round_trip(PacketView::Data { block: 1, data });
        }
    }
    rounds_suffice(encoded(opts.mode, file).len(), neg.blksize as nat);
    transfers_deliver_the_file(
        client,
        cfg.retries,
        true,
        in_force(cfg, requested),
        server,
        opts.retries,
        false,
        neg,
        opts.mode,
        file,
        n,
    );
}

/// What a request asks for is distinct.
proof fn asked_for_is_distinct(opts: Options, tsize_for_put: Option<u64>)
    ensures
        distinct_kinds(asked_for(opts, tsize_for_put)),
{
}

/// There are no more blocks than bytes, but for the last one.
proof fn rounds_suffice(len: nat, blksize: nat)
    requires
        blksize > 0,
    ensures
        len / blksize + 1 <= len + 1,
{
    vstd::arithmetic::div_mod::lemma_div_is_ordered_by_denominator(
        len as int,
        1,
        blksize as int,
    );
    vstd::arithmetic::div_mod::lemma_div_basics(len as int);
}

/// Writing a file at a server.  The request says at the server what the
/// client asked for, but for values out of range, which are dropped.  The
/// server answers with the options that it agrees to, or else acknowledges
/// block number 0, and the client begins.  Both ends then go by the same
/// parameters, and over a network that loses nothing what the client sends
/// makes the file arrive whole.
pub proof fn uploads_deliver_the_file(
    cfg: Config,
    opts: Options,
    listen: SocketAddr,
    server: SocketAddr,
    client: SocketAddr,
    remote: Seq<char>,
    file: Seq<u8>,
    n: nat,
)
    requires
        file.len() <= u64::MAX,
        no_nul(remote),
        block_size_in(valid_part(asked_for(opts, Some(file.len() as u64)))) is Some
            ==> cfg.max_block_size >= MIN_BLOCK_SIZE,
        n > encoded(opts.mode, file).len(),
    ensures
        ({
            let size = file.len() as u64;
            let requested = valid_part(asked_for(opts, Some(size)));
            let options = agreed(cfg, requested, None);
            let neg = merged(Negotiated::unnegotiated(opts.timeout), options);
            let (asking, request) = PutView::start(listen, opts, remote, size);
            let (inc, step) = taking(cfg, client, opts.mode, requested);
            let out = OutgoingView::start(server, opts.retries, false, opts.mode, neg);
            let end = Exchange::start(out, inc, file).after_rounds(n);
            let answer = if options.len() > 0 {
                PacketView::Oack { options }
            } else {
                PacketView::Ack { block: 0 }
            };
            &&& request.outputs == seq![send_view(listen, asking.asking.packet())]
            &&& packet_of(packet_wire(asking.asking.packet())) == Ok::<PacketView, ErrorView>(
                PacketView::Wrq { filename: remote, mode: opts.mode, options: requested },
            )
            &&& step.outputs == seq![send_view(client, answer)]
            &&& asking.on_datagram(server, packet_wire(answer)).0.out == Some(out.proceed().0)
            &&& asking.on_datagram(server, packet_wire(answer)).1 == out.proceed().1
            &&& end.inc.finished
            &&& end.sent.next is Done
            &&& end.written == file
        }),
{
    let size = file.len() as u64;
    let asked = asked_for(opts, Some(size));
    let requested = valid_part(asked);
    let options = agreed(cfg, requested, None);
    let neg = merged(Negotiated::unnegotiated(opts.timeout), options);
    asked_for_is_distinct(opts, Some(size));
    valid_part_is_valid(asked);
    packets_lose_only_invalid_options(
        PacketView::Wrq { filename: remote, mode: opts.mode, options: asked },
    );
    agreed_values(cfg, requested, None);
    agreement_stays_within_the_request(cfg, requested, None, OptionKind::BlockSize);
    negotiation_agrees(cfg, requested, None, opts.timeout);
    if options.len() > 0 {
        packets_round_trip(PacketView::Oack { options });
    } else {
        packets_round_trip(PacketView::Ack { block: 0 });
    }
    rounds_suffice(encoded(opts.mode, file).len(), neg.blksize as nat);
    transfers_deliver_the_file(
        server,
        opts.retries,
        false,
        neg,
        client,
        cfg.retries,
        true,
        in_force(cfg, requested),
        opts.mode,
        file,
        n,
    );
}

} // verus!
