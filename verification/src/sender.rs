//! Cutting a stream of bytes into data blocks, and the window of blocks that
//! await acknowledgement.
use std::collections::VecDeque;
use vstd::prelude::*;

use crate::addr::SocketAddr;
use crate::netascii::{to_wire, to_wire_of_pieces, ToWire};
use crate::proto::packet::{packet_wire, PacketView};
use crate::proto::Mode;
use crate::session::{outputs_view, send_data, send_view, Output, OutputView};

verus! {

/// What the bytes `s` of a file become on the wire.
pub open spec fn encoded(mode: Mode, s: Seq<u8>) -> Seq<u8> {
    if mode == Mode::NetAscii {
        to_wire(s)
    } else {
        s
    }
}

/// The blocks that carry `stream`: full ones as long as there are enough
/// bytes, then a short one, which is empty if no bytes are left for it.
pub open spec fn blocks_of(stream: Seq<u8>, blksize: nat) -> Seq<Seq<u8>>
    decreases stream.len(),
{
    if blksize == 0 || stream.len() < blksize {
        seq![stream]
    } else {
        seq![stream.take(blksize as int)] + blocks_of(stream.skip(blksize as int), blksize)
    }
}

/// The contents of blocks, one behind the other.
pub open spec fn joined(blocks: Seq<Seq<u8>>) -> Seq<u8>
    decreases blocks.len(),
{
    if blocks.len() == 0 {
        Seq::empty()
    } else {
        blocks[0] + joined(blocks.drop_first())
    }
}

/// Blocks carry the stream that they were cut from.  All but the last are
/// full and the last one is short, so that a receiver can tell the end.
pub proof fn blocks_carry_the_stream(stream: Seq<u8>, blksize: nat)
    requires
        blksize > 0,
    ensures
        joined(blocks_of(stream, blksize)) == stream,
        blocks_of(stream, blksize).len() == stream.len() / blksize + 1,
        forall|i: int|
            0 <= i < blocks_of(stream, blksize).len() - 1 ==> (#[trigger] blocks_of(
                stream,
                blksize,
            )[i]).len() == blksize,
        blocks_of(stream, blksize).last().len() == stream.len() % blksize,
    decreases stream.len(),
{
    let blocks = blocks_of(stream, blksize);
    if stream.len() < blksize {
        reveal_with_fuel(joined, 2);
        assert(blocks.drop_first() =~= Seq::<Seq<u8>>::empty());
        assert(joined(blocks) =~= stream);
        vstd::arithmetic::div_mod::lemma_basic_div(stream.len() as int, blksize as int);
        vstd::arithmetic::div_mod::lemma_small_mod(stream.len(), blksize);
    } else {
        let head = stream.take(blksize as int);
        let rest = stream.skip(blksize as int);
        blocks_carry_the_stream(rest, blksize);
        assert(blocks.drop_first() =~= blocks_of(rest, blksize));
        assert(head + rest =~= stream);
        assert(blocks.last() == blocks_of(rest, blksize).last());
        assert forall|i: int| 0 <= i < blocks.len() - 1 implies (#[trigger] blocks[i]).len()
            == blksize by {
            if i > 0 {
                assert(blocks[i] == blocks_of(rest, blksize)[i - 1]);
            }
        }
        vstd::arithmetic::div_mod::lemma_div_minus_one(stream.len() as int, blksize as int);
        vstd::arithmetic::div_mod::lemma_mod_sub_multiples_vanish(
            stream.len() as int,
            blksize as int,
        );
    }
}

/// What a [`Sender`] stands for.
#[verifier::ext_equal]
pub struct SenderView {
    /// How bytes are encoded for the wire.
    pub mode: Mode,
    /// Encoded bytes that are not in a block yet.
    pub pending: Seq<u8>,
    /// Length of a full block.
    pub blksize: nat,
    /// Whether the source has been read to its end.
    pub eof: bool,
    /// Whether the short block at the end has been made.
    pub final_emitted: bool,
}

impl SenderView {
    /// A sender that has read nothing yet.
    pub open spec fn start(mode: Mode, blksize: nat) -> SenderView {
        SenderView { mode, pending: Seq::empty(), blksize, eof: false, final_emitted: false }
    }

    pub open spec fn wf(self) -> bool {
        &&& 0 < self.blksize <= u16::MAX
        &&& self.final_emitted ==> self.eof && self.pending.len() == 0
    }

    /// Whether more of the source is needed for the next block.
    pub open spec fn wants_input(self) -> bool {
        !self.eof && self.pending.len() < self.blksize
    }

    /// The sender after one read of the source.  A read of nothing means that
    /// the source is at its end.
    pub open spec fn fed(self, chunk: Seq<u8>) -> SenderView {
        if chunk.len() == 0 {
            SenderView { eof: true, ..self }
        } else {
            SenderView { pending: self.pending + encoded(self.mode, chunk), ..self }
        }
    }

    /// Whether a block can be made.
    pub open spec fn ready(self) -> bool {
        !self.final_emitted && !self.wants_input()
    }

    /// The block that comes next, once the sender is ready.
    pub open spec fn block(self) -> Seq<u8> {
        if self.pending.len() < self.blksize {
            self.pending
        } else {
            self.pending.take(self.blksize as int)
        }
    }

    /// The sender after that block.
    pub open spec fn after_block(self) -> SenderView {
        SenderView {
            pending: self.pending.skip(self.block().len() as int),
            final_emitted: self.block().len() < self.blksize,
            ..self
        }
    }

    /// All blocks still to come, where `rest` is what the source still holds.
    pub open spec fn to_come(self, rest: Seq<u8>) -> Seq<Seq<u8>> {
        if self.final_emitted {
            Seq::empty()
        } else {
            blocks_of(self.pending + encoded(self.mode, rest), self.blksize)
        }
    }
}

/// At the start, the blocks of the whole encoded source are still to come.
pub proof fn start_has_all_to_come(mode: Mode, blksize: nat, source: Seq<u8>)
    ensures
        SenderView::start(mode, blksize).to_come(source) == blocks_of(
            encoded(mode, source),
            blksize,
        ),
{
    assert(Seq::empty() + encoded(mode, source) =~= encoded(mode, source));
}

/// Reading the source piece by piece, however it is cut, changes nothing in
/// the blocks that are still to come; nor does finding its end.
pub proof fn feeding_keeps_what_is_to_come(s: SenderView, chunk: Seq<u8>, rest: Seq<u8>)
    requires
        s.wf(),
        s.wants_input(),
        chunk.len() == 0 ==> rest.len() == 0,
    ensures
        s.fed(chunk).to_come(rest) == s.to_come(chunk + rest),
        s.fed(chunk).wf(),
{
    if chunk.len() == 0 {
        assert(chunk + rest =~= rest);
    } else {
        to_wire_of_pieces(chunk, rest);
        assert((s.pending + encoded(s.mode, chunk)) + encoded(s.mode, rest) =~= s.pending
            + encoded(s.mode, chunk + rest));
    }
}

/// The block that a sender makes is the first of those to come, and the
/// others stay to come.
pub proof fn next_block_is_first_to_come(s: SenderView, rest: Seq<u8>)
    requires
        s.wf(),
        s.ready(),
        s.eof ==> rest.len() == 0,
    ensures
        s.to_come(rest) == seq![s.block()] + s.after_block().to_come(rest),
        s.after_block().wf(),
{
    let stream = s.pending + encoded(s.mode, rest);
    if s.pending.len() < s.blksize {
        assert(stream =~= s.pending);
        assert(s.to_come(rest) =~= seq![s.block()] + Seq::empty());
    } else {
        let n = s.blksize as int;
        assert(stream.take(n) =~= s.pending.take(n));
        assert(stream.skip(n) =~= s.pending.skip(n) + encoded(s.mode, rest));
    }
}

/// A source of data blocks: collects what was read and cuts it up.
#[derive(Debug)]
pub struct Sender {
    encoder: Option<ToWire>,
    pending: Vec<u8>,
    blksize: usize,
    eof: bool,
    final_emitted: bool,
}

impl View for Sender {
    type V = SenderView;

    closed spec fn view(&self) -> SenderView {
        SenderView {
            mode: if self.encoder is Some {
                Mode::NetAscii
            } else {
                Mode::Octet
            },
            pending: self.pending@,
            blksize: self.blksize as nat,
            eof: self.eof,
            final_emitted: self.final_emitted,
        }
    }
}

impl Sender {
    /// A sender at the start of its source.
    pub fn new(mode: Mode, blksize: u16) -> (sender: Sender)
        ensures
            sender@ == SenderView::start(mode, blksize as nat),
    {
        let encoder: Option<ToWire> = match mode {
            Mode::NetAscii => Some(ToWire::new()),
            Mode::Octet => None,
        };
        Sender {
            encoder,
            pending: Vec::new(),
            blksize: blksize as usize,
            eof: false,
            final_emitted: false,
        }
    }

    /// Whether more of the source is needed for the next block.
    pub fn wants_input(&self) -> (wants: bool)
        ensures
            wants == self@.wants_input(),
    {
        !self.eof && self.pending.len() < self.blksize
    }

    /// Length of a full block.
    pub fn blksize(&self) -> (n: usize)
        ensures
            n == self@.blksize,
    {
        self.blksize
    }

    /// Number of encoded bytes that are not in a block yet.
    pub fn pending_len(&self) -> (n: usize)
        ensures
            n == self@.pending.len(),
    {
        self.pending.len()
    }

    /// Takes what one read of the source gave.
    pub fn feed(&mut self, chunk: &[u8])
        requires
            old(self)@.wants_input(),
        ensures
            final(self)@ == old(self)@.fed(chunk@),
    {
        if chunk.len() == 0 {
            self.eof = true;
        } else {
            match &mut self.encoder {
                Some(encoder) => {
                    encoder.translate(chunk, &mut self.pending);
                },
                None => {
                    self.pending.extend_from_slice(chunk);
                    assert(self.pending@ =~= old(self).pending@ + chunk@);
                },
            }
        }
    }

    /// Makes the next block: `blksize` bytes, or fewer at the end of the
    /// source, and none behind that.  A source whose encoded length is a
    /// multiple of `blksize` ends with an empty block, which tells the
    /// receiver that the transfer is complete.
    pub fn next_block(&mut self) -> (block: Option<Vec<u8>>)
        requires
            old(self)@.wf(),
            old(self)@.final_emitted || old(self)@.ready(),
        ensures
            match block {
                Some(data) => {
                    &&& old(self)@.ready()
                    &&& data@ == old(self)@.block()
                    &&& final(self)@ == old(self)@.after_block()
                },
                None => old(self)@.final_emitted && final(self)@ == old(self)@,
            },
    {
        if self.final_emitted {
            return None;
        }
        let take: usize = if self.pending.len() < self.blksize {
            self.pending.len()
        } else {
            self.blksize
        };
        let ghost pending = self.pending@;
        let mut block: Vec<u8> = self.pending.split_off(take);
        std::mem::swap(&mut block, &mut self.pending);
        assert(block@ =~= old(self)@.block());
        assert(self.pending@ =~= pending.skip(take as int));
        if block.len() < self.blksize {
            self.final_emitted = true;
        }
        Some(block)
    }
}

/// A source of bytes that are all in memory.
#[derive(Debug)]
pub struct SliceSource {
    data: Vec<u8>,
    pos: usize,
}

impl View for SliceSource {
    type V = Seq<u8>;

    /// What is left to read.
    closed spec fn view(&self) -> Seq<u8> {
        self.data@.skip(self.pos as int)
    }
}

impl SliceSource {
    pub closed spec fn wf(self) -> bool {
        self.pos <= self.data@.len()
    }

    /// A source that holds a copy of `data`.
    pub fn new(data: &[u8]) -> (source: SliceSource)
        ensures
            source.wf(),
            source@ == data@,
    {
        let source = SliceSource { data: vstd::slice::slice_to_vec(data), pos: 0 };
        assert(source@ =~= data@);
        source
    }

    /// Reads up to `n` bytes.
    pub fn read_chunk(&mut self, n: usize) -> (chunk: Vec<u8>)
        requires
            old(self).wf(),
        ensures
            final(self).wf(),
            chunk@ == old(self)@.take(
                if n < old(self)@.len() {
                    n as int
                } else {
                    old(self)@.len() as int
                },
            ),
            final(self)@ == old(self)@.skip(chunk@.len() as int),
    {
        let left: usize = self.data.len() - self.pos;
        let take: usize = if n < left {
            n
        } else {
            left
        };
        let chunk: Vec<u8> = vstd::slice::slice_to_vec(
            vstd::slice::slice_subrange(self.data.as_slice(), self.pos, self.pos + take),
        );
        assert(chunk@ =~= self@.take(take as int));
        self.pos = self.pos + take;
        assert(self@ =~= old(self)@.skip(take as int));
        chunk
    }
}

/// The number of the block `k` places behind block `first`.  Numbers start
/// over at 0 behind the highest.
pub open spec fn number_after(first: u16, k: int) -> u16 {
    ((first + k) % 0x10000) as u16
}

/// How many blocks block `bn` lies before block `ack`, counted around the end
/// of the numbers.
pub open spec fn distance(bn: u16, ack: u16) -> int {
    (ack - bn) % 0x10000
}

/// Whether `bn` is one of the `windowsize` blocks of which `ack` is the last.
pub open spec fn in_window_up_to(bn: u16, ack: u16, windowsize: u16) -> bool {
    distance(bn, ack) < windowsize
}

/// Whether `bn` lies between `ack - windowsize`, which is left out, and `ack`,
/// which is not, in arithmetic that starts over at 0 behind the highest block
/// number.
pub fn u16_le_in_window(bn: u16, ack: u16, windowsize: u16) -> (within: bool)
    ensures
        within == in_window_up_to(bn, ack, windowsize),
{
    ack.wrapping_sub(bn) < windowsize
}

/// A numbered data block.
pub type Numbered = (u16, Seq<u8>);

/// What the blocks in a queue stand for.
pub open spec fn numbered(queue: Seq<(u16, Vec<u8>)>) -> Seq<Numbered> {
    queue.map_values(|b: (u16, Vec<u8>)| (b.0, b.1@))
}

/// How many blocks at the front of `in_flight` an acknowledgement of block
/// `ack` covers if that block must be in flight: those up to and with it, and
/// none if it is not there.
pub open spec fn acked_in_flight(in_flight: Seq<Numbered>, ack: u16) -> nat
    decreases in_flight.len(),
{
    if in_flight.len() == 0 {
        0
    } else if in_flight[0].0 == ack {
        1
    } else {
        let behind = acked_in_flight(in_flight.drop_first(), ack);
        if behind > 0 {
            behind + 1
        } else {
            0
        }
    }
}

/// How many blocks at the front of `in_flight` an acknowledgement of block
/// `ack` covers if any block will do that could be in the same window: those
/// in the window that ends with `ack`, up to and with the block itself.
pub open spec fn acked_in_window(in_flight: Seq<Numbered>, ack: u16, windowsize: u16) -> nat
    decreases in_flight.len(),
{
    if in_flight.len() == 0 {
        0
    } else if in_flight[0].0 == ack {
        1
    } else if in_window_up_to(in_flight[0].0, ack, windowsize) {
        1 + acked_in_window(in_flight.drop_first(), ack, windowsize)
    } else {
        0
    }
}

/// How many blocks at the front of `in_flight` an acknowledgement of block
/// `ack` covers.  A server counts only blocks in flight as acknowledged; a
/// client also goes by the window.
pub open spec fn acked(
    in_flight: Seq<Numbered>,
    ack: u16,
    windowsize: u16,
    serving: bool,
) -> nat {
    if serving {
        acked_in_flight(in_flight, ack)
    } else {
        acked_in_window(in_flight, ack, windowsize)
    }
}

proof fn acked_in_flight_within(in_flight: Seq<Numbered>, ack: u16)
    ensures
        acked_in_flight(in_flight, ack) <= in_flight.len(),
    decreases in_flight.len(),
{
    if in_flight.len() > 0 {
        acked_in_flight_within(in_flight.drop_first(), ack);
    }
}

proof fn acked_in_window_within(in_flight: Seq<Numbered>, ack: u16, windowsize: u16)
    ensures
        acked_in_window(in_flight, ack, windowsize) <= in_flight.len(),
    decreases in_flight.len(),
{
    if in_flight.len() > 0 {
        acked_in_window_within(in_flight.drop_first(), ack, windowsize);
    }
}

/// An acknowledgement covers no more blocks than there are.
pub proof fn acked_within(in_flight: Seq<Numbered>, ack: u16, windowsize: u16, serving: bool)
    ensures
        acked(in_flight, ack, windowsize, serving) <= in_flight.len(),
{
    acked_in_flight_within(in_flight, ack);
    acked_in_window_within(in_flight, ack, windowsize);
}

/// The first block numbered `ack`, at index `at`, and those before it are what
/// an acknowledgement covers that must be of a block in flight.  With no such
/// block, where `at` is the length, it covers none.
pub proof fn acked_in_flight_is(in_flight: Seq<Numbered>, ack: u16, at: int)
    requires
        0 <= at <= in_flight.len(),
        at < in_flight.len() ==> in_flight[at].0 == ack,
        forall|i: int| 0 <= i < at ==> (#[trigger] in_flight[i]).0 != ack,
    ensures
        acked_in_flight(in_flight, ack) == (if at < in_flight.len() {
            at + 1
        } else {
            0
        }),
    decreases in_flight.len(),
{
    if in_flight.len() > 0 && at > 0 {
        let rest = in_flight.drop_first();
        assert(in_flight[0].0 != ack);
        assert forall|i: int| 0 <= i < at - 1 implies (#[trigger] rest[i]).0 != ack by {
            assert(rest[i] == in_flight[i + 1]);
        }
        acked_in_flight_is(rest, ack, at - 1);
    }
}

/// Removes the block that is acknowledged and those before it.  Says whether
/// there were any; an acknowledgement of a block that is not in flight
/// removes none.
pub fn consume_ack(in_flight: &mut VecDeque<(u16, Vec<u8>)>, ack: u16) -> (advanced: bool)
    ensures
        final(in_flight)@ == old(in_flight)@.skip(
            acked_in_flight(numbered(old(in_flight)@), ack) as int,
        ),
        advanced == (acked_in_flight(numbered(old(in_flight)@), ack) > 0),
{
    let ghost start = in_flight@;
    let n: usize = in_flight.len();
    for i in 0..n
        invariant
            in_flight@ == start,
            start == old(in_flight)@,
            n == start.len(),
            forall|j: int| 0 <= j < i ==> (#[trigger] numbered(start)[j]).0 != ack,
    {
        assert(numbered(start)[i as int] == (start[i as int].0, start[i as int].1@));
        if in_flight[i].0 == ack {
            proof {
                acked_in_flight_is(numbered(start), ack, i as int);
            }
            let mut rest: VecDeque<(u16, Vec<u8>)> = in_flight.split_off(i + 1);
            std::mem::swap(in_flight, &mut rest);
            assert(in_flight@ =~= start.skip(i + 1));
            return true;
        }
    }
    proof {
        acked_in_flight_is(numbered(start), ack, n as int);
        assert(start.skip(0) =~= start);
    }
    false
}

/// Removes the blocks of the window that ends with the acknowledged block.
/// Says whether there were any.  The block itself need not be in flight.
pub fn consume_ack_in_window(
    in_flight: &mut VecDeque<(u16, Vec<u8>)>,
    ack: u16,
    windowsize: u16,
) -> (advanced: bool)
    ensures
        final(in_flight)@ == old(in_flight)@.skip(
            acked_in_window(numbered(old(in_flight)@), ack, windowsize) as int,
        ),
        advanced == (acked_in_window(numbered(old(in_flight)@), ack, windowsize) > 0),
{
    let ghost start = in_flight@;
    let ghost goal = acked_in_window(numbered(start), ack, windowsize);
    let mut advanced: bool = false;
    proof {
        acked_in_window_within(numbered(start), ack, windowsize);
        assert(start.skip(0) =~= start);
    }
    while in_flight.len() > 0
        invariant_except_break
            goal == (start.len() - in_flight@.len()) + acked_in_window(
                numbered(in_flight@),
                ack,
                windowsize,
            ),
        invariant
            in_flight@.len() <= start.len(),
            in_flight@ == start.skip(start.len() - in_flight@.len()),
            advanced == (in_flight@.len() < start.len()),
        ensures
            goal == start.len() - in_flight@.len(),
        decreases in_flight@.len(),
    {
        let bn: u16 = in_flight[0].0;
        let ghost before = in_flight@;
        assert(numbered(before)[0] == (bn, before[0].1@));
        assert(numbered(before).drop_first() =~= numbered(before.drop_first()));
        if bn == ack {
            in_flight.pop_front();
            advanced = true;
            assert(in_flight@ =~= start.skip(start.len() - in_flight@.len()));
            break ;
        }
        if u16_le_in_window(bn, ack, windowsize) {
            in_flight.pop_front();
            advanced = true;
            assert(in_flight@ =~= before.drop_first());
            assert(in_flight@ =~= start.skip(start.len() - in_flight@.len()));
        } else {
            break ;
        }
    }
    advanced
}

/// Whether the blocks have consecutive numbers, the last of them just before
/// `next`.
pub open spec fn consecutive(in_flight: Seq<Numbered>, next: u16) -> bool {
    forall|i: int|
        0 <= i < in_flight.len() ==> (#[trigger] in_flight[i]).0 == number_after(
            next,
            i - in_flight.len(),
        )
}

/// Counting on by one commutes with counting.
proof fn number_after_next(first: u16, k: int)
    ensures
        number_after(number_after(first, k), 1) == number_after(first, k + 1),
{
}

/// A block is at no distance from itself only, and the next block is one
/// nearer to any other.
proof fn next_is_nearer(bn: u16, ack: u16)
    ensures
        distance(bn, ack) >= 0,
        distance(bn, ack) == 0 <==> bn == ack,
        bn != ack ==> distance(number_after(bn, 1), ack) == distance(bn, ack) - 1,
{
}

proof fn acks_in_flight_are_cumulative(in_flight: Seq<Numbered>, next: u16, ack: u16)
    requires
        consecutive(in_flight, next),
        0 < in_flight.len(),
    ensures
        acked_in_flight(in_flight, ack) == (if distance(in_flight[0].0, ack) < in_flight.len() {
            distance(in_flight[0].0, ack) + 1
        } else {
            0
        }),
    decreases in_flight.len(),
{
    let first = in_flight[0].0;
    let rest = in_flight.drop_first();
    next_is_nearer(first, ack);
    if first != ack {
        if rest.len() > 0 {
            rest_is_consecutive(in_flight, next);
            acks_in_flight_are_cumulative(rest, next, ack);
        } else {
            assert(acked_in_flight(rest, ack) == 0);
        }
    }
}

proof fn acks_in_window_are_cumulative(
    in_flight: Seq<Numbered>,
    next: u16,
    ack: u16,
    windowsize: u16,
)
    requires
        consecutive(in_flight, next),
        0 < in_flight.len() <= windowsize,
    ensures
        ({
            let ahead = distance(in_flight[0].0, ack);
            acked_in_window(in_flight, ack, windowsize) == (if ahead < in_flight.len() {
                ahead + 1
            } else if ahead < windowsize {
                in_flight.len() as int
            } else {
                0
            })
        }),
    decreases in_flight.len(),
{
    let first = in_flight[0].0;
    let rest = in_flight.drop_first();
    next_is_nearer(first, ack);
    if first != ack && in_window_up_to(first, ack, windowsize) {
        if rest.len() > 0 {
            rest_is_consecutive(in_flight, next);
            acks_in_window_are_cumulative(rest, next, ack, windowsize);
        } else {
            assert(acked_in_window(rest, ack, windowsize) == 0);
        }
    }
}

/// Without the first block, the others have consecutive numbers still.
proof fn rest_is_consecutive(in_flight: Seq<Numbered>, next: u16)
    requires
        consecutive(in_flight, next),
        1 < in_flight.len(),
    ensures
        consecutive(in_flight.drop_first(), next),
        in_flight.drop_first()[0].0 == number_after(in_flight[0].0, 1),
{
    let rest = in_flight.drop_first();
    assert(rest[0] == in_flight[1]);
    number_after_next(next, -in_flight.len());
    assert forall|i: int| 0 <= i < rest.len() implies (#[trigger] rest[i]).0 == number_after(
        next,
        i - rest.len(),
    ) by {
        assert(rest[i] == in_flight[i + 1]);
    }
}

proof fn distance_within(next: u16, n: int, k: int)
    requires
        0 <= k < n <= 0xffff,
    ensures
        distance(number_after(next, -n), number_after(next, k - n)) == k,
{
}

/// An acknowledgement of a block in flight takes away that block and all
/// before it, and no other.  One of any other block takes away none at a
/// server; at a client it takes away all if it is of a block behind those in
/// flight that the window would still have room for, and otherwise none.
pub proof fn acks_are_cumulative(
    in_flight: Seq<Numbered>,
    next: u16,
    ack: u16,
    windowsize: u16,
    serving: bool,
)
    requires
        consecutive(in_flight, next),
        0 < in_flight.len() <= windowsize,
    ensures
        forall|k: int|
            0 <= k < in_flight.len() && (#[trigger] in_flight[k]).0 == ack ==> acked(
                in_flight,
                ack,
                windowsize,
                serving,
            ) == k + 1,
        serving && (forall|k: int|
            0 <= k < in_flight.len() ==> (#[trigger] in_flight[k]).0 != ack) ==> acked(
            in_flight,
            ack,
            windowsize,
            serving,
        ) == 0,
        ({
            let ahead = distance(in_flight[0].0, ack);
            acked(in_flight, ack, windowsize, serving) == (if ahead < in_flight.len() {
                ahead + 1
            } else if !serving && ahead < windowsize {
                in_flight.len() as int
            } else {
                0
            })
        }),
{
    acks_in_flight_are_cumulative(in_flight, next, ack);
    acks_in_window_are_cumulative(in_flight, next, ack, windowsize);
    if forall|k: int| 0 <= k < in_flight.len() ==> (#[trigger] in_flight[k]).0 != ack {
        acked_in_flight_is(in_flight, ack, in_flight.len() as int);
    }
    assert forall|k: int| 0 <= k < in_flight.len() && (#[trigger] in_flight[k]).0 == ack implies
        acked(in_flight, ack, windowsize, serving) == k + 1 by {
        assert(in_flight[0].0 == number_after(next, -in_flight.len()));
        distance_within(next, in_flight.len() as int, k);
    }
}

/// What a [`Window`] stands for.
#[verifier::ext_equal]
pub struct WindowView {
    /// Where the blocks come from.
    pub sender: SenderView,
    /// How many blocks may be in flight.
    pub windowsize: u16,
    /// Blocks that were sent and not acknowledged yet, the oldest first.
    pub in_flight: Seq<Numbered>,
    /// The number of the block behind them.
    pub next_block: u16,
}

impl WindowView {
    /// The window before the first block, which has the number 1.
    pub open spec fn start(mode: Mode, blksize: nat, windowsize: u16) -> WindowView {
        WindowView {
            sender: SenderView::start(mode, blksize),
            windowsize,
            in_flight: Seq::empty(),
            next_block: 1,
        }
    }

    /// There is no more in flight than the window holds, under consecutive
    /// numbers, and only the last block of all is short.
    pub open spec fn wf(self) -> bool {
        &&& self.sender.wf()
        &&& 0 < self.windowsize
        &&& self.in_flight.len() <= self.windowsize
        &&& consecutive(self.in_flight, self.next_block)
        &&& forall|i: int|
            0 <= i < self.in_flight.len() ==> (#[trigger] self.in_flight[i]).1.len()
                <= self.sender.blksize
        &&& forall|i: int|
            0 <= i < self.in_flight.len() ==> ((#[trigger] self.in_flight[i]).1.len()
                < self.sender.blksize <==> self.sender.final_emitted && i == self.in_flight.len()
                - 1)
    }

    /// Whether more of the source is needed to fill the window.
    pub open spec fn wants_input(self) -> bool {
        self.in_flight.len() < self.windowsize && self.sender.wants_input()
    }

    /// The window after one read of the source.
    pub open spec fn fed(self, chunk: Seq<u8>) -> WindowView {
        WindowView { sender: self.sender.fed(chunk), ..self }
    }

    /// The window with one more block.
    pub open spec fn with_block(self) -> WindowView {
        WindowView {
            sender: self.sender.after_block(),
            in_flight: self.in_flight.push((self.next_block, self.sender.block())),
            next_block: number_after(self.next_block, 1),
            ..self
        }
    }

    /// The window with as many more blocks as it has room for and as can be
    /// made from what was read.
    pub open spec fn filled(self) -> WindowView
        decreases self.windowsize - self.in_flight.len(),
    {
        if self.in_flight.len() < self.windowsize && self.sender.ready() {
            self.with_block().filled()
        } else {
            self
        }
    }

    /// How many blocks in flight an acknowledgement covers.
    pub open spec fn acked_by(self, ack: u16, serving: bool) -> nat {
        acked(self.in_flight, ack, self.windowsize, serving)
    }

    /// The window without the blocks that an acknowledgement covers.
    pub open spec fn acknowledged(self, ack: u16, serving: bool) -> WindowView {
        WindowView {
            in_flight: self.in_flight.skip(self.acked_by(ack, serving) as int),
            ..self
        }
    }

    /// Whether an acknowledgement covers any block in flight.
    pub open spec fn advanced_by(self, ack: u16, serving: bool) -> bool {
        self.acked_by(ack, serving) > 0
    }

    /// The datagrams with the blocks in flight.
    pub open spec fn datagrams(self, to: SocketAddr) -> Seq<OutputView> {
        self.in_flight.map_values(
            |b: Numbered| send_view(to, PacketView::Data { block: b.0, data: b.1 }),
        )
    }

    /// The number of the oldest block in flight; of the next one if none is.
    pub open spec fn first_number(self) -> u16 {
        number_after(self.next_block, -self.in_flight.len())
    }

    /// Whether the window has room only because the source has to be read
    /// first or has no block left.
    pub open spec fn settled(self) -> bool {
        self.wants_input() || self.in_flight.len() == self.windowsize || self.sender.final_emitted
    }

    /// All blocks that are not acknowledged: those in flight, then those
    /// still to come, where `rest` is what the source still holds.
    pub open spec fn outstanding(self, rest: Seq<u8>) -> Seq<Seq<u8>> {
        self.in_flight.map_values(|b: Numbered| b.1) + self.sender.to_come(rest)
    }
}

/// One more block keeps a window well-formed and what is outstanding.
proof fn with_block_keeps(w: WindowView, rest: Seq<u8>)
    requires
        w.wf(),
        w.in_flight.len() < w.windowsize,
        w.sender.ready(),
        w.sender.eof ==> rest.len() == 0,
    ensures
        w.with_block().wf(),
        w.with_block().outstanding(rest) == w.outstanding(rest),
{
    let next = w.with_block();
    next_block_is_first_to_come(w.sender, rest);
    assert forall|i: int| 0 <= i < next.in_flight.len() implies (#[trigger] next.in_flight[i]).0
        == number_after(next.next_block, i - next.in_flight.len()) by {
        if i < w.in_flight.len() {
            assert(next.in_flight[i] == w.in_flight[i]);
        }
    }
    assert(next.outstanding(rest) =~= w.outstanding(rest));
}

/// Filling a window, for one, takes blocks only from those to come, in order:
/// what is outstanding stays the same.  For another, it leaves room in the
/// window only where the source has to be read first or has no block left.
pub proof fn filling_keeps_what_is_outstanding(w: WindowView, rest: Seq<u8>)
    requires
        w.wf(),
        w.sender.eof ==> rest.len() == 0,
    ensures
        w.filled().wf(),
        w.filled().outstanding(rest) == w.outstanding(rest),
        w.filled().sender.eof == w.sender.eof,
        w.filled().sender.mode == w.sender.mode,
        w.filled().sender.blksize == w.sender.blksize,
        w.filled().windowsize == w.windowsize,
        w.filled().in_flight.len() >= w.in_flight.len(),
        w.filled().settled(),
        w.filled().first_number() == w.first_number(),
    decreases w.windowsize - w.in_flight.len(),
{
    if w.in_flight.len() < w.windowsize && w.sender.ready() {
        with_block_keeps(w, rest);
        filling_keeps_what_is_outstanding(w.with_block(), rest);
        first_number_stays(w.next_block, w.in_flight.len() as int);
    }
}

/// Filling a window only moves bytes from those pending into blocks.
pub proof fn filling_takes_from_pending(w: WindowView)
    ensures
        w.filled().sender.pending.len() <= w.sender.pending.len(),
    decreases w.windowsize - w.in_flight.len(),
{
    if w.in_flight.len() < w.windowsize && w.sender.ready() {
        filling_takes_from_pending(w.with_block());
    }
}

/// One more block in flight moves the next number on, not the first.
proof fn first_number_stays(next: u16, n: int)
    ensures
        number_after(number_after(next, 1), -(n + 1)) == number_after(next, -n),
{
}

/// Reading more of the source, however it is cut, keeps what is outstanding.
pub proof fn reading_keeps_what_is_outstanding(w: WindowView, chunk: Seq<u8>, rest: Seq<u8>)
    requires
        w.wf(),
        w.wants_input(),
        chunk.len() == 0 ==> rest.len() == 0,
    ensures
        w.fed(chunk).wf(),
        w.fed(chunk).outstanding(rest) == w.outstanding(chunk + rest),
{
    feeding_keeps_what_is_to_come(w.sender, chunk, rest);
}

/// An acknowledgement takes the blocks that it covers away from the front of
/// what is outstanding.
pub proof fn acks_take_from_what_is_outstanding(
    w: WindowView,
    ack: u16,
    serving: bool,
    rest: Seq<u8>,
)
    requires
        w.wf(),
    ensures
        w.acknowledged(ack, serving).wf(),
        w.acknowledged(ack, serving).outstanding(rest) == w.outstanding(rest).skip(
            w.acked_by(ack, serving) as int,
        ),
{
    let n = w.acked_by(ack, serving) as int;
    acked_within(w.in_flight, ack, w.windowsize, serving);
    let next = w.acknowledged(ack, serving);
    assert forall|i: int| 0 <= i < next.in_flight.len() implies (#[trigger] next.in_flight[i]).0
        == number_after(next.next_block, i - next.in_flight.len()) && next.in_flight[i].1.len()
        <= next.sender.blksize && (next.in_flight[i].1.len() < next.sender.blksize
        <==> next.sender.final_emitted && i == next.in_flight.len() - 1) by {
        assert(next.in_flight[i] == w.in_flight[i + n]);
    }
    assert(next.outstanding(rest) =~= w.outstanding(rest).skip(n));
}

/// A window that has no block in flight after it was filled, and needs
/// nothing from the source, has nothing outstanding: the transfer is done.
pub proof fn empty_window_means_done(w: WindowView, rest: Seq<u8>)
    requires
        w.wf(),
        w.sender.eof ==> rest.len() == 0,
        !w.filled().wants_input(),
        w.filled().in_flight.len() == 0,
    ensures
        w.outstanding(rest).len() == 0,
{
    filling_keeps_what_is_outstanding(w, rest);
}

/// The window of blocks that await acknowledgement.
#[derive(Debug)]
pub struct Window {
    sender: Sender,
    windowsize: u16,
    in_flight: VecDeque<(u16, Vec<u8>)>,
    next_block: u16,
}

impl View for Window {
    type V = WindowView;

    closed spec fn view(&self) -> WindowView {
        WindowView {
            sender: self.sender@,
            windowsize: self.windowsize,
            in_flight: numbered(self.in_flight@),
            next_block: self.next_block,
        }
    }
}

impl Window {
    /// A window before the first block.
    pub fn new(mode: Mode, blksize: u16, windowsize: u16) -> (window: Window)
        requires
            blksize > 0,
            windowsize > 0,
        ensures
            window@ == WindowView::start(mode, blksize as nat, windowsize),
            window@.wf(),
    {
        let window = Window {
            sender: Sender::new(mode, blksize),
            windowsize,
            in_flight: VecDeque::new(),
            next_block: 1,
        };
        assert(window@ =~= WindowView::start(mode, blksize as nat, windowsize));
        window
    }

    /// Whether more of the source is needed to fill the window.
    pub fn wants_input(&self) -> (wants: bool)
        ensures
            wants == self@.wants_input(),
    {
        self.in_flight.len() < self.windowsize as usize && self.sender.wants_input()
    }

    /// Whether no block is in flight.
    pub fn is_empty(&self) -> (empty: bool)
        ensures
            empty == (self@.in_flight.len() == 0),
    {
        self.in_flight.len() == 0
    }

    /// Length of a full block.
    pub fn blksize(&self) -> (n: usize)
        ensures
            n == self@.sender.blksize,
    {
        self.sender.blksize()
    }

    /// Number of encoded bytes that are not in a block yet.
    pub fn pending_len(&self) -> (n: usize)
        ensures
            n == self@.sender.pending.len(),
    {
        self.sender.pending_len()
    }

    /// Takes what one read of the source gave.
    pub fn feed(&mut self, chunk: &[u8])
        requires
            old(self)@.wf(),
            old(self)@.wants_input(),
        ensures
            final(self)@ == old(self)@.fed(chunk@),
            final(self)@.wf(),
    {
        self.sender.feed(chunk);
        assert(self@ =~= old(self)@.fed(chunk@));
    }

    /// Fills the window as far as what was read allows.  Block numbers wrap
    /// to 0 behind the highest.
    pub fn fill(&mut self)
        requires
            old(self)@.wf(),
        ensures
            final(self)@ == old(self)@.filled(),
            final(self)@.wf(),
            final(self)@.sender.pending.len() <= old(self)@.sender.pending.len(),
    {
        let ghost goal = self@.filled();
        while self.in_flight.len() < self.windowsize as usize && !self.sender.wants_input()
            invariant_except_break
                self@.filled() == goal,
            invariant
                self@.wf(),
                self@.sender.pending.len() <= old(self)@.sender.pending.len(),
            ensures
                self@ == goal,
            decreases self@.windowsize - self@.in_flight.len(),
        {
            let ghost before = self@;
            proof {
                if before.sender.ready() {
                    with_block_keeps(before, Seq::empty());
                }
            }
            match self.sender.next_block() {
                Some(block) => {
                    self.in_flight.push_back((self.next_block, block));
                    self.next_block = self.next_block.wrapping_add(1);
                    assert(self@.in_flight =~= before.with_block().in_flight);
                    assert(self@ =~= before.with_block());
                },
                None => {
                    assert(self@ =~= before);
                    break ;
                },
            }
        }
    }

    /// The datagrams with the blocks in flight, for `to`.
    pub(crate) fn datagrams(&self, to: SocketAddr) -> (outputs: Vec<Output>)
        requires
            self@.wf(),
        ensures
            outputs_view(outputs@) == self@.datagrams(to),
    {
        let mut outputs: Vec<Output> = Vec::new();
        let n: usize = self.in_flight.len();
        for i in 0..n
            invariant
                n == self.in_flight@.len(),
                self@.wf(),
                outputs_view(outputs@) == self@.datagrams(to).take(i as int),
        {
            let block = &self.in_flight[i];
            assert(self@.in_flight[i as int] == (block.0, block.1@));
            let ghost made = outputs@;
            outputs.push(send_data(to, block.0, block.1.as_slice()));
            assert(outputs_view(outputs@) =~= outputs_view(made).push(outputs@.last()@));
            assert(outputs_view(outputs@) =~= self@.datagrams(to).take(i + 1));
        }
        assert(self@.datagrams(to).take(n as int) =~= self@.datagrams(to));
        outputs
    }

    /// Takes an acknowledgement, as a server or as a client.  Says whether it
    /// covered any block.
    pub fn acknowledge(&mut self, ack: u16, serving: bool) -> (advanced: bool)
        requires
            old(self)@.wf(),
        ensures
            advanced == old(self)@.advanced_by(ack, serving),
            final(self)@ == old(self)@.acknowledged(ack, serving),
            final(self)@.wf(),
    {
        let ghost before = self@;
        proof {
            acks_take_from_what_is_outstanding(before, ack, serving, Seq::empty());
            acked_within(before.in_flight, ack, before.windowsize, serving);
        }
        let advanced = if serving {
            consume_ack(&mut self.in_flight, ack)
        } else {
            consume_ack_in_window(&mut self.in_flight, ack, self.windowsize)
        };
        assert(self@ =~= before.acknowledged(ack, serving));
        advanced
    }
}

/// In octet mode bytes go out as they are, in netascii mode as a text does.
pub proof fn only_netascii_is_encoded(s: Seq<u8>)
    ensures
        encoded(Mode::Octet, s) == s,
        encoded(Mode::NetAscii, s) == to_wire(s),
{
}

/// The blocks of a stream, put together again in their order, are the stream.
/// There are as many as fit in full, and one that is shorter behind them.
pub proof fn blocks_are_cut_in_order(stream: Seq<u8>, blksize: nat)
    requires
        blksize > 0,
    ensures
        blocks_of(stream, blksize).flatten() == stream,
        blocks_of(stream, blksize).len() == stream.len() / blksize + 1,
        forall|i: int|
            0 <= i < stream.len() / blksize ==> (#[trigger] blocks_of(stream, blksize)[i]).len()
                == blksize,
        blocks_of(stream, blksize).last().len() < blksize,
    decreases stream.len(),
{
    blocks_carry_the_stream(stream, blksize);
    let blocks = blocks_of(stream, blksize);
    vstd::arithmetic::div_mod::lemma_mod_bound(stream.len() as int, blksize as int);
    if stream.len() < blksize {
        blocks.lemma_flatten_one_element();
    } else {
        let rest = stream.skip(blksize as int);
        blocks_are_cut_in_order(rest, blksize);
        assert(blocks.drop_first() =~= blocks_of(rest, blksize));
        assert(blocks.flatten() =~= stream);
    }
}

/// A sender starts with nothing read.  It wants input as long as it has less
/// than a block and the end was not seen; what it reads it keeps, encoded,
/// behind what it has, and a read of nothing is the end.
pub proof fn what_is_read_is_kept(s: SenderView, mode: Mode, blksize: nat, chunk: Seq<u8>)
    ensures
        SenderView::start(mode, blksize) == (SenderView {
            mode,
            pending: Seq::empty(),
            blksize,
            eof: false,
            final_emitted: false,
        }),
        s.wants_input() <==> !s.eof && s.pending.len() < s.blksize,
        chunk.len() == 0 ==> s.fed(chunk) == (SenderView { eof: true, ..s }),
        chunk.len() > 0 && s.mode == Mode::Octet ==> s.fed(chunk) == (SenderView {
            pending: s.pending + chunk,
            ..s
        }),
        chunk.len() > 0 && s.mode == Mode::NetAscii ==> s.fed(chunk) == (SenderView {
            pending: s.pending + to_wire(chunk),
            ..s
        }),
{
}

/// A block is made when there is a full one, or once the end was seen and
/// until a short one was made.  It is the front of what was read, of a
/// block's length or all that there is, and what is behind it stays.
pub proof fn blocks_are_made_from_the_front(s: SenderView)
    requires
        s.wf(),
    ensures
        s.ready() <==> !s.final_emitted && (s.eof || s.pending.len() >= s.blksize),
        s.block() + s.after_block().pending == s.pending,
        s.block().len() == s.blksize || (s.block().len() < s.blksize
            && s.after_block().pending.len() == 0),
        s.after_block().final_emitted <==> s.block().len() < s.blksize,
        s.after_block().eof == s.eof,
        s.after_block().mode == s.mode,
        s.after_block().blksize == s.blksize,
{
}

/// Filling a window leaves alone how it makes blocks and how many it holds.
pub(crate) proof fn filling_keeps_the_terms(w: WindowView)
    ensures
        w.filled().windowsize == w.windowsize,
        w.filled().sender.mode == w.sender.mode,
        w.filled().sender.blksize == w.sender.blksize,
        w.filled().sender.eof == w.sender.eof,
    decreases w.windowsize - w.in_flight.len(),
{
    if w.in_flight.len() < w.windowsize && w.sender.ready() {
        filling_keeps_the_terms(w.with_block());
    }
}

/// The blocks in flight are numbered one by one, with 0 behind 65535, and the
/// next block continues the count.
pub proof fn numbers_count_up(w: WindowView)
    requires
        w.wf(),
    ensures
        forall|i: int, j: int|
            0 <= i < w.in_flight.len() && j == i + 1 && j < w.in_flight.len()
                ==> #[trigger] w.in_flight[j].0 == (if #[trigger] w.in_flight[i].0 == 65535 {
                0
            } else {
                w.in_flight[i].0 + 1
            }),
        w.in_flight.len() > 0 ==> w.next_block == (if w.in_flight.last().0 == 65535 {
            0
        } else {
            w.in_flight.last().0 + 1
        }),
{
    let n = w.in_flight.len() as int;
    assert forall|i: int, j: int|
        0 <= i < w.in_flight.len() && j == i + 1 && j
            < w.in_flight.len() implies #[trigger] w.in_flight[j].0 == (
    if #[trigger] w.in_flight[i].0 == 65535 {
        0
    } else {
        w.in_flight[i].0 + 1
    }) by {
        assert(w.in_flight[j].0 == number_after(w.next_block, j - n));
        assert(w.in_flight[i].0 == number_after(w.next_block, i - n));
    }
    if n > 0 {
        assert(w.in_flight[n - 1].0 == number_after(w.next_block, -1));
    }
}

/// Filling a window keeps the blocks in flight and their numbers, and puts
/// new ones behind them, the first of them under the number that was next.
/// The new blocks, in order, are what was pending and is so no longer.  All
/// but the last of the source are full.
pub proof fn filling_moves_what_was_read(w: WindowView)
    requires
        w.wf(),
    ensures
        ({
            let old_len = w.in_flight.len() as int;
            let all = w.filled().in_flight;
            let new = all.skip(old_len);
            &&& all.len() >= old_len
            &&& all.take(old_len) == w.in_flight
            &&& new.len() > 0 ==> new[0].0 == w.next_block
            &&& new.len() == 0 ==> w.filled() == w
            &&& new.map_values(|b: Numbered| b.1).flatten() + w.filled().sender.pending
                == w.sender.pending
            &&& forall|i: int|
                0 <= i < new.len() ==> ((#[trigger] new[i]).1.len() == w.sender.blksize || (
                new[i].1.len() < w.sender.blksize && i == new.len() - 1
                    && w.filled().sender.final_emitted))
        }),
    decreases w.windowsize - w.in_flight.len(),
{
    let old_len = w.in_flight.len() as int;
    let all = w.filled().in_flight;
    let new = all.skip(old_len);
    let data = |b: Numbered| b.1;
    if w.in_flight.len() < w.windowsize && w.sender.ready() {
        let one = w.with_block();
        let rest = all.skip(old_len + 1);
        with_block_keeps_wf(w);
        filling_moves_what_was_read(one);
        assert(all.take(old_len + 1) == one.in_flight);
        assert(all[old_len] == one.in_flight[old_len]) by {
            assert(all.take(old_len + 1)[old_len] == all[old_len]);
        }
        assert(all.take(old_len) =~= w.in_flight) by {
            assert forall|i: int| 0 <= i < old_len implies all[i] == w.in_flight[i] by {
                assert(all.take(old_len + 1)[i] == all[i]);
                assert(one.in_flight[i] == w.in_flight[i]);
            }
        }
        assert(new[0] == all[old_len]);
        assert(new.drop_first() =~= rest);
        assert(new.map_values(data).drop_first() =~= rest.map_values(data));
        assert(new.map_values(data)[0] == w.sender.block());
        assert(new.map_values(data).flatten() == w.sender.block() + rest.map_values(
            data,
        ).flatten());
        assert(new.map_values(data).flatten() + w.filled().sender.pending =~= w.sender.block() + (
        rest.map_values(data).flatten() + w.filled().sender.pending));
        if w.sender.block().len() < w.sender.blksize {
            assert(one.filled() == one);
            assert(rest =~= Seq::<Numbered>::empty());
        }
        assert forall|i: int| 0 <= i < new.len() implies ((#[trigger] new[i]).1.len()
            == w.sender.blksize || (new[i].1.len() < w.sender.blksize && i == new.len() - 1
            && w.filled().sender.final_emitted)) by {
            if i > 0 {
                assert(new[i] == rest[i - 1]);
            }
        }
    } else {
        assert(new =~= Seq::<Numbered>::empty());
        assert(new.map_values(data) =~= Seq::<Seq<u8>>::empty());
        assert(new.map_values(data).flatten() + w.sender.pending =~= w.sender.pending);
        assert(all.take(old_len) =~= w.in_flight);
    }
}

/// One more block keeps a window well-formed.
proof fn with_block_keeps_wf(w: WindowView)
    requires
        w.wf(),
        w.in_flight.len() < w.windowsize,
        w.sender.ready(),
    ensures
        w.with_block().wf(),
{
    with_block_keeps(w, Seq::empty());
}

/// How far an acknowledgement reaches, in plain numbers: `ahead` is how many
/// blocks the acknowledged one lies behind the oldest in flight, counted
/// around the end of the numbers.
pub proof fn acks_reach_this_far(w: WindowView, ack: u16, serving: bool, ahead: int)
    requires
        w.wf(),
        w.in_flight.len() > 0,
        0 <= ahead < 65536,
        w.in_flight[0].0 + ahead == ack || w.in_flight[0].0 + ahead == ack + 65536,
    ensures
        ({
            let n = if ahead < w.in_flight.len() {
                ahead + 1
            } else if !serving && ahead < w.windowsize {
                w.in_flight.len() as int
            } else {
                0
            };
            &&& w.acknowledged(ack, serving) == (WindowView {
                in_flight: w.in_flight.skip(n),
                ..w
            })
            &&& w.advanced_by(ack, serving) <==> n > 0
        }),
{
    acks_are_cumulative(w.in_flight, w.next_block, ack, w.windowsize, serving);
    assert(distance(w.in_flight[0].0, ack) == ahead);
}

/// The window test in plain numbers: counting on from `bn`, around the end of
/// the numbers, `ack` is reached in fewer than `windowsize` steps.
pub proof fn window_test_counts_steps(bn: u16, ack: u16, windowsize: u16, steps: int)
    requires
        0 <= steps < 65536,
        bn + steps == ack || bn + steps == ack + 65536,
    ensures
        in_window_up_to(bn, ack, windowsize) <==> steps < windowsize,
{
}

/// Each queued block stands for its number and its bytes.
pub proof fn queued_blocks_are_seen_whole(queue: Seq<(u16, Vec<u8>)>)
    ensures
        numbered(queue).len() == queue.len(),
        forall|i: int|
            0 <= i < queue.len() ==> #[trigger] numbered(queue)[i] == (queue[i].0, queue[i].1@),
{
}

/// The datagrams of a window carry its blocks, one each, in their order.
pub proof fn datagrams_carry_the_blocks(w: WindowView, to: SocketAddr)
    ensures
        w.datagrams(to).len() == w.in_flight.len(),
        forall|i: int|
            0 <= i < w.in_flight.len() ==> #[trigger] w.datagrams(to)[i] == (OutputView::Send {
                to,
                datagram: packet_wire(
                    PacketView::Data { block: w.in_flight[i].0, data: w.in_flight[i].1 },
                ),
            }),
{
}

/// Going by the window, an acknowledgement covers blocks from the front on
/// as long as they lie in the window that ends with the acknowledged block,
/// and none behind that block.  Here `at` is the first place with that block
/// or with one outside of the window; the length if there is none.
pub proof fn acked_in_window_is(in_flight: Seq<Numbered>, ack: u16, windowsize: u16, at: int)
    requires
        0 <= at <= in_flight.len(),
        forall|i: int|
            0 <= i < at ==> (#[trigger] in_flight[i]).0 != ack && in_window_up_to(
                in_flight[i].0,
                ack,
                windowsize,
            ),
        at < in_flight.len() ==> in_flight[at].0 == ack || !in_window_up_to(
            in_flight[at].0,
            ack,
            windowsize,
        ),
    ensures
        acked_in_window(in_flight, ack, windowsize) == (if at < in_flight.len()
            && in_flight[at].0 == ack {
            at + 1
        } else {
            at
        }),
    decreases in_flight.len(),
{
    if in_flight.len() > 0 && at > 0 {
        let rest = in_flight.drop_first();
        assert(in_flight[0].0 != ack);
        assert forall|i: int| 0 <= i < at - 1 implies (#[trigger] rest[i]).0 != ack
            && in_window_up_to(rest[i].0, ack, windowsize) by {
            assert(rest[i] == in_flight[i + 1]);
        }
        acked_in_window_is(rest, ack, windowsize, at - 1);
    }
}

} // verus!
