//! What a transfer asks of the program that drives it.
//!
//! A transfer is a state machine.  Each event gives a [`Step`]: things to do
//! in order, and what to wait for next.  The driver owns the socket, the file
//! and the clock.
use bytes::BytesMut;
use std::time::Duration;
use vstd::prelude::*;

use crate::addr::SocketAddr;
use crate::buffer::{buffer_bytes, buffer_limit, new_buffer};
use crate::error::{Error, ErrorView};
use crate::proto::options::at_most_four_options;
use crate::proto::packet::{option_wire, options_wire, packet_wire, text_wire, PacketView};
use crate::proto::text::{decimal_text, decimal_text_is_digits, decimal_text_u64_len};
use crate::proto::{
    encode_into, ErrorCode, OptionSet, OptionValue, Packet, DEFAULT_BLOCK_SIZE,
    DEFAULT_TIMEOUT_SECS, DEFAULT_WINDOW_SIZE,
};

verus! {

/// The duration of `secs` seconds, as `Duration::from_secs` makes it.
pub uninterp spec fn duration_of_secs(secs: u64) -> Duration;

/// `Duration::from_secs` depends on the number of seconds alone.
pub assume_specification[ Duration::from_secs ](secs: u64) -> (d: Duration)
    ensures
        d == duration_of_secs(secs),
;

/// Something for the driver to do.
#[derive(Debug)]
pub enum Output {
    /// Send a datagram.
    Send { to: SocketAddr, datagram: BytesMut },
    /// Append bytes to the destination of the transfer.
    Write(Vec<u8>),
    /// Flush the destination of the transfer.
    Flush,
}

/// What an [`Output`] asks for.
pub enum OutputView {
    Send { to: SocketAddr, datagram: Seq<u8> },
    Write(Seq<u8>),
    Flush,
}

impl View for Output {
    type V = OutputView;

    open spec fn view(&self) -> OutputView {
        match *self {
            Output::Send { to, datagram } => OutputView::Send {
                to,
                datagram: buffer_bytes(datagram),
            },
            Output::Write(bytes) => OutputView::Write(bytes@),
            Output::Flush => OutputView::Flush,
        }
    }
}

/// What to wait for.
#[derive(Debug)]
pub enum Next {
    /// Wait for a datagram, at most this long.
    Wait(Duration),
    /// Wait on, until the time that is already running is over.
    KeepWaiting,
    /// Read up to this many bytes from the source of the transfer.
    Read(usize),
    /// The transfer is complete.
    Done,
    /// The transfer has failed.
    Fail(Error),
}

/// What a [`Next`] asks for.
pub enum NextView {
    Wait(Duration),
    KeepWaiting,
    Read(nat),
    Done,
    Fail(ErrorView),
}

impl View for Next {
    type V = NextView;

    open spec fn view(&self) -> NextView {
        match *self {
            Next::Wait(d) => NextView::Wait(d),
            Next::KeepWaiting => NextView::KeepWaiting,
            Next::Read(n) => NextView::Read(n as nat),
            Next::Done => NextView::Done,
            Next::Fail(e) => NextView::Fail(e@),
        }
    }
}

/// One step of a transfer.
#[derive(Debug)]
pub struct Step {
    pub outputs: Vec<Output>,
    pub next: Next,
}

/// What a [`Step`] asks for.
pub struct StepView {
    pub outputs: Seq<OutputView>,
    pub next: NextView,
}

/// What a list of outputs asks for.
pub open spec fn outputs_view(outputs: Seq<Output>) -> Seq<OutputView> {
    outputs.map_values(|o: Output| o@)
}

impl View for Step {
    type V = StepView;

    open spec fn view(&self) -> StepView {
        StepView { outputs: outputs_view(self.outputs@), next: self.next@ }
    }
}

/// The bytes that outputs append to the destination of the transfer.
pub open spec fn written(outputs: Seq<OutputView>) -> Seq<u8>
    decreases outputs.len(),
{
    if outputs.len() == 0 {
        Seq::empty()
    } else {
        written(outputs.drop_last()) + match outputs.last() {
            OutputView::Write(bytes) => bytes,
            _ => Seq::empty(),
        }
    }
}

/// What outputs write does not depend on how they are grouped.
pub proof fn written_of_groups(a: Seq<OutputView>, b: Seq<OutputView>)
    ensures
        written(a + b) == written(a) + written(b),
    decreases b.len(),
{
    if b.len() == 0 {
        assert(a + b =~= a);
        assert(written(a) + written(b) =~= written(a));
    } else {
        assert((a + b).drop_last() =~= a + b.drop_last());
        written_of_groups(a, b.drop_last());
        assert(written(a + b) =~= written(a) + written(b));
    }
}

/// The output that sends `packet` to `to`.
pub open spec fn send_view(to: SocketAddr, packet: PacketView) -> OutputView {
    OutputView::Send { to, datagram: packet_wire(packet) }
}

/// Transfer parameters in force.
#[derive(Debug, Clone, Copy)]
pub struct Negotiated {
    pub blksize: u16,
    pub timeout: Duration,
    pub windowsize: u16,
}

impl Negotiated {
    /// The parameters of a transfer without options, where `timeout` is how
    /// long to wait for a packet.
    pub open spec fn unnegotiated(timeout: Duration) -> Negotiated {
        Negotiated { blksize: DEFAULT_BLOCK_SIZE, timeout, windowsize: DEFAULT_WINDOW_SIZE }
    }

    /// The parameters of a transfer without options and with the default
    /// timeout.
    pub fn defaults() -> (neg: Negotiated)
        ensures
            neg == Negotiated::unnegotiated(duration_of_secs(DEFAULT_TIMEOUT_SECS as u64)),
    {
        Negotiated {
            blksize: DEFAULT_BLOCK_SIZE,
            timeout: Duration::from_secs(DEFAULT_TIMEOUT_SECS as u64),
            windowsize: DEFAULT_WINDOW_SIZE,
        }
    }

    /// The parameters of a transfer without options and with this timeout.
    pub fn with_timeout(timeout: Duration) -> (neg: Negotiated)
        ensures
            neg == Negotiated::unnegotiated(timeout),
    {
        Negotiated { blksize: DEFAULT_BLOCK_SIZE, timeout, windowsize: DEFAULT_WINDOW_SIZE }
    }
}

/// A datagram that holds `packet`.
pub(crate) fn datagram(packet: &Packet<'_>) -> (buf: BytesMut)
    requires
        packet_wire(packet@).len() <= buffer_limit(),
    ensures
        buffer_bytes(buf) == packet_wire(packet@),
{
    let mut buf: BytesMut = new_buffer();
    encode_into(packet, &mut buf);
    assert(buffer_bytes(buf) =~= packet_wire(packet@));
    buf
}

/// The output that sends a data block.
pub(crate) fn send_data(to: SocketAddr, block: u16, data: &[u8]) -> (output: Output)
    requires
        data@.len() <= u16::MAX,
    ensures
        output@ == send_view(to, PacketView::Data { block, data: data@ }),
{
    Output::Send { to, datagram: datagram(&Packet::Data { block, data }) }
}

/// The output that acknowledges a block.
pub(crate) fn send_ack(to: SocketAddr, block: u16) -> (output: Output)
    ensures
        output@ == send_view(to, PacketView::Ack { block }),
{
    Output::Send { to, datagram: datagram(&Packet::Ack { block }) }
}

/// The output that acknowledges options.
pub(crate) fn send_oack(to: SocketAddr, options: &OptionSet) -> (output: Output)
    requires
        options.wf(),
    ensures
        output@ == send_view(to, PacketView::Oack { options: options@ }),
{
    proof {
        at_most_four_options(options@);
        options_wire_len(options@);
    }
    Output::Send { to, datagram: datagram(&Packet::Oack { options: options.clone() }) }
}

/// The output that reports an error.
pub(crate) fn send_error(to: SocketAddr, code: ErrorCode, msg: &str) -> (output: Output)
    requires
        text_wire(msg@).len() <= 100,
    ensures
        output@ == send_view(to, PacketView::Error { code, msg: msg@ }),
{
    Output::Send { to, datagram: datagram(&Packet::Error { code, msg: msg.to_owned() }) }
}

/// The answer to a stranger, whose datagram belongs to no transfer here.
pub open spec fn stranger_reply() -> PacketView {
    PacketView::Error { code: ErrorCode::UnknownTid, msg: "unknown transfer id"@ }
}

/// The step for a datagram from `src`, who is not the peer of the transfer:
/// an error goes back, and the wait for the peer goes on.
pub open spec fn stranger_step(src: SocketAddr) -> StepView {
    StepView { outputs: seq![send_view(src, stranger_reply())], next: NextView::KeepWaiting }
}

/// Answers a datagram from `src`, who is not the peer of the transfer.
pub(crate) fn answer_stranger(src: SocketAddr) -> (step: Step)
    ensures
        step@ == stranger_step(src),
{
    proof {
        reveal_strlit("unknown transfer id");
        ascii_text_wire_len("unknown transfer id"@);
    }
    let mut outputs: Vec<Output> = Vec::new();
    outputs.push(send_error(src, ErrorCode::UnknownTid, "unknown transfer id"));
    assert(outputs_view(outputs@) =~= stranger_step(src).outputs);
    Step { outputs, next: Next::KeepWaiting }
}

/// The step that does nothing but `next`.
pub(crate) fn quiet(next: Next) -> (step: Step)
    ensures
        step@ == (StepView { outputs: Seq::empty(), next: next@ }),
{
    let step: Step = Step { outputs: Vec::new(), next };
    assert(outputs_view(step.outputs@) =~= Seq::empty());
    step
}

/// The step that makes one output before `next`.
pub(crate) fn single(output: Output, next: Next) -> (step: Step)
    ensures
        step@ == (StepView { outputs: seq![output@], next: next@ }),
{
    let ghost made = output@;
    let mut outputs: Vec<Output> = Vec::new();
    outputs.push(output);
    assert(outputs_view(outputs@) =~= seq![made]);
    Step { outputs, next }
}

/// An ASCII text takes one byte per character, and one for the NUL.
pub(crate) proof fn ascii_text_wire_len(s: Seq<char>)
    requires
        vstd::utf8::is_ascii_chars(s),
    ensures
        text_wire(s).len() == s.len() + 1,
{
    vstd::utf8::is_ascii_chars_encode_utf8(s);
}

/// An option takes at most 32 bytes.
pub(crate) proof fn option_wire_len(option: OptionValue)
    ensures
        option_wire(option).len() <= 32,
{
    reveal_strlit("blksize");
    reveal_strlit("timeout");
    reveal_strlit("tsize");
    reveal_strlit("windowsize");
    ascii_text_wire_len(option.kind().wire_name());
    let value = decimal_text(option.number());
    decimal_text_is_digits(option.number());
    decimal_text_u64_len(option.number());
    ascii_text_wire_len(value);
}

pub(crate) proof fn options_wire_len(items: Seq<OptionValue>)
    ensures
        options_wire(items).len() <= 32 * items.len(),
    decreases items.len(),
{
    if items.len() > 0 {
        option_wire_len(items[0]);
        options_wire_len(items.drop_first());
    }
}

/// A step is seen with all its outputs, in their order, and with what it
/// waits for; an output with the bytes that it sends or writes.
pub proof fn steps_are_seen_whole(step: Step, i: int)
    requires
        0 <= i < step.outputs@.len(),
    ensures
        step@.outputs.len() == step.outputs@.len(),
        match step.outputs@[i] {
            Output::Send { to, datagram } => step@.outputs[i] == (OutputView::Send {
                to,
                datagram: buffer_bytes(datagram),
            }),
            Output::Write(bytes) => step@.outputs[i] == OutputView::Write(bytes@),
            Output::Flush => step@.outputs[i] is Flush,
        },
{
}

/// What a step waits for is seen as it is.
pub proof fn waits_are_seen_whole(step: Step)
    ensures
        step.outputs@.len() == 0 ==> step@.outputs.len() == 0,
        match step.next {
            Next::Wait(d) => step@.next == NextView::Wait(d),
            Next::KeepWaiting => step@.next is KeepWaiting,
            Next::Read(n) => step@.next == NextView::Read(n as nat),
            Next::Done => step@.next is Done,
            Next::Fail(e) => step@.next == NextView::Fail(e@),
        },
{
}

/// Only what outputs write is written, in their order.
pub proof fn only_writes_are_written(
    before: Seq<OutputView>,
    to: SocketAddr,
    datagram: Seq<u8>,
    bytes: Seq<u8>,
)
    ensures
        written(Seq::empty()) == Seq::<u8>::empty(),
        written(before.push(OutputView::Write(bytes))) == written(before) + bytes,
        written(before.push(OutputView::Send { to, datagram })) == written(before),
        written(before.push(OutputView::Flush)) == written(before),
{
    assert(before.push(OutputView::Write(bytes)).drop_last() =~= before);
    assert(before.push(OutputView::Send { to, datagram }).drop_last() =~= before);
    assert(before.push(OutputView::Flush).drop_last() =~= before);
    assert(written(before) + Seq::<u8>::empty() =~= written(before));
}

/// Without options a transfer has blocks of 512 bytes, one at a time, and the
/// default wait is five seconds.
pub proof fn transfers_without_options(timeout: Duration)
    ensures
        Negotiated::unnegotiated(timeout).blksize == 512,
        Negotiated::unnegotiated(timeout).windowsize == 1,
        Negotiated::unnegotiated(timeout).timeout == timeout,
        DEFAULT_TIMEOUT_SECS == 5,
{
}

/// Whoever is not the peer of a transfer is told, with error code 5, that the
/// transfer is unknown, and the wait for the peer goes on as it was.
pub proof fn strangers_are_told(src: SocketAddr)
    ensures
        stranger_step(src).next is KeepWaiting,
        stranger_step(src).outputs == seq![
            OutputView::Send {
                to: src,
                datagram: packet_wire(
                    PacketView::Error {
                        code: ErrorCode::UnknownTid,
                        msg: "unknown transfer id"@,
                    },
                ),
            },
        ],
{
}

} // verus!
