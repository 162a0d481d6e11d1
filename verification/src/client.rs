//! TFTP client: configuration, and both kinds of transfer.
//!
//! Each transfer runs on a socket of its own, whose port is the client's
//! transfer identifier (RFC 1350, section 4).
use bytes::BytesMut;
use std::time::Duration;
use vstd::prelude::*;
use vstd::utf8::encode_utf8;

use crate::addr::SocketAddr;
use crate::buffer::{buffer_bytes, buffer_limit, new_buffer};
use crate::error::{Error, ErrorView};
use crate::incoming::{
    accepting_writes_no_more_than_came, acks_write_nothing, datagrams_bound_what_is_written,
    the_next_block_is_taken, timeouts_write_nothing, Incoming, IncomingView,
};
use crate::netascii::{from_wire, pending_after, to_wire, to_wire_len};
use crate::outgoing::{Outgoing, OutgoingView};
use crate::proto::options::{
    all_valid, at_most_four_options, block_size_in, distinct_kinds, insert_new, listed,
    position_of_is_first, the_first_value_counts, timeout_in, transfer_size_in, window_size_in,
};
use crate::proto::packet::{
    decoded_options_are_wf, encode_request, packet_of, packet_wire, request_wire, PacketView,
};
use crate::proto::{
    decode, Mode, Opcode, OptionKind, OptionSet, OptionValue, Packet, DEFAULT_TIMEOUT_SECS,
};
use crate::sender::{
    acks_take_from_what_is_outstanding, encoded, filling_keeps_what_is_outstanding,
    filling_takes_from_pending, reading_keeps_what_is_outstanding, SliceSource,
    WindowView,
};
use crate::session::{
    ascii_text_wire_len, duration_of_secs, options_wire_len, outputs_view, quiet, send_ack,
    send_view, single, written, Negotiated, Next, NextView, Output, OutputView, Step, StepView,
};

verus! {

/// How a client asks for transfers.
#[derive(Debug)]
pub struct Options {
    pub mode: Mode,
    /// Block size to ask for.
    pub blksize: Option<u16>,
    /// Per-packet timeout in seconds to ask for.
    pub timeout_secs: Option<u8>,
    /// Window size to ask for.
    pub windowsize: Option<u16>,
    /// Whether to ask for, or announce, the size of the file.
    pub request_tsize: bool,
    /// How often a packet is sent again for want of an answer.
    pub retries: u32,
    /// Local per-packet retransmit timeout.
    pub timeout: Duration,
}

impl Options {
    /// Binary transfers without options.
    pub open spec fn defaults() -> Options {
        Options {
            mode: Mode::Octet,
            blksize: None,
            timeout_secs: None,
            windowsize: None,
            request_tsize: false,
            retries: 5,
            timeout: duration_of_secs(DEFAULT_TIMEOUT_SECS as u64),
        }
    }
}

impl Clone for Options {
    fn clone(&self) -> (options: Options)
        ensures
            options == *self,
    {
        Options {
            mode: self.mode,
            blksize: self.blksize,
            timeout_secs: self.timeout_secs,
            windowsize: self.windowsize,
            request_tsize: self.request_tsize,
            retries: self.retries,
            timeout: self.timeout,
        }
    }
}

impl Default for Options {
    fn default() -> (options: Options)
        ensures
            options == Options::defaults(),
    {
        Options {
            mode: Mode::Octet,
            blksize: None,
            timeout_secs: None,
            windowsize: None,
            request_tsize: false,
            retries: 5,
            timeout: Duration::from_secs(DEFAULT_TIMEOUT_SECS as u64),
        }
    }
}

/// A client for one server.
#[derive(Debug)]
pub struct Client {
    pub server: SocketAddr,
    pub options: Options,
}

impl Clone for Client {
    fn clone(&self) -> (client: Client)
        ensures
            client == *self,
    {
        Client { server: self.server, options: self.options.clone() }
    }
}

impl Client {
    /// A client with default options.
    pub fn new(server: SocketAddr) -> (client: Client)
        ensures
            client == (Client { server, options: Options::defaults() }),
    {
        Client { server, options: Options::default() }
    }

    /// A client with these options.
    pub fn with_options(server: SocketAddr, options: Options) -> (client: Client)
        ensures
            client == (Client { server, options }),
    {
        Client { server, options }
    }

    /// Starts a builder.
    pub fn builder() -> (builder: ClientBuilder)
        ensures
            builder.options == Options::defaults(),
    {
        ClientBuilder::new()
    }

    /// The address of the server.
    pub fn server(&self) -> (addr: SocketAddr)
        ensures
            addr == self.server,
    {
        self.server
    }

    /// The options.
    pub fn options(&self) -> (options: &Options)
        ensures
            *options == self.options,
    {
        &self.options
    }

    /// Asks for the file `remote`.
    pub fn get(&self, remote: &str) -> (r: (GetSession, Step))
        requires
            fits_request(remote@),
        ensures
            r.0@ == GetView::start(self.server, self.options, remote@).0,
            r.1@ == GetView::start(self.server, self.options, remote@).1,
            r.0@.wf(),
            !r.0@.finished(),
    {
        GetSession::start(self.server, &self.options, remote)
    }

    /// Asks to write `remote`, with `size` bytes to come.
    pub fn put(&self, remote: &str, size: u64) -> (r: (PutSession, Step))
        requires
            fits_request(remote@),
        ensures
            r.0@ == PutView::start(self.server, self.options, remote@, size).0,
            r.1@ == PutView::start(self.server, self.options, remote@, size).1,
            r.0@.wf(),
            r.0@.follows(r.1@),
    {
        PutSession::start(self.server, &self.options, remote, size)
    }

    /// Asks to write `remote`, with the bytes of `data` to come, which are
    /// copied.
    pub fn put_bytes(&self, remote: &str, data: &[u8]) -> (r: (PutSession, SliceSource, Step))
        requires
            fits_request(remote@),
        ensures
            r.0@ == PutView::start(self.server, self.options, remote@, data@.len() as u64).0,
            r.2@ == PutView::start(self.server, self.options, remote@, data@.len() as u64).1,
            r.1@ == data@,
            r.1.wf(),
            r.0@.wf(),
            r.0@.follows(r.2@),
    {
        let (session, step) = self.put(remote, data.len() as u64);
        (session, SliceSource::new(data), step)
    }

    /// The options, to be changed.
    pub fn options_mut(&mut self) -> (options: &mut Options)
        ensures
            *options == old(self).options,
            *final(self) == (Client { options: *final(options), ..*old(self) }),
    {
        &mut self.options
    }
}

/// Fluent builder for [`Client`].  Every setter returns the builder, so that
/// calls can be chained up to `build`.
#[derive(Debug)]
pub struct ClientBuilder {
    pub options: Options,
}

impl Clone for ClientBuilder {
    fn clone(&self) -> (builder: ClientBuilder)
        ensures
            builder == *self,
    {
        ClientBuilder { options: self.options.clone() }
    }
}

impl Default for ClientBuilder {
    fn default() -> (builder: ClientBuilder)
        ensures
            builder.options == Options::defaults(),
    {
        ClientBuilder { options: Options::default() }
    }
}

impl ClientBuilder {
    /// A builder with default options.
    pub fn new() -> (builder: ClientBuilder)
        ensures
            builder.options == Options::defaults(),
    {
        ClientBuilder { options: Options::default() }
    }

    pub fn mode(self, m: Mode) -> (builder: ClientBuilder)
        ensures
            builder.options == (Options { mode: m, ..self.options }),
    {
        ClientBuilder { options: Options { mode: m, ..self.options } }
    }

    pub fn blksize(self, n: u16) -> (builder: ClientBuilder)
        ensures
            builder.options == (Options { blksize: Some(n), ..self.options }),
    {
        ClientBuilder { options: Options { blksize: Some(n), ..self.options } }
    }

    /// Local per-packet retransmit timeout.  The one to ask the server for is
    /// set with [`ClientBuilder::negotiate_timeout`].
    pub fn timeout(self, d: Duration) -> (builder: ClientBuilder)
        ensures
            builder.options == (Options { timeout: d, ..self.options }),
    {
        ClientBuilder { options: Options { timeout: d, ..self.options } }
    }

    /// Asks the server to use this per-packet timeout (RFC 2349).
    pub fn negotiate_timeout(self, secs: u8) -> (builder: ClientBuilder)
        ensures
            builder.options == (Options { timeout_secs: Some(secs), ..self.options }),
    {
        ClientBuilder { options: Options { timeout_secs: Some(secs), ..self.options } }
    }

    pub fn windowsize(self, n: u16) -> (builder: ClientBuilder)
        ensures
            builder.options == (Options { windowsize: Some(n), ..self.options }),
    {
        ClientBuilder { options: Options { windowsize: Some(n), ..self.options } }
    }

    pub fn request_tsize(self, yes: bool) -> (builder: ClientBuilder)
        ensures
            builder.options == (Options { request_tsize: yes, ..self.options }),
    {
        ClientBuilder { options: Options { request_tsize: yes, ..self.options } }
    }

    pub fn retries(self, n: u32) -> (builder: ClientBuilder)
        ensures
            builder.options == (Options { retries: n, ..self.options }),
    {
        ClientBuilder { options: Options { retries: n, ..self.options } }
    }

    /// The client for `server` with the options set so far.
    pub fn build(self, server: SocketAddr) -> (client: Client)
        ensures
            client == (Client { server, options: self.options }),
    {
        Client { server, options: self.options }
    }
}

/// The options that a request asks for, where `tsize_for_put` is the size of
/// the file to write.  A request to read states the size 0, which the server
/// replaces.
pub open spec fn asked_for(opts: Options, tsize_for_put: Option<u64>) -> Seq<OptionValue> {
    listed(
        match opts.blksize {
            Some(v) => Some(OptionValue::BlockSize(v)),
            None => None,
        },
    ) + listed(
        match opts.timeout_secs {
            Some(v) => Some(OptionValue::Timeout(v)),
            None => None,
        },
    ) + listed(
        if opts.request_tsize {
            Some(
                OptionValue::TransferSize(
                    match tsize_for_put {
                        Some(size) => size,
                        None => 0,
                    },
                ),
            )
        } else {
            None
        },
    ) + listed(
        match opts.windowsize {
            Some(v) => Some(OptionValue::WindowSize(v)),
            None => None,
        },
    )
}

/// The options for a request.
pub fn build_request_options(opts: &Options, tsize_for_put: Option<u64>) -> (set: OptionSet)
    ensures
        set@ == asked_for(*opts, tsize_for_put),
        set.wf(),
{
    let mut set: OptionSet = OptionSet::new();
    if let Some(b) = opts.blksize {
        proof {
            insert_new(set@, OptionValue::BlockSize(b));
        }
        set.insert(OptionValue::BlockSize(b));
    }
    if let Some(t) = opts.timeout_secs {
        proof {
            insert_new(set@, OptionValue::Timeout(t));
        }
        set.insert(OptionValue::Timeout(t));
    }
    if opts.request_tsize {
        let size: u64 = match tsize_for_put {
            Some(size) => size,
            None => 0,
        };
        proof {
            insert_new(set@, OptionValue::TransferSize(size));
        }
        set.insert(OptionValue::TransferSize(size));
    }
    if let Some(w) = opts.windowsize {
        proof {
            insert_new(set@, OptionValue::WindowSize(w));
        }
        set.insert(OptionValue::WindowSize(w));
    }
    assert(set@ =~= asked_for(*opts, tsize_for_put));
    set
}

/// The transfer parameters after the server has agreed to the options `oack`.
/// What these do not mention stays as it is in `initial`.
pub open spec fn merged(initial: Negotiated, oack: Seq<OptionValue>) -> Negotiated {
    Negotiated {
        blksize: match block_size_in(oack) {
            Some(b) => b,
            None => initial.blksize,
        },
        timeout: match timeout_in(oack) {
            Some(t) => duration_of_secs(t as u64),
            None => initial.timeout,
        },
        windowsize: match window_size_in(oack) {
            Some(w) => w,
            None => initial.windowsize,
        },
    }
}

/// Takes over what the server has agreed to.
pub fn merge_oack(initial: Negotiated, oack: &OptionSet) -> (neg: Negotiated)
    ensures
        neg == merged(initial, oack@),
{
    let mut neg: Negotiated = initial;
    if let Some(b) = oack.block_size() {
        neg.blksize = b;
    }
    if let Some(t) = oack.timeout() {
        neg.timeout = Duration::from_secs(t as u64);
    }
    if let Some(w) = oack.window_size() {
        neg.windowsize = w;
    }
    neg
}

/// What an [`Asking`] stands for.
#[verifier::ext_equal]
pub struct AskingView {
    /// Who is asked.
    pub server: SocketAddr,
    pub opts: Options,
    /// Whether to write a file instead of reading one.
    pub upload: bool,
    /// The name of the file at the server.
    pub remote: Seq<char>,
    /// The options that are asked for.
    pub options: Seq<OptionValue>,
    /// How often the request was sent again.
    pub attempt: u32,
}

impl AskingView {
    pub open spec fn start(
        server: SocketAddr,
        opts: Options,
        upload: bool,
        remote: Seq<char>,
        options: Seq<OptionValue>,
    ) -> AskingView {
        AskingView { server, opts, upload, remote, options, attempt: 0 }
    }

    pub open spec fn wf(self) -> bool {
        &&& self.attempt <= self.opts.retries
        &&& packet_wire(self.packet()).len() <= buffer_limit()
    }

    /// The request.
    pub open spec fn packet(self) -> PacketView {
        if self.upload {
            PacketView::Wrq {
                filename: self.remote,
                mode: self.opts.mode,
                options: self.options,
            }
        } else {
            PacketView::Rrq {
                filename: self.remote,
                mode: self.opts.mode,
                options: self.options,
            }
        }
    }

    /// Sends the request and waits.
    pub open spec fn sent(self) -> StepView {
        StepView {
            outputs: seq![send_view(self.server, self.packet())],
            next: NextView::Wait(self.opts.timeout),
        }
    }

    /// Sends the request again, `retries` times at most.
    pub open spec fn again(self) -> (AskingView, StepView) {
        if self.attempt >= self.opts.retries {
            let end = NextView::Fail(ErrorView::Timeout(self.opts.retries));
            (self, StepView { outputs: Seq::empty(), next: end })
        } else {
            let next = AskingView { attempt: (self.attempt + 1) as u32, ..self };
            (next, next.sent())
        }
    }

    /// The transfer parameters as long as the server has agreed to nothing.
    pub open spec fn initial(self) -> Negotiated {
        Negotiated::unnegotiated(self.opts.timeout)
    }

    /// Whether an option acknowledgement is an answer to the request.
    pub open spec fn wants_oack(self) -> bool {
        self.options.len() > 0
    }
}

/// The state after `n` requests in a row that were not answered.
pub open spec fn after_silence(s: AskingView, n: nat) -> AskingView
    decreases n,
{
    if n == 0 {
        s
    } else {
        after_silence(s, (n - 1) as nat).again().0
    }
}

/// A request that stays unanswered is sent again as long as the retries last,
/// and then the transfer ends with the number of retries.
pub proof fn requests_are_bounded(s: AskingView, n: nat)
    requires
        s.wf(),
    ensures
        s.attempt + n < s.opts.retries ==> after_silence(s, n).again().1 == s.sent(),
        s.attempt + n >= s.opts.retries ==> after_silence(s, n).again().1 == (StepView {
            outputs: Seq::empty(),
            next: NextView::Fail(ErrorView::Timeout(s.opts.retries)),
        }),
        after_silence(s, n) == (AskingView {
            attempt: (if s.attempt + n < s.opts.retries {
                s.attempt + n
            } else {
                s.opts.retries as int
            }) as u32,
            ..s
        }),
    decreases n,
{
    if n > 0 {
        requests_are_bounded(s, (n - 1) as nat);
    }
}

/// A request that has not been answered yet.
#[derive(Debug)]
pub struct Asking {
    server: SocketAddr,
    opts: Options,
    upload: bool,
    remote: String,
    options: OptionSet,
    attempt: u32,
}

impl View for Asking {
    type V = AskingView;

    closed spec fn view(&self) -> AskingView {
        AskingView {
            server: self.server,
            opts: self.opts,
            upload: self.upload,
            remote: self.remote@,
            options: self.options@,
            attempt: self.attempt,
        }
    }
}

/// Whether a file name is short enough for a request to fit into a buffer,
/// with up to four bytes for each character.
pub open spec fn fits_request(remote: Seq<char>) -> bool {
    4 * remote.len() + 160 <= buffer_limit()
}

/// UTF-8 takes at most four bytes for each character.
proof fn utf8_len(s: Seq<char>)
    ensures
        encode_utf8(s).len() <= 4 * s.len(),
    decreases s.len(),
{
    if s.len() > 0 {
        utf8_len(s.drop_first());
    }
}

/// A request for such a file fits.
proof fn request_fits(opcode: Opcode, remote: Seq<char>, mode: Mode, options: Seq<OptionValue>)
    requires
        fits_request(remote),
        options.len() <= 4,
    ensures
        request_wire(opcode, remote, mode, options).len() <= buffer_limit(),
{
    utf8_len(remote);
    options_wire_len(options);
    reveal_strlit("netascii");
    reveal_strlit("octet");
    ascii_text_wire_len(mode.wire_name());
}

impl Asking {
    fn new(
        server: SocketAddr,
        opts: &Options,
        upload: bool,
        remote: &str,
        options: OptionSet,
    ) -> (asking: Asking)
        requires
            options.wf(),
            fits_request(remote@),
        ensures
            asking@ == AskingView::start(server, *opts, upload, remote@, options@),
            asking@.wf(),
    {
        proof {
            at_most_four_options(options@);
            request_fits(Opcode::Rrq, remote@, opts.mode, options@);
            request_fits(Opcode::Wrq, remote@, opts.mode, options@);
        }
        Asking {
            server,
            opts: opts.clone(),
            upload,
            remote: remote.to_owned(),
            options,
            attempt: 0,
        }
    }

    fn send(&self) -> (step: Step)
        requires
            self@.wf(),
        ensures
            step@ == self@.sent(),
    {
        let mut datagram: BytesMut = new_buffer();
        let opcode: Opcode = if self.upload {
            Opcode::Wrq
        } else {
            Opcode::Rrq
        };
        encode_request(opcode, self.remote.as_str(), self.opts.mode, &self.options, &mut datagram);
        assert(buffer_bytes(datagram) =~= packet_wire(self@.packet()));
        single(Output::Send { to: self.server, datagram }, Next::Wait(self.opts.timeout))
    }

    fn again(&mut self) -> (step: Step)
        requires
            old(self)@.wf(),
        ensures
            final(self)@ == old(self)@.again().0,
            step@ == old(self)@.again().1,
            final(self)@.wf(),
    {
        if self.attempt >= self.opts.retries {
            quiet(Next::Fail(Error::Timeout(self.opts.retries)))
        } else {
            self.attempt = self.attempt + 1;
            self.send()
        }
    }
}

/// What a server has agreed to makes usable transfer parameters.
proof fn merged_is_usable(initial: Negotiated, oack: Seq<OptionValue>)
    requires
        all_valid(oack),
        initial.blksize > 0,
        initial.windowsize > 0,
    ensures
        merged(initial, oack).blksize > 0,
        merged(initial, oack).windowsize > 0,
{
    position_of_is_first(oack, OptionKind::BlockSize);
    position_of_is_first(oack, OptionKind::WindowSize);
}

/// What a [`GetSession`] stands for.
#[verifier::ext_equal]
pub struct GetView {
    /// The request.
    pub asking: AskingView,
    /// The transfer, once the server has answered.
    pub inc: Option<IncomingView>,
    /// How many bytes were written, after decoding.
    pub bytes: nat,
}

impl GetView {
    /// Asks for the file `remote`.
    pub open spec fn start(server: SocketAddr, opts: Options, remote: Seq<char>) -> (
        GetView,
        StepView,
    ) {
        let asking = AskingView::start(server, opts, false, remote, asked_for(opts, None));
        (GetView { asking, inc: None, bytes: 0 }, asking.sent())
    }

    pub open spec fn wf(self) -> bool {
        &&& self.asking.wf()
        &&& self.inc matches Some(inc) ==> inc.wf()
    }

    /// Whether the last block has come.
    pub open spec fn finished(self) -> bool {
        self.inc matches Some(inc) && inc.finished
    }

    /// Sends the request again.
    pub open spec fn again(self) -> (GetView, StepView) {
        let (asking, step) = self.asking.again();
        (GetView { asking, ..self }, step)
    }

    /// Takes over a step of the transfer, and counts what it writes.
    pub open spec fn with_step(self, r: (IncomingView, StepView)) -> (GetView, StepView) {
        (
            GetView {
                inc: Some(r.0),
                bytes: self.bytes + written(r.1.outputs).len(),
                ..self
            },
            r.1,
        )
    }

    /// The transfer from `peer`, before its first block.
    pub open spec fn begun(self, peer: SocketAddr, neg: Negotiated) -> IncomingView {
        IncomingView::start(peer, self.asking.opts.retries, false, self.asking.opts.mode, neg)
    }

    /// After a wait in which nothing came.
    pub open spec fn on_timeout(self) -> (GetView, StepView) {
        match self.inc {
            None => self.again(),
            Some(inc) => self.with_step(inc.on_timeout()),
        }
    }

    /// After a datagram.  The answer to the request may come from any
    /// address, which becomes the peer.  It is either the options that the
    /// server agrees to, if any were asked for, or the first block.
    pub open spec fn on_datagram(self, src: SocketAddr, bytes: Seq<u8>) -> (GetView, StepView) {
        match self.inc {
            Some(inc) => self.with_step(inc.on_datagram(src, bytes)),
            None => match packet_of(bytes) {
                Err(e) => (self, StepView { outputs: Seq::empty(), next: NextView::Fail(e) }),
                Ok(PacketView::Oack { options }) if self.asking.wants_oack() => {
                    let inc = self.begun(src, merged(self.asking.initial(), options));
                    self.with_step((inc, inc.wait(seq![inc.ack(0)])))
                },
                Ok(PacketView::Data { block, data }) => if block == 1 {
                    self.with_step(self.begun(src, self.asking.initial()).accept(1, data))
                } else {
                    let end = NextView::Fail(ErrorView::UnexpectedPacket);
                    (self, StepView { outputs: Seq::empty(), next: end })
                },
                Ok(PacketView::Error { code, msg }) => {
                    let end = NextView::Fail(ErrorView::Peer { code, msg });
                    (self, StepView { outputs: Seq::empty(), next: end })
                },
                Ok(_) => self.again(),
            },
        }
    }
}

/// A transfer that reads a file from the server.  Its owner exchanges the
/// datagrams and writes what came.
#[derive(Debug)]
pub struct GetSession {
    asking: Asking,
    inc: Option<Incoming>,
    bytes: u64,
}

impl View for GetSession {
    type V = GetView;

    closed spec fn view(&self) -> GetView {
        GetView {
            asking: self.asking@,
            inc: match self.inc {
                Some(inc) => Some(inc@),
                None => None,
            },
            bytes: self.bytes as nat,
        }
    }
}

/// Adds the number of bytes that outputs write to `bytes`.
fn count_written(outputs: &Vec<Output>, bytes: u64) -> (sum: u64)
    requires
        bytes + written(outputs_view(outputs@)).len() <= u64::MAX,
    ensures
        sum == bytes + written(outputs_view(outputs@)).len(),
{
    let ghost all = outputs_view(outputs@);
    let mut sum: u64 = bytes;
    proof {
        assert(all.take(0) =~= Seq::empty());
    }
    for i in 0..outputs.len()
        invariant
            all == outputs_view(outputs@),
            sum == bytes + written(all.take(i as int)).len(),
            bytes + written(all).len() <= u64::MAX,
    {
        proof {
            assert(all.take(i + 1).drop_last() =~= all.take(i as int));
            assert(all.take(i + 1).last() == outputs@[i as int]@);
            written_grows(all, i + 1);
        }
        match &outputs[i] {
            Output::Write(data) => {
                sum = sum + data.len() as u64;
            },
            _ => {},
        }
    }
    assert(all.take(outputs.len() as int) =~= all);
    sum
}

proof fn written_grows(outputs: Seq<OutputView>, n: int)
    requires
        0 <= n <= outputs.len(),
    ensures
        written(outputs.take(n)).len() <= written(outputs).len(),
    decreases outputs.len(),
{
    if n < outputs.len() {
        written_grows(outputs.drop_last(), n);
        assert(outputs.drop_last().take(n) =~= outputs.take(n));
    } else {
        assert(outputs.take(n) =~= outputs);
    }
}

impl GetSession {
    /// Asks `server` for the file `remote`.
    pub fn start(server: SocketAddr, opts: &Options, remote: &str) -> (r: (GetSession, Step))
        requires
            fits_request(remote@),
        ensures
            r.0@ == GetView::start(server, *opts, remote@).0,
            r.1@ == GetView::start(server, *opts, remote@).1,
            r.0@.wf(),
            !r.0@.finished(),
    {
        let options: OptionSet = build_request_options(opts, None);
        let asking: Asking = Asking::new(server, opts, false, remote, options);
        let step: Step = asking.send();
        (GetSession { asking, inc: None, bytes: 0 }, step)
    }

    /// How many bytes were written, after decoding.
    pub fn bytes_written(&self) -> (n: u64)
        ensures
            n == self@.bytes,
    {
        self.bytes
    }

    /// After a wait in which nothing came.
    pub fn on_timeout(&mut self) -> (step: Step)
        requires
            old(self)@.wf(),
            !old(self)@.finished(),
        ensures
            final(self)@ == old(self)@.on_timeout().0,
            step@ == old(self)@.on_timeout().1,
            final(self)@.wf(),
    {
        match &mut self.inc {
            None => self.asking.again(),
            Some(inc) => {
                proof {
                    timeouts_write_nothing(inc@);
                }
                inc.on_timeout()
            },
        }
    }

    /// After a datagram.
    pub fn on_datagram(&mut self, src: SocketAddr, bytes: &[u8]) -> (step: Step)
        requires
            old(self)@.wf(),
            !old(self)@.finished(),
            old(self)@.bytes + bytes@.len() <= u64::MAX,
        ensures
            final(self)@ == old(self)@.on_datagram(src, bytes@).0,
            step@ == old(self)@.on_datagram(src, bytes@).1,
            final(self)@.wf(),
            final(self)@.finished() <==> step@.next is Done,
    {
        if let Some(inc) = &mut self.inc {
            proof {
                datagrams_bound_what_is_written(inc@, src, bytes@);
            }
            let step: Step = inc.on_datagram(src, bytes);
            self.bytes = count_written(&step.outputs, self.bytes);
            return step;
        }
        let retries: u32 = self.asking.opts.retries;
        let mode: Mode = self.asking.opts.mode;
        let initial: Negotiated = Negotiated::with_timeout(self.asking.opts.timeout);
        match decode(bytes) {
            Err(e) => quiet(Next::Fail(e)),
            Ok(Packet::Oack { options }) if !self.asking.options.is_empty() => {
                proof {
                    decoded_options_are_wf(bytes@);
                    merged_is_usable(initial, options@);
                }
                let neg: Negotiated = merge_oack(initial, &options);
                let inc: Incoming = Incoming::new(src, retries, false, mode, neg);
                let step: Step = single(send_ack(src, 0), Next::Wait(neg.timeout));
                proof {
                    acks_write_nothing(inc@, 0);
                }
                self.inc = Some(inc);
                step
            },
            Ok(Packet::Data { block, data }) => {
                if block == 1 {
                    let mut inc: Incoming = Incoming::new(src, retries, false, mode, initial);
                    proof {
                        accepting_writes_no_more_than_came(inc@, 1, data@);
                    }
                    let step: Step = inc.accept(1, data);
                    self.bytes = count_written(&step.outputs, self.bytes);
                    self.inc = Some(inc);
                    step
                } else {
                    quiet(Next::Fail(Error::UnexpectedPacket))
                }
            },
            Ok(Packet::Error { code, msg }) => quiet(Next::Fail(Error::Peer { code, msg })),
            Ok(_) => self.asking.again(),
        }
    }
}

/// What a [`PutSession`] stands for.
#[verifier::ext_equal]
pub struct PutView {
    /// The request.
    pub asking: AskingView,
    /// The transfer, once the server has answered.
    pub out: Option<OutgoingView>,
    /// How many bytes were put into blocks, after encoding.
    pub total: nat,
}

impl PutView {
    /// Asks to write the file `remote`, with `size` bytes to come.
    pub open spec fn start(server: SocketAddr, opts: Options, remote: Seq<char>, size: u64) -> (
        PutView,
        StepView,
    ) {
        let options = asked_for(opts, Some(size));
        let asking = AskingView::start(server, opts, true, remote, options);
        (PutView { asking, out: None, total: 0 }, asking.sent())
    }

    pub open spec fn wf(self) -> bool {
        &&& self.asking.wf()
        &&& self.out matches Some(out) ==> out.wf()
        &&& self.taken_in() <= u64::MAX
    }

    /// How many bytes, after encoding, have been read from the source.
    pub open spec fn taken_in(self) -> nat {
        self.total + match self.out {
            Some(out) => out.window.sender.pending.len(),
            None => 0,
        }
    }

    /// Whether the next event must be a read of the source.
    pub open spec fn reading(self) -> bool {
        self.out matches Some(out) && out.reading()
    }

    /// Whether the next event must be a datagram or a timeout.
    pub open spec fn waiting(self) -> bool {
        self.out matches Some(out) ==> out.waiting()
    }

    /// Sends the request again.
    pub open spec fn again(self) -> (PutView, StepView) {
        let (asking, step) = self.asking.again();
        (PutView { asking, ..self }, step)
    }

    /// Takes over a step of the transfer that began in the state `before`, and
    /// counts the bytes that it put into blocks.
    pub open spec fn with_step(self, before: OutgoingView, r: (OutgoingView, StepView)) -> (
        PutView,
        StepView,
    ) {
        let loaded = before.window.sender.pending.len() - r.0.window.sender.pending.len();
        (PutView { out: Some(r.0), total: (self.total + loaded) as nat, ..self }, r.1)
    }

    /// The transfer to `peer`, from its first block on.
    pub open spec fn begin(self, peer: SocketAddr, neg: Negotiated) -> (PutView, StepView) {
        let out = OutgoingView::start(
            peer,
            self.asking.opts.retries,
            false,
            self.asking.opts.mode,
            neg,
        );
        self.with_step(out, out.proceed())
    }

    /// After a read of the source.
    pub open spec fn on_chunk(self, chunk: Seq<u8>) -> (PutView, StepView) {
        let out = self.out->0.fed(chunk);
        self.with_step(out, out.proceed())
    }

    /// After a wait in which nothing came.
    pub open spec fn on_timeout(self) -> (PutView, StepView) {
        match self.out {
            None => self.again(),
            Some(out) => self.with_step(out, out.on_timeout()),
        }
    }

    /// After a datagram.  The answer to the request may come from any
    /// address, which becomes the peer.  It is either the options that the
    /// server agrees to, if any were asked for, or the acknowledgement of
    /// block 0.
    pub open spec fn on_datagram(self, src: SocketAddr, bytes: Seq<u8>) -> (PutView, StepView) {
        match self.out {
            Some(out) => self.with_step(out, out.on_datagram(src, bytes)),
            None => match packet_of(bytes) {
                Err(e) => (self, StepView { outputs: Seq::empty(), next: NextView::Fail(e) }),
                Ok(PacketView::Oack { options }) if self.asking.wants_oack() => {
                    self.begin(src, merged(self.asking.initial(), options))
                },
                Ok(PacketView::Ack { block }) if block == 0 => {
                    self.begin(src, self.asking.initial())
                },
                Ok(PacketView::Error { code, msg }) => {
                    let end = NextView::Fail(ErrorView::Peer { code, msg });
                    (self, StepView { outputs: Seq::empty(), next: end })
                },
                Ok(_) => self.again(),
            },
        }
    }

    /// Whether a step asks for the event that the state is ready for.
    pub open spec fn follows(self, step: StepView) -> bool {
        match step.next {
            NextView::Read(_) => self.reading(),
            NextView::Wait(_) => self.waiting(),
            NextView::KeepWaiting => self.waiting(),
            _ => true,
        }
    }
}

/// What has been read from the source, counted after encoding, changes only
/// with a read of the source, and by what was read then.  All of it has been
/// put into blocks when the transfer is done.
pub proof fn uploads_count_what_is_sent(s: PutView, chunk: Seq<u8>, src: SocketAddr, bytes: Seq<u8>)
    requires
        s.wf(),
    ensures
        s.reading() ==> s.on_chunk(chunk).0.taken_in() == s.taken_in() + encoded(
            s.out->0.window.sender.mode,
            chunk,
        ).len(),
        s.waiting() ==> s.on_timeout().0.taken_in() == s.taken_in(),
        s.waiting() ==> s.on_datagram(src, bytes).0.taken_in() == s.taken_in(),
        s.waiting() && s.on_datagram(src, bytes).1.next is Done ==> s.on_datagram(
            src,
            bytes,
        ).0.total == s.taken_in(),
{
    if let Some(out) = s.out {
        let fed = out.fed(chunk);
        if s.reading() {
            reading_keeps_what_is_outstanding(out.window, chunk, Seq::empty());
            filling_takes_from_pending(fed.window);
            if chunk.len() == 0 {
                assert(encoded(out.window.sender.mode, chunk) =~= Seq::<u8>::empty());
            }
        } else if s.waiting() {
            if src == out.peer {
                if let Ok(PacketView::Ack { block }) = packet_of(bytes) {
                    acks_take_from_what_is_outstanding(
                        out.window,
                        block,
                        out.serving,
                        Seq::empty(),
                    );
                    let after = out.window.acknowledged(block, out.serving);
                    filling_takes_from_pending(after);
                    filling_keeps_what_is_outstanding(after, Seq::empty());
                }
            }
        }
    } else {
        decoded_options_are_wf(bytes);
        if let Ok(PacketView::Oack { options }) = packet_of(bytes) {
            merged_is_usable(s.asking.initial(), options);
        }
    }
}

/// A transfer that writes a file at the server.  Its owner reads the source
/// and exchanges the datagrams.
#[derive(Debug)]
pub struct PutSession {
    asking: Asking,
    out: Option<Outgoing>,
    total: u64,
}

impl View for PutSession {
    type V = PutView;

    closed spec fn view(&self) -> PutView {
        PutView {
            asking: self.asking@,
            out: match self.out {
                Some(out) => Some(out@),
                None => None,
            },
            total: self.total as nat,
        }
    }
}

impl PutSession {
    /// Asks `server` to take the file `remote`, with `size` bytes to come.
    pub fn start(server: SocketAddr, opts: &Options, remote: &str, size: u64) -> (r: (
        PutSession,
        Step,
    ))
        requires
            fits_request(remote@),
        ensures
            r.0@ == PutView::start(server, *opts, remote@, size).0,
            r.1@ == PutView::start(server, *opts, remote@, size).1,
            r.0@.wf(),
            r.0@.follows(r.1@),
    {
        let options: OptionSet = build_request_options(opts, Some(size));
        let asking: Asking = Asking::new(server, opts, true, remote, options);
        let step: Step = asking.send();
        (PutSession { asking, out: None, total: 0 }, step)
    }

    /// How many bytes were put into blocks, after encoding.
    pub fn bytes_sent(&self) -> (n: u64)
        ensures
            n == self@.total,
    {
        self.total
    }

    fn begin(&mut self, peer: SocketAddr, neg: Negotiated) -> (step: Step)
        requires
            old(self)@.wf(),
            neg.blksize > 0,
            neg.windowsize > 0,
        ensures
            final(self)@ == old(self)@.begin(peer, neg).0,
            step@ == old(self)@.begin(peer, neg).1,
            final(self)@.wf(),
            final(self)@.follows(step@),
    {
        let mut out: Outgoing = Outgoing::new(
            peer,
            self.asking.opts.retries,
            false,
            self.asking.opts.mode,
            neg,
        );
        let step: Step = out.proceed();
        self.out = Some(out);
        step
    }

    /// After a read of the source.
    pub fn on_chunk(&mut self, chunk: &[u8]) -> (step: Step)
        requires
            old(self)@.wf(),
            old(self)@.reading(),
            old(self)@.taken_in() + 2 * chunk@.len() <= u64::MAX,
        ensures
            final(self)@ == old(self)@.on_chunk(chunk@).0,
            step@ == old(self)@.on_chunk(chunk@).1,
            final(self)@.wf(),
            final(self)@.follows(step@),
    {
        match &mut self.out {
            Some(out) => {
                proof {
                    to_wire_len(chunk@);
                }
                out.feed(chunk);
                let before: usize = out.pending_len();
                let step: Step = out.proceed();
                self.total = self.total + (before - out.pending_len()) as u64;
                step
            },
            None => quiet(Next::KeepWaiting),
        }
    }

    /// After a wait in which nothing came.
    pub fn on_timeout(&mut self) -> (step: Step)
        requires
            old(self)@.wf(),
            old(self)@.waiting(),
        ensures
            final(self)@ == old(self)@.on_timeout().0,
            step@ == old(self)@.on_timeout().1,
            final(self)@.wf(),
            final(self)@.follows(step@),
    {
        match &mut self.out {
            None => self.asking.again(),
            Some(out) => out.on_timeout(),
        }
    }

    /// After a datagram.
    pub fn on_datagram(&mut self, src: SocketAddr, bytes: &[u8]) -> (step: Step)
        requires
            old(self)@.wf(),
            old(self)@.waiting(),
        ensures
            final(self)@ == old(self)@.on_datagram(src, bytes@).0,
            step@ == old(self)@.on_datagram(src, bytes@).1,
            final(self)@.wf(),
            final(self)@.follows(step@),
    {
        if let Some(out) = &mut self.out {
            let before: usize = out.pending_len();
            let step: Step = out.on_datagram(src, bytes);
            self.total = self.total + (before - out.pending_len()) as u64;
            return step;
        }
        let initial: Negotiated = Negotiated::with_timeout(self.asking.opts.timeout);
        match decode(bytes) {
            Err(e) => quiet(Next::Fail(e)),
            Ok(Packet::Oack { options }) if !self.asking.options.is_empty() => {
                proof {
                    decoded_options_are_wf(bytes@);
                    merged_is_usable(initial, options@);
                }
                let neg: Negotiated = merge_oack(initial, &options);
                self.begin(src, neg)
            },
            Ok(Packet::Ack { block: 0 }) => self.begin(src, initial),
            Ok(Packet::Error { code, msg }) => quiet(Next::Fail(Error::Peer { code, msg })),
            Ok(_) => self.asking.again(),
        }
    }
}

/// What a client asks for by default: a binary transfer without options, five
/// seconds for each packet, and five retries.
pub proof fn defaults_are_these()
    ensures
        Options::defaults().mode == Mode::Octet,
        Options::defaults().blksize is None,
        Options::defaults().timeout_secs is None,
        Options::defaults().windowsize is None,
        !Options::defaults().request_tsize,
        Options::defaults().retries == 5,
        Options::defaults().timeout == duration_of_secs(5),
{
}

/// A request asks for just what the client is set to ask for, each option
/// with its own value; the size of the file is announced as it is if it is
/// known, and as 0 otherwise.
pub proof fn requests_ask_for_what_is_set(opts: Options, size: Option<u64>)
    ensures
        block_size_in(asked_for(opts, size)) == opts.blksize,
        timeout_in(asked_for(opts, size)) == opts.timeout_secs,
        window_size_in(asked_for(opts, size)) == opts.windowsize,
        !opts.request_tsize ==> transfer_size_in(asked_for(opts, size)) is None,
        opts.request_tsize && size is Some ==> transfer_size_in(asked_for(opts, size)) == size,
        opts.request_tsize && size is None ==> transfer_size_in(asked_for(opts, size)) == Some(
            0u64,
        ),
        asked_for(opts, size).len() == 0 <==> opts.blksize is None && opts.timeout_secs is None
            && opts.windowsize is None && !opts.request_tsize,
        distinct_kinds(asked_for(opts, size)),
{
    let options = asked_for(opts, size);
    places_of_asked_options(opts, size);
    let end = options.len() as int;
    let b: int = if opts.blksize is Some {
        1
    } else {
        0
    };
    let t: int = if opts.timeout_secs is Some {
        b + 1
    } else {
        b
    };
    let s: int = if opts.request_tsize {
        t + 1
    } else {
        t
    };
    the_first_value_counts(
        options,
        if b == 1 {
            0
        } else {
            end
        },
    );
    the_first_value_counts(
        options,
        if t > b {
            b
        } else {
            end
        },
    );
    the_first_value_counts(
        options,
        if s > t {
            t
        } else {
            end
        },
    );
    the_first_value_counts(options, s);
}

/// Where the options stand that are asked for.
proof fn places_of_asked_options(opts: Options, size: Option<u64>)
    ensures
        ({
            let options = asked_for(opts, size);
            let b: int = if opts.blksize is Some {
                1
            } else {
                0
            };
            let t: int = if opts.timeout_secs is Some {
                b + 1
            } else {
                b
            };
            let s: int = if opts.request_tsize {
                t + 1
            } else {
                t
            };
            &&& options.len() == if opts.windowsize is Some {
                s + 1
            } else {
                s
            }
            &&& b > 0 ==> options[0] == OptionValue::BlockSize(opts.blksize->0)
            &&& t > b ==> options[b] == OptionValue::Timeout(opts.timeout_secs->0)
            &&& s > t ==> options[t] == OptionValue::TransferSize(
                if size is Some {
                    size->0
                } else {
                    0
                },
            )
            &&& options.len() > s ==> options[s] == OptionValue::WindowSize(opts.windowsize->0)
        }),
{
}

/// The options that are asked for stand in the order block size, timeout,
/// transfer size, window size.
pub proof fn asked_options_are_in_order(opts: Options, size: Option<u64>, i: int, j: int)
    requires
        0 <= i < j < asked_for(opts, size).len(),
    ensures
        ({
            let options = asked_for(opts, size);
            match options[j] {
                OptionValue::BlockSize(_) => false,
                OptionValue::Timeout(_) => options[i] is BlockSize,
                OptionValue::TransferSize(_) => options[i] is BlockSize || options[i] is Timeout,
                OptionValue::WindowSize(_) => !(options[i] is WindowSize),
            }
        }),
{
    places_of_asked_options(opts, size);
}

/// What the server agreed to is in force, value by value, and where it agreed
/// to nothing, what was in force before.
pub proof fn agreed_values_are_taken_over(before: Negotiated, oack: Seq<OptionValue>)
    ensures
        block_size_in(oack) matches Some(b) ==> merged(before, oack).blksize == b,
        block_size_in(oack) is None ==> merged(before, oack).blksize == before.blksize,
        timeout_in(oack) matches Some(t) ==> merged(before, oack).timeout == duration_of_secs(
            t as u64,
        ),
        timeout_in(oack) is None ==> merged(before, oack).timeout == before.timeout,
        window_size_in(oack) matches Some(w) ==> merged(before, oack).windowsize == w,
        window_size_in(oack) is None ==> merged(before, oack).windowsize == before.windowsize,
{
}

/// A transfer begins with one request to the server: to read for a download,
/// to write for an upload, with the name of the file, the mode and the
/// options of the client; the client then waits for its own timeout.
pub proof fn transfers_begin_with_a_request(
    server: SocketAddr,
    opts: Options,
    remote: Seq<char>,
    size: u64,
)
    ensures
        ({
            let (s, step) = GetView::start(server, opts, remote);
            let options = asked_for(opts, None);
            let request = PacketView::Rrq { filename: remote, mode: opts.mode, options };
            &&& s.asking == (AskingView {
                server,
                opts,
                upload: false,
                remote,
                options,
                attempt: 0,
            })
            &&& s.inc is None
            &&& s.bytes == 0
            &&& step.next == NextView::Wait(opts.timeout)
            &&& step.outputs == seq![
                OutputView::Send { to: server, datagram: packet_wire(request) },
            ]
        }),
        ({
            let (s, step) = PutView::start(server, opts, remote, size);
            let options = asked_for(opts, Some(size));
            let request = PacketView::Wrq { filename: remote, mode: opts.mode, options };
            &&& s.asking == (AskingView {
                server,
                opts,
                upload: true,
                remote,
                options,
                attempt: 0,
            })
            &&& s.out is None
            &&& s.total == 0
            &&& step.next == NextView::Wait(opts.timeout)
            &&& step.outputs == seq![
                OutputView::Send { to: server, datagram: packet_wire(request) },
            ]
        }),
{
}

/// A request that has to be sent again is sent to the server as it was, as
/// long as the retries last; after that the transfer ends with their number.
pub proof fn requests_are_repeated_as_they_were(s: AskingView)
    requires
        s.wf(),
    ensures
        s.attempt < s.opts.retries ==> {
            let (filename, mode, options) = (s.remote, s.opts.mode, s.options);
            &&& s.again().0 == (AskingView { attempt: (s.attempt + 1) as u32, ..s })
            &&& s.again().1.next == NextView::Wait(s.opts.timeout)
            &&& s.again().1.outputs == seq![
                OutputView::Send {
                    to: s.server,
                    datagram: packet_wire(
                        if s.upload {
                            PacketView::Wrq { filename, mode, options }
                        } else {
                            PacketView::Rrq { filename, mode, options }
                        },
                    ),
                },
            ]
        },
        s.attempt == s.opts.retries ==> {
            &&& s.again().0 == s
            &&& s.again().1.outputs.len() == 0
            &&& s.again().1.next == NextView::Fail(ErrorView::Timeout(s.opts.retries))
        },
{
}

/// A server that answers a download with block 1 has agreed to no option,
/// whatever was asked for: the block is taken from the address that it came
/// from, in blocks of 512 bytes, one at a time.  A block of 512 bytes is
/// written and acknowledged, and the next one awaited for the client's own
/// timeout; a shorter one is the whole file.
pub proof fn downloads_without_options(s: GetView, src: SocketAddr, bytes: Seq<u8>, data: Seq<u8>)
    requires
        s.inc is None,
        packet_of(bytes) == Ok::<PacketView, ErrorView>(PacketView::Data { block: 1, data }),
    ensures
        ({
            let (next, step) = s.on_datagram(src, bytes);
            let opts = s.asking.opts;
            let inc = next.inc->0;
            let text = if opts.mode == Mode::NetAscii {
                from_wire(false, data)
            } else {
                data
            };
            let held = opts.mode == Mode::NetAscii && pending_after(false, data);
            let ack = OutputView::Send {
                to: src,
                datagram: packet_wire(PacketView::Ack { block: 1 }),
            };
            &&& next.asking == s.asking
            &&& next.inc is Some
            &&& next.bytes == s.bytes + written(step.outputs).len()
            &&& inc.peer == src
            &&& inc.retries == opts.retries
            &&& inc.timeout == opts.timeout
            &&& inc.blksize == 512
            &&& inc.windowsize == 1
            &&& inc.mode == opts.mode
            &&& !inc.serving
            &&& inc.next_block == 2
            &&& inc.last_acked == 1
            &&& inc.attempt == 0
            &&& data.len() >= 512 ==> {
                &&& !inc.finished
                &&& inc.held == held
                &&& inc.in_window == 0
                &&& step.next == NextView::Wait(opts.timeout)
                &&& step.outputs == seq![OutputView::Write(text), ack]
            }
            &&& data.len() < 512 ==> {
                &&& inc.finished
                &&& step.next is Done
                &&& step.outputs == seq![OutputView::Write(text), ack] + (if held {
                    seq![OutputView::Write(seq![13u8]), OutputView::Flush]
                } else {
                    seq![OutputView::Flush]
                })
            }
        }),
{
    let begun = s.begun(src, s.asking.initial());
    the_next_block_is_taken(begun, data);
}

/// A server that answers a download with options, where any were asked for,
/// begins a transfer on just those terms: what it does not name stays at 512
/// bytes a block, one block at a time, and the client's own timeout.  The
/// answer is acknowledged as block 0, and block 1 awaited for the timeout in
/// force.
pub proof fn downloads_with_options(
    s: GetView,
    src: SocketAddr,
    bytes: Seq<u8>,
    options: Seq<OptionValue>,
)
    requires
        s.inc is None,
        s.asking.options.len() > 0,
        packet_of(bytes) == Ok::<PacketView, ErrorView>(PacketView::Oack { options }),
    ensures
        ({
            let (next, step) = s.on_datagram(src, bytes);
            let opts = s.asking.opts;
            let inc = next.inc->0;
            &&& next.asking == s.asking
            &&& next.inc is Some
            &&& next.bytes == s.bytes
            &&& inc.peer == src
            &&& inc.retries == opts.retries
            &&& inc.mode == opts.mode
            &&& !inc.serving
            &&& !inc.finished
            &&& !inc.held
            &&& inc.next_block == 1
            &&& inc.last_acked == 0
            &&& inc.in_window == 0
            &&& inc.attempt == 0
            &&& inc.blksize == match block_size_in(options) {
                Some(b) => b as nat,
                None => 512,
            }
            &&& inc.windowsize == match window_size_in(options) {
                Some(w) => w,
                None => 1,
            }
            &&& inc.timeout == match timeout_in(options) {
                Some(t) => duration_of_secs(t as u64),
                None => opts.timeout,
            }
            &&& step.next == NextView::Wait(inc.timeout)
            &&& step.outputs == seq![
                OutputView::Send {
                    to: src,
                    datagram: packet_wire(PacketView::Ack { block: 0 }),
                },
            ]
        }),
{
    acks_write_nothing(s.on_datagram(src, bytes).0.inc->0, 0);
}

/// Any other answer to a download begins no transfer: what is no packet, or a
/// data block other than the first, ends it; so does an error, with just that
/// error; and anything else has the request sent again, as silence does.
pub proof fn other_answers_to_a_download(s: GetView, src: SocketAddr, bytes: Seq<u8>)
    requires
        s.inc is None,
    ensures
        ({
            let (next, step) = s.on_datagram(src, bytes);
            let fails = |e: ErrorView|
                next == s && step.outputs.len() == 0 && step.next == NextView::Fail(e);
            let again = next.inc is None && next.bytes == s.bytes && (next.asking, step)
                == s.asking.again();
            match packet_of(bytes) {
                Err(e) => fails(e),
                Ok(PacketView::Error { code, msg }) => fails(ErrorView::Peer { code, msg }),
                Ok(PacketView::Data { block, .. }) => block != 1 ==> fails(
                    ErrorView::UnexpectedPacket,
                ),
                Ok(PacketView::Oack { .. }) => s.asking.options.len() == 0 ==> again,
                Ok(_) => again,
            }
        }),
        s.on_timeout().0.inc is None,
        s.on_timeout().0.bytes == s.bytes,
        (s.on_timeout().0.asking, s.on_timeout().1) == s.asking.again(),
{
}

/// Once a download has begun, the transfer alone decides, and every byte that
/// it writes is counted.
pub proof fn downloads_count_what_is_written(
    s: GetView,
    inc: IncomingView,
    src: SocketAddr,
    bytes: Seq<u8>,
)
    requires
        s.inc == Some(inc),
    ensures
        s.on_datagram(src, bytes).0.asking == s.asking,
        (s.on_datagram(src, bytes).0.inc, s.on_datagram(src, bytes).1) == (
            Some(inc.on_datagram(src, bytes).0),
            inc.on_datagram(src, bytes).1,
        ),
        s.on_datagram(src, bytes).0.bytes == s.bytes + written(
            s.on_datagram(src, bytes).1.outputs,
        ).len(),
        s.on_timeout().0.asking == s.asking,
        (s.on_timeout().0.inc, s.on_timeout().1) == (
            Some(inc.on_timeout().0),
            inc.on_timeout().1,
        ),
        s.on_timeout().0.bytes == s.bytes,
{
    timeouts_write_nothing(inc);
}

/// A server that answers an upload with the acknowledgement of block 0 has
/// agreed to no option, whatever was asked for: the file goes to the address
/// that it came from, in blocks of 512 bytes, one at a time, with the
/// client's own timeout.  One that answers with options, where any were asked
/// for, begins a transfer on just those terms.
pub proof fn uploads_begin_on_the_agreed_terms(s: PutView, src: SocketAddr, bytes: Seq<u8>)
    requires
        s.out is None,
    ensures
        ({
            let (next, step) = s.on_datagram(src, bytes);
            let opts = s.asking.opts;
            let terms = match packet_of(bytes) {
                Ok(PacketView::Ack { block }) => if block == 0 {
                    Some(Negotiated { blksize: 512, timeout: opts.timeout, windowsize: 1 })
                } else {
                    None
                },
                Ok(PacketView::Oack { options }) => if s.asking.options.len() > 0 {
                    Some(
                        Negotiated {
                            blksize: match block_size_in(options) {
                                Some(b) => b,
                                None => 512,
                            },
                            timeout: match timeout_in(options) {
                                Some(t) => duration_of_secs(t as u64),
                                None => opts.timeout,
                            },
                            windowsize: match window_size_in(options) {
                                Some(w) => w,
                                None => 1,
                            },
                        },
                    )
                } else {
                    None
                },
                _ => None,
            };
            &&& terms matches Some(neg) ==> {
                let begun = OutgoingView::start(src, opts.retries, false, opts.mode, neg);
                &&& next.asking == s.asking
                &&& next.total == s.total
                &&& (next.out, step) == (Some(begun.proceed().0), begun.proceed().1)
            }
            &&& terms is None ==> {
                let fails = |e: ErrorView|
                    next == s && step.outputs.len() == 0 && step.next == NextView::Fail(e);
                match packet_of(bytes) {
                    Err(e) => fails(e),
                    Ok(PacketView::Error { code, msg }) => fails(ErrorView::Peer { code, msg }),
                    Ok(_) => next.out is None && next.total == s.total && (next.asking, step)
                        == s.asking.again(),
                }
            }
        }),
        s.on_timeout().0.out is None,
        s.on_timeout().0.total == s.total,
        (s.on_timeout().0.asking, s.on_timeout().1) == s.asking.again(),
{
    nothing_is_sent_yet(s.asking.opts.mode, s.asking.initial());
    if let Ok(PacketView::Oack { options }) = packet_of(bytes) {
        nothing_is_sent_yet(s.asking.opts.mode, merged(s.asking.initial(), options));
    }
}

/// A transfer that begins has nothing pending.
proof fn nothing_is_sent_yet(mode: Mode, neg: Negotiated)
    ensures
        WindowView::start(
            mode,
            neg.blksize as nat,
            neg.windowsize,
        ).filled().sender.pending.len() == 0,
{
    filling_takes_from_pending(WindowView::start(mode, neg.blksize as nat, neg.windowsize));
}

/// Once an upload has begun, the transfer alone decides, and what leaves the
/// bytes that are pending is counted as sent.
pub proof fn uploads_go_on_as_transfers(
    s: PutView,
    out: OutgoingView,
    chunk: Seq<u8>,
    src: SocketAddr,
    bytes: Seq<u8>,
)
    requires
        s.out == Some(out),
    ensures
        (s.on_datagram(src, bytes).0.out, s.on_datagram(src, bytes).1) == (
            Some(out.on_datagram(src, bytes).0),
            out.on_datagram(src, bytes).1,
        ),
        (s.on_timeout().0.out, s.on_timeout().1) == (
            Some(out.on_timeout().0),
            out.on_timeout().1,
        ),
        (s.on_chunk(chunk).0.out, s.on_chunk(chunk).1) == (
            Some(out.on_chunk(chunk).0),
            out.on_chunk(chunk).1,
        ),
        s.on_datagram(src, bytes).0.asking == s.asking,
        s.on_timeout().0.asking == s.asking,
        s.on_chunk(chunk).0.asking == s.asking,
{
}

/// Every byte that an upload has read, counted after encoding, is either
/// pending still or counted as sent; at the end all are.
pub proof fn uploads_count_every_byte(
    s: PutView,
    out: OutgoingView,
    chunk: Seq<u8>,
    src: SocketAddr,
    bytes: Seq<u8>,
)
    requires
        s.wf(),
        s.out == Some(out),
    ensures
        ({
            let pending = out.window.sender.pending.len();
            let (read, _) = s.on_chunk(chunk);
            let (late, _) = s.on_timeout();
            let (next, step) = s.on_datagram(src, bytes);
            &&& s.reading() && out.window.sender.mode == Mode::Octet ==> read.total
                + read.out->0.window.sender.pending.len() == s.total + pending + chunk.len()
            &&& s.reading() && out.window.sender.mode == Mode::NetAscii ==> read.total
                + read.out->0.window.sender.pending.len() == s.total + pending + to_wire(
                chunk,
            ).len()
            &&& s.waiting() ==> late.total == s.total
            &&& s.waiting() ==> next.total + next.out->0.window.sender.pending.len() == s.total
                + pending
            &&& s.waiting() && step.next is Done ==> next.total == s.total + pending
        }),
{
    uploads_count_what_is_sent(s, chunk, src, bytes);
}

} // verus!
