//! TFTP server: configuration, negotiation, and what to do about a request.
//!
//! Each transfer runs on a socket of its own, whose port is the server's
//! transfer identifier (RFC 1350, section 4).
use std::time::Duration;
use vstd::prelude::*;

use crate::addr::SocketAddr;
use crate::error::{Error, ErrorView, IoFailure};
use crate::incoming::{Incoming, IncomingView};
use crate::outgoing::{Outgoing, OutgoingView};
use crate::path_safe::{
    below, components, is_served, parent_dir, resolve, resolved_paths_stay_below_root,
};
use crate::proto::options::{
    block_size_in, distinct_kinds, insert_new, listed, the_first_value_counts, timeout_in,
    transfer_size_in, window_size_in,
};
use crate::proto::packet::{packet_of, packet_wire, PacketView};
use crate::proto::{
    decode, ErrorCode, Mode, OptionSet, OptionValue, Packet, DEFAULT_BLOCK_SIZE,
    DEFAULT_TIMEOUT_SECS, DEFAULT_WINDOW_SIZE, MAX_BLOCK_SIZE, MIN_BLOCK_SIZE,
};
use crate::session::{
    answer_stranger, ascii_text_wire_len, duration_of_secs, quiet, send_ack, send_error,
    send_oack, send_view, single, stranger_step, Negotiated, Next, NextView, Output, OutputView,
    Step, StepView,
};

verus! {

/// How a server behaves.
#[derive(Debug)]
pub struct Config {
    /// Where requests come in.
    pub listen: SocketAddr,
    /// The directory that is served.
    pub root: String,
    /// Whether a write request may replace a file.
    pub allow_overwrite: bool,
    /// Per-packet retransmit interval, unless the client asks for another.
    pub timeout: Duration,
    /// How often a packet is sent again for want of an answer.
    pub retries: u32,
    /// The largest block size that is agreed to.
    pub max_block_size: u16,
    /// Whether the windowsize option is agreed to.
    pub allow_windowsize: bool,
}

impl Config {
    /// Serves the current directory on the TFTP port of every interface,
    /// with nothing replaced, and all options agreed to.
    pub open spec fn is_default(self) -> bool {
        &&& self.listen == (SocketAddr::V4 { ipv4: 0, port: 69 })
        &&& self.root@ == "."@
        &&& !self.allow_overwrite
        &&& self.timeout == duration_of_secs(DEFAULT_TIMEOUT_SECS as u64)
        &&& self.retries == 5
        &&& self.max_block_size == MAX_BLOCK_SIZE
        &&& self.allow_windowsize
    }
}

impl Clone for Config {
    fn clone(&self) -> (cfg: Config)
        ensures
            cfg.root@ == self.root@,
            cfg == (Config { root: cfg.root, ..*self }),
    {
        Config {
            listen: self.listen,
            root: self.root.clone(),
            allow_overwrite: self.allow_overwrite,
            timeout: self.timeout,
            retries: self.retries,
            max_block_size: self.max_block_size,
            allow_windowsize: self.allow_windowsize,
        }
    }
}

impl Default for Config {
    fn default() -> (cfg: Config)
        ensures
            cfg.is_default(),
    {
        Config {
            listen: SocketAddr::V4 { ipv4: 0, port: 69 },
            root: ".".to_owned(),
            allow_overwrite: false,
            timeout: Duration::from_secs(DEFAULT_TIMEOUT_SECS as u64),
            retries: 5,
            max_block_size: MAX_BLOCK_SIZE,
            allow_windowsize: true,
        }
    }
}

/// Fluent builder for the configuration of a [`Server`].
#[derive(Debug)]
pub struct ServerBuilder {
    pub cfg: Config,
}

impl Clone for ServerBuilder {
    fn clone(&self) -> (builder: ServerBuilder)
        ensures
            builder.cfg.root@ == self.cfg.root@,
            builder.cfg == (Config { root: builder.cfg.root, ..self.cfg }),
    {
        ServerBuilder { cfg: self.cfg.clone() }
    }
}

impl Default for ServerBuilder {
    fn default() -> (builder: ServerBuilder)
        ensures
            builder.cfg.is_default(),
    {
        ServerBuilder { cfg: Config::default() }
    }
}

impl ServerBuilder {
    /// A builder with the default configuration.
    pub fn new() -> (builder: ServerBuilder)
        ensures
            builder.cfg.is_default(),
    {
        ServerBuilder { cfg: Config::default() }
    }

    pub fn listen(self, addr: SocketAddr) -> (builder: ServerBuilder)
        ensures
            builder.cfg == (Config { listen: addr, ..self.cfg }),
    {
        ServerBuilder { cfg: Config { listen: addr, ..self.cfg } }
    }

    pub fn root(self, path: &str) -> (builder: ServerBuilder)
        ensures
            builder.cfg.root@ == path@,
            builder.cfg == (Config { root: builder.cfg.root, ..self.cfg }),
    {
        ServerBuilder { cfg: Config { root: path.to_owned(), ..self.cfg } }
    }

    pub fn allow_overwrite(self, yes: bool) -> (builder: ServerBuilder)
        ensures
            builder.cfg == (Config { allow_overwrite: yes, ..self.cfg }),
    {
        ServerBuilder { cfg: Config { allow_overwrite: yes, ..self.cfg } }
    }

    pub fn timeout(self, d: Duration) -> (builder: ServerBuilder)
        ensures
            builder.cfg == (Config { timeout: d, ..self.cfg }),
    {
        ServerBuilder { cfg: Config { timeout: d, ..self.cfg } }
    }

    pub fn retries(self, n: u32) -> (builder: ServerBuilder)
        ensures
            builder.cfg == (Config { retries: n, ..self.cfg }),
    {
        ServerBuilder { cfg: Config { retries: n, ..self.cfg } }
    }

    pub fn max_block_size(self, n: u16) -> (builder: ServerBuilder)
        ensures
            builder.cfg == (Config { max_block_size: n, ..self.cfg }),
    {
        ServerBuilder { cfg: Config { max_block_size: n, ..self.cfg } }
    }

    pub fn allow_windowsize(self, yes: bool) -> (builder: ServerBuilder)
        ensures
            builder.cfg == (Config { allow_windowsize: yes, ..self.cfg }),
    {
        ServerBuilder { cfg: Config { allow_windowsize: yes, ..self.cfg } }
    }
}

/// A server whose root is resolved and whose socket is bound.
#[derive(Debug)]
pub struct Server {
    pub cfg: Config,
    pub bound: SocketAddr,
}

impl Server {
    /// A builder with the default configuration.
    pub fn builder() -> (builder: ServerBuilder)
        ensures
            builder.cfg.is_default(),
    {
        ServerBuilder::new()
    }

    /// The server with configuration `cfg` whose root has the canonical path
    /// `root` and whose socket is bound to `bound`.
    pub fn bind(cfg: Config, root: String, bound: SocketAddr) -> (server: Server)
        ensures
            server.cfg == (Config { root, ..cfg }),
            server.bound == bound,
    {
        Server { cfg: Config { root, ..cfg }, bound }
    }

    /// The address that the socket is bound to.
    pub fn local_addr(&self) -> (addr: SocketAddr)
        ensures
            addr == self.bound,
    {
        self.bound
    }

    /// The configuration, with the canonical root.
    pub fn config(&self) -> (cfg: &Config)
        ensures
            *cfg == self.cfg,
    {
        &self.cfg
    }

    /// The directory that is served.
    pub fn root(&self) -> (path: &str)
        ensures
            path@ == self.cfg.root@,
    {
        self.cfg.root.as_str()
    }
}

/// The block size that the server agrees to: the requested one, brought into
/// the range from the smallest that the protocol allows to the largest that
/// the configuration allows.
pub open spec fn agreed_block_size(cfg: Config, requested: Seq<OptionValue>) -> Option<u16> {
    match block_size_in(requested) {
        None => None,
        Some(b) => Some(
            if b < MIN_BLOCK_SIZE {
                MIN_BLOCK_SIZE
            } else if b > cfg.max_block_size {
                cfg.max_block_size
            } else {
                b
            },
        ),
    }
}

/// The timeout in seconds that the server agrees to: the requested one, but
/// at least one second.
pub open spec fn agreed_timeout(requested: Seq<OptionValue>) -> Option<u8> {
    match timeout_in(requested) {
        None => None,
        Some(t) => Some(
            if t < 1 {
                1u8
            } else {
                t
            },
        ),
    }
}

/// The transfer size that the server states if asked: the size of the file
/// to read, or the size that the client announced of the file to write.
pub open spec fn agreed_transfer_size(requested: Seq<OptionValue>, file_size: Option<u64>) -> Option<
    u64,
> {
    match (transfer_size_in(requested), file_size) {
        (None, _) => None,
        (Some(_), Some(size)) => Some(size),
        (Some(announced), None) => Some(announced),
    }
}

/// The window size that the server agrees to: the requested one, but at
/// least one; none where the configuration does not allow the option.
pub open spec fn agreed_window_size(cfg: Config, requested: Seq<OptionValue>) -> Option<u16> {
    match window_size_in(requested) {
        Some(w) if cfg.allow_windowsize => Some(
            if w < 1 {
                1u16
            } else {
                w
            },
        ),
        _ => None,
    }
}

/// The options that the server agrees to.
pub open spec fn agreed(
    cfg: Config,
    requested: Seq<OptionValue>,
    file_size: Option<u64>,
) -> Seq<OptionValue> {
    listed(
        match agreed_block_size(cfg, requested) {
            Some(v) => Some(OptionValue::BlockSize(v)),
            None => None,
        },
    ) + listed(
        match agreed_timeout(requested) {
            Some(v) => Some(OptionValue::Timeout(v)),
            None => None,
        },
    ) + listed(
        match agreed_transfer_size(requested, file_size) {
            Some(v) => Some(OptionValue::TransferSize(v)),
            None => None,
        },
    ) + listed(
        match agreed_window_size(cfg, requested) {
            Some(v) => Some(OptionValue::WindowSize(v)),
            None => None,
        },
    )
}

/// The transfer parameters that the server works with.
pub open spec fn in_force(cfg: Config, requested: Seq<OptionValue>) -> Negotiated {
    Negotiated {
        blksize: match agreed_block_size(cfg, requested) {
            Some(v) => v,
            None => DEFAULT_BLOCK_SIZE,
        },
        timeout: match agreed_timeout(requested) {
            Some(v) => duration_of_secs(v as u64),
            None => cfg.timeout,
        },
        windowsize: match agreed_window_size(cfg, requested) {
            Some(v) => v,
            None => DEFAULT_WINDOW_SIZE,
        },
    }
}

/// Builds the options to agree to and the transfer parameters that follow
/// from them.  What the client did not ask for stays at its default.
pub fn negotiate(cfg: &Config, requested: &OptionSet, file_size_for_tsize: Option<u64>) -> (r: (
    OptionSet,
    Negotiated,
))
    requires
        block_size_in(requested@) is Some ==> cfg.max_block_size >= MIN_BLOCK_SIZE,
    ensures
        r.0@ == agreed(*cfg, requested@, file_size_for_tsize),
        r.0.wf(),
        r.1 == in_force(*cfg, requested@),
{
    let mut out: OptionSet = OptionSet::new();
    let mut neg: Negotiated = Negotiated::with_timeout(cfg.timeout);

    if let Some(b) = requested.block_size() {
        let chosen: u16 = if b < MIN_BLOCK_SIZE {
            MIN_BLOCK_SIZE
        } else if b > cfg.max_block_size {
            cfg.max_block_size
        } else {
            b
        };
        neg.blksize = chosen;
        proof {
            insert_new(out@, OptionValue::BlockSize(chosen));
        }
        out.insert(OptionValue::BlockSize(chosen));
    }
    if let Some(t) = requested.timeout() {
        let chosen: u8 = if t < 1 {
            1
        } else {
            t
        };
        neg.timeout = Duration::from_secs(chosen as u64);
        proof {
            insert_new(out@, OptionValue::Timeout(chosen));
        }
        out.insert(OptionValue::Timeout(chosen));
    }
    if let Some(announced) = requested.transfer_size() {
        let size: u64 = match file_size_for_tsize {
            Some(size) => size,
            None => announced,
        };
        proof {
            insert_new(out@, OptionValue::TransferSize(size));
        }
        out.insert(OptionValue::TransferSize(size));
    }
    if let Some(w) = requested.window_size() {
        if cfg.allow_windowsize {
            let chosen: u16 = if w < 1 {
                1
            } else {
                w
            };
            neg.windowsize = chosen;
            proof {
                insert_new(out@, OptionValue::WindowSize(chosen));
            }
            out.insert(OptionValue::WindowSize(chosen));
        }
    }
    assert(out@ =~= agreed(*cfg, requested@, file_size_for_tsize));
    (out, neg)
}

/// What to do about a first datagram.
#[derive(Debug)]
pub enum Request {
    /// Nothing: it is no request.  Where it is no packet at all, with the
    /// reason.
    Ignored(Option<Error>),
    /// Refuse the request.
    Refused(Step),
    /// Open the file at `path` for reading and serve it.
    Read { path: String, mode: Mode, options: OptionSet },
    /// Open the file at `path` for writing and take its contents.  It must not
    /// exist yet where `create_new` says so, and is emptied otherwise.
    Write { path: String, mode: Mode, options: OptionSet, create_new: bool },
}

/// What a [`Request`] asks for.
pub enum RequestView {
    Ignored(Option<ErrorView>),
    Refused(StepView),
    Read { path: Seq<char>, mode: Mode, options: Seq<OptionValue> },
    Write { path: Seq<char>, mode: Mode, options: Seq<OptionValue>, create_new: bool },
}

impl View for Request {
    type V = RequestView;

    open spec fn view(&self) -> RequestView {
        match *self {
            Request::Ignored(None) => RequestView::Ignored(None),
            Request::Ignored(Some(reason)) => RequestView::Ignored(Some(reason@)),
            Request::Refused(step) => RequestView::Refused(step@),
            Request::Read { path, mode, options } => RequestView::Read {
                path: path@,
                mode,
                options: options@,
            },
            Request::Write { path, mode, options, create_new } => RequestView::Write {
                path: path@,
                mode,
                options: options@,
                create_new,
            },
        }
    }
}

/// The step that reports an error to the peer and ends the transfer.
pub open spec fn failing(
    peer: SocketAddr,
    code: ErrorCode,
    msg: Seq<char>,
    error: ErrorView,
) -> StepView {
    StepView {
        outputs: seq![send_view(peer, PacketView::Error { code, msg })],
        next: NextView::Fail(error),
    }
}

/// How a request for a file outside of the served directory is refused.
pub open spec fn refusal(peer: SocketAddr, filename: Seq<char>) -> StepView {
    failing(
        peer,
        ErrorCode::AccessViolation,
        "access violation"@,
        ErrorView::InvalidPath(filename),
    )
}

/// What to do about the datagram `frame` from `peer`.
pub open spec fn request_in(cfg: Config, peer: SocketAddr, frame: Seq<u8>) -> RequestView {
    match packet_of(frame) {
        Err(reason) => RequestView::Ignored(Some(reason)),
        Ok(PacketView::Rrq { filename, mode, options }) => if is_served(filename) {
            RequestView::Read { path: below(cfg.root@, filename), mode, options }
        } else {
            RequestView::Refused(refusal(peer, filename))
        },
        Ok(PacketView::Wrq { filename, mode, options }) => if is_served(filename) {
            RequestView::Write {
                path: below(cfg.root@, filename),
                mode,
                options,
                create_new: !cfg.allow_overwrite,
            }
        } else {
            RequestView::Refused(refusal(peer, filename))
        },
        Ok(_) => RequestView::Ignored(None),
    }
}

/// Whether `path` leads from the directory `root` downwards only.
pub open spec fn stays_below(root: Seq<char>, path: Seq<char>) -> bool {
    let depth = components(root).len() as int;
    &&& root.is_prefix_of(path)
    &&& depth <= components(path).len()
    &&& components(path).take(depth) == components(root)
    &&& !components(path).skip(depth).contains(parent_dir())
}

/// Whatever a datagram says, no file is opened but below the root.
pub proof fn served_files_stay_below_root(cfg: Config, peer: SocketAddr, frame: Seq<u8>)
    ensures
        match request_in(cfg, peer, frame) {
            RequestView::Read { path, .. } => stays_below(cfg.root@, path),
            RequestView::Write { path, .. } => stays_below(cfg.root@, path),
            _ => true,
        },
{
    let name = match packet_of(frame) {
        Ok(PacketView::Rrq { filename, .. }) => filename,
        Ok(PacketView::Wrq { filename, .. }) => filename,
        _ => Seq::empty(),
    };
    if is_served(name) {
        let root = components(cfg.root@);
        resolved_paths_stay_below_root(cfg.root@, name);
        let path = components(below(cfg.root@, name));
        assert(path.take(root.len() as int) =~= root);
        assert(path.skip(root.len() as int) =~= components(name));
    }
}

/// Refuses a request for a file outside of the served directory.  `error` says
/// why.
pub fn refuse(peer: SocketAddr, error: Error) -> (step: Step)
    ensures
        step@ == failing(peer, ErrorCode::AccessViolation, "access violation"@, error@),
{
    proof {
        reveal_strlit("access violation");
        ascii_text_wire_len("access violation"@);
    }
    single(send_error(peer, ErrorCode::AccessViolation, "access violation"), Next::Fail(error))
}

/// Decides what to do about the first datagram from a peer.
pub fn handle_initial(cfg: &Config, peer: SocketAddr, frame: &[u8]) -> (request: Request)
    ensures
        request@ == request_in(*cfg, peer, frame@),
{
    match decode(frame) {
        Err(reason) => Request::Ignored(Some(reason)),
        Ok(Packet::Rrq { filename, mode, options }) => {
            match resolve(cfg.root.as_str(), filename.as_str()) {
                Ok(path) => Request::Read { path, mode, options },
                Err(error) => Request::Refused(refuse(peer, error)),
            }
        },
        Ok(Packet::Wrq { filename, mode, options }) => {
            match resolve(cfg.root.as_str(), filename.as_str()) {
                Ok(path) => Request::Write {
                    path,
                    mode,
                    options,
                    create_new: !cfg.allow_overwrite,
                },
                Err(error) => Request::Refused(refuse(peer, error)),
            }
        },
        Ok(_) => Request::Ignored(None),
    }
}

/// The error code and the text that report a failure to open a file.
pub open spec fn failure_report(failure: IoFailure) -> (ErrorCode, Seq<char>) {
    match failure {
        IoFailure::NotFound => (ErrorCode::FileNotFound, "file not found"@),
        IoFailure::PermissionDenied => (ErrorCode::AccessViolation, "access violation"@),
        IoFailure::AlreadyExists => (ErrorCode::FileExists, "file already exists"@),
        IoFailure::Other => (ErrorCode::NotDefined, "i/o error"@),
    }
}

/// Reports to the peer that the requested file could not be opened.
pub fn map_io_to_error(peer: SocketAddr, failure: IoFailure) -> (step: Step)
    ensures
        step@ == failing(
            peer,
            failure_report(failure).0,
            failure_report(failure).1,
            ErrorView::Io(failure),
        ),
{
    proof {
        reveal_strlit("file not found");
        reveal_strlit("access violation");
        reveal_strlit("file already exists");
        reveal_strlit("i/o error");
        ascii_text_wire_len(failure_report(failure).1);
    }
    let (code, msg): (ErrorCode, &str) = match failure {
        IoFailure::NotFound => (ErrorCode::FileNotFound, "file not found"),
        IoFailure::PermissionDenied => (ErrorCode::AccessViolation, "access violation"),
        IoFailure::AlreadyExists => (ErrorCode::FileExists, "file already exists"),
        IoFailure::Other => (ErrorCode::NotDefined, "i/o error"),
    };
    single(send_error(peer, code, msg), Next::Fail(Error::Io(failure)))
}

/// What an [`RrqSender`] stands for.
#[verifier::ext_equal]
pub struct RrqSenderView {
    /// The options that the client has not acknowledged yet, if any.
    pub oack: Option<Seq<OptionValue>>,
    /// How often these were sent again.
    pub attempt: u32,
    /// The transfer behind them.
    pub out: OutgoingView,
}

impl RrqSenderView {
    pub open spec fn wf(self) -> bool {
        &&& self.out.wf()
        &&& self.attempt <= self.out.retries
        &&& self.oack matches Some(options) ==> distinct_kinds(options)
    }

    /// Whether the next event must be a read of the file.
    pub open spec fn reading(self) -> bool {
        self.oack is None && self.out.reading()
    }

    /// Whether the next event must be a datagram or a timeout.
    pub open spec fn waiting(self) -> bool {
        self.oack is Some || self.out.waiting()
    }

    /// Sends the options and waits.
    pub open spec fn offered(self) -> StepView {
        let oack = PacketView::Oack { options: self.oack->0 };
        StepView {
            outputs: seq![send_view(self.out.peer, oack)],
            next: NextView::Wait(self.out.timeout),
        }
    }

    /// Serves a read request: offers the options that were agreed to, or
    /// begins with the first block if there are none.
    pub open spec fn start(
        cfg: Config,
        peer: SocketAddr,
        mode: Mode,
        requested: Seq<OptionValue>,
        file_size: u64,
    ) -> (RrqSenderView, StepView) {
        let options = agreed(cfg, requested, Some(file_size));
        let neg = in_force(cfg, requested);
        let out = OutgoingView::start(peer, cfg.retries, true, mode, neg);
        if options.len() > 0 {
            let next = RrqSenderView { oack: Some(options), attempt: 0, out };
            (next, next.offered())
        } else {
            RrqSenderView { oack: None, attempt: 0, out }.proceed()
        }
    }

    /// Goes on with the blocks.
    pub open spec fn proceed(self) -> (RrqSenderView, StepView) {
        let (out, step) = self.out.proceed();
        (RrqSenderView { oack: None, attempt: self.attempt, out }, step)
    }

    /// Offers the options again, `retries` times at most.
    pub open spec fn offer_again(self) -> (RrqSenderView, StepView) {
        if self.attempt >= self.out.retries {
            let end = NextView::Fail(ErrorView::Timeout(self.out.retries));
            (self, StepView { outputs: Seq::empty(), next: end })
        } else {
            let next = RrqSenderView { attempt: (self.attempt + 1) as u32, ..self };
            (next, next.offered())
        }
    }

    /// After a read of the file.
    pub open spec fn on_chunk(self, chunk: Seq<u8>) -> (RrqSenderView, StepView) {
        let (out, step) = self.out.on_chunk(chunk);
        (RrqSenderView { out, ..self }, step)
    }

    /// After a wait in which the client sent nothing.
    pub open spec fn on_timeout(self) -> (RrqSenderView, StepView) {
        if self.oack is Some {
            self.offer_again()
        } else {
            let (out, step) = self.out.on_timeout();
            (RrqSenderView { out, ..self }, step)
        }
    }

    /// After a datagram.  Options that were offered must be acknowledged with
    /// block number 0 before the first block goes out; a client that sends
    /// anything else but an error is offered them again.
    pub open spec fn on_datagram(self, src: SocketAddr, bytes: Seq<u8>) -> (
        RrqSenderView,
        StepView,
    ) {
        if self.oack is Some {
            if src != self.out.peer {
                (self, stranger_step(src))
            } else {
                match packet_of(bytes) {
                    Ok(PacketView::Ack { block }) if block == 0 => self.proceed(),
                    Ok(PacketView::Error { code, msg }) => {
                        let end = NextView::Fail(ErrorView::Peer { code, msg });
                        (self, StepView { outputs: Seq::empty(), next: end })
                    },
                    _ => self.offer_again(),
                }
            }
        } else {
            let (out, step) = self.out.on_datagram(src, bytes);
            (RrqSenderView { out, ..self }, step)
        }
    }

    /// Whether a step asks for the event that the state is ready for.
    pub open spec fn follows(self, step: StepView) -> bool {
        match step.next {
            NextView::Read(_) => self.reading(),
            NextView::Wait(_) => self.waiting(),
            NextView::KeepWaiting => self.waiting(),
            _ => true,
        }
    }
}

/// The state after `n` offers in a row that were not acknowledged.
pub open spec fn after_offers(s: RrqSenderView, n: nat) -> RrqSenderView
    decreases n,
{
    if n == 0 {
        s
    } else {
        after_offers(s, (n - 1) as nat).offer_again().0
    }
}

/// Options that stay unacknowledged are offered again as long as the retries
/// last, and then the transfer ends with the number of retries.
pub proof fn offers_are_bounded(s: RrqSenderView, n: nat)
    requires
        s.wf(),
    ensures
        s.attempt + n < s.out.retries ==> after_offers(s, n).offer_again().1 == s.offered(),
        s.attempt + n >= s.out.retries ==> after_offers(s, n).offer_again().1 == (StepView {
            outputs: Seq::empty(),
            next: NextView::Fail(ErrorView::Timeout(s.out.retries)),
        }),
        after_offers(s, n) == (RrqSenderView {
            attempt: (if s.attempt + n < s.out.retries {
                s.attempt + n
            } else {
                s.out.retries as int
            }) as u32,
            ..s
        }),
    decreases n,
{
    if n > 0 {
        offers_are_bounded(s, (n - 1) as nat);
    }
}

/// Serves a read request: the server is the sender.  Its owner reads the file
/// and exchanges the datagrams.
#[derive(Debug)]
pub struct RrqSender {
    oack: Option<OptionSet>,
    attempt: u32,
    out: Outgoing,
}

impl View for RrqSender {
    type V = RrqSenderView;

    closed spec fn view(&self) -> RrqSenderView {
        RrqSenderView {
            oack: match self.oack {
                Some(options) => Some(options@),
                None => None,
            },
            attempt: self.attempt,
            out: self.out@,
        }
    }
}

/// Serves a read request for a file that was opened and has `file_size`
/// bytes.
pub fn serve_rrq(
    cfg: &Config,
    peer: SocketAddr,
    mode: Mode,
    options: &OptionSet,
    file_size: u64,
) -> (r: (RrqSender, Step))
    requires
        block_size_in(options@) is Some ==> cfg.max_block_size >= MIN_BLOCK_SIZE,
    ensures
        r.0@ == RrqSenderView::start(*cfg, peer, mode, options@, file_size).0,
        r.1@ == RrqSenderView::start(*cfg, peer, mode, options@, file_size).1,
        r.0@.wf(),
        r.0@.follows(r.1@),
{
    let (oack, neg) = negotiate(cfg, options, Some(file_size));
    let mut out: Outgoing = Outgoing::new(peer, cfg.retries, true, mode, neg);
    if oack.is_empty() {
        let step = out.proceed();
        (RrqSender { oack: None, attempt: 0, out }, step)
    } else {
        let step = single(send_oack(peer, &oack), Next::Wait(neg.timeout));
        (RrqSender { oack: Some(oack), attempt: 0, out }, step)
    }
}

impl RrqSender {
    fn offer_again(&mut self) -> (step: Step)
        requires
            old(self)@.wf(),
            old(self)@.oack is Some,
        ensures
            final(self)@ == old(self)@.offer_again().0,
            step@ == old(self)@.offer_again().1,
            final(self)@.wf(),
            final(self)@.oack is Some,
    {
        if self.attempt >= self.out.retries() {
            return quiet(Next::Fail(Error::Timeout(self.out.retries())));
        }
        self.attempt = self.attempt + 1;
        match &self.oack {
            Some(options) => single(
                send_oack(self.out.peer(), options),
                Next::Wait(self.out.timeout()),
            ),
            None => quiet(Next::KeepWaiting),
        }
    }

    /// After a read of the file.
    pub fn on_chunk(&mut self, chunk: &[u8]) -> (step: Step)
        requires
            old(self)@.wf(),
            old(self)@.reading(),
        ensures
            final(self)@ == old(self)@.on_chunk(chunk@).0,
            step@ == old(self)@.on_chunk(chunk@).1,
            final(self)@.wf(),
            final(self)@.follows(step@),
    {
        self.out.feed(chunk);
        self.out.proceed()
    }

    /// After a wait in which the client sent nothing.
    pub fn on_timeout(&mut self) -> (step: Step)
        requires
            old(self)@.wf(),
            old(self)@.waiting(),
        ensures
            final(self)@ == old(self)@.on_timeout().0,
            step@ == old(self)@.on_timeout().1,
            final(self)@.wf(),
            final(self)@.follows(step@),
    {
        if self.oack.is_some() {
            self.offer_again()
        } else {
            self.out.on_timeout()
        }
    }

    /// After a datagram.
    pub fn on_datagram(&mut self, src: SocketAddr, bytes: &[u8]) -> (step: Step)
        requires
            old(self)@.wf(),
            old(self)@.waiting(),
        ensures
            final(self)@ == old(self)@.on_datagram(src, bytes@).0,
            step@ == old(self)@.on_datagram(src, bytes@).1,
            final(self)@.wf(),
            final(self)@.follows(step@),
    {
        if !self.oack.is_some() {
            return self.out.on_datagram(src, bytes);
        }
        if src != self.out.peer() {
            return answer_stranger(src);
        }
        match decode(bytes) {
            Ok(Packet::Ack { block: 0 }) => {
                self.oack = None;
                self.out.proceed()
            },
            Ok(Packet::Error { code, msg }) => quiet(Next::Fail(Error::Peer { code, msg })),
            _ => self.offer_again(),
        }
    }
}

/// How a write request is served: the options that were agreed to, or else
/// the acknowledgement of block 0, tell the client to begin.
pub open spec fn taking(
    cfg: Config,
    peer: SocketAddr,
    mode: Mode,
    requested: Seq<OptionValue>,
) -> (IncomingView, StepView) {
    let options = agreed(cfg, requested, None);
    let inc = IncomingView::start(peer, cfg.retries, true, mode, in_force(cfg, requested));
    let answer = if options.len() > 0 {
        send_view(peer, PacketView::Oack { options })
    } else {
        inc.ack(0)
    };
    (inc, inc.wait(seq![answer]))
}

/// Serves a write request for a file that was opened: the server is the
/// receiver.
pub fn serve_wrq(cfg: &Config, peer: SocketAddr, mode: Mode, options: &OptionSet) -> (r: (
    Incoming,
    Step,
))
    requires
        block_size_in(options@) is Some ==> cfg.max_block_size >= MIN_BLOCK_SIZE,
    ensures
        r.0@ == taking(*cfg, peer, mode, options@).0,
        r.1@ == taking(*cfg, peer, mode, options@).1,
        r.0@.wf(),
        !r.0@.finished,
{
    let (oack, neg) = negotiate(cfg, options, None);
    let inc: Incoming = Incoming::new(peer, cfg.retries, true, mode, neg);
    let answer: Output = if oack.is_empty() {
        send_ack(peer, 0)
    } else {
        send_oack(peer, &oack)
    };
    (inc, single(answer, Next::Wait(neg.timeout)))
}

/// What a server does by default: it listens on port 69 of every interface,
/// serves the current directory, replaces nothing, waits five seconds for a
/// packet, sends it again five times, and agrees to block sizes up to 65464
/// and to any window size.
pub proof fn defaults_are_these(cfg: Config)
    requires
        cfg.is_default(),
    ensures
        cfg.listen == (SocketAddr::V4 { ipv4: 0, port: 69 }),
        cfg.root@ == seq!['.'],
        !cfg.allow_overwrite,
        cfg.timeout == duration_of_secs(5),
        cfg.retries == 5,
        cfg.max_block_size == 65464,
        cfg.allow_windowsize,
{
    reveal_strlit(".");
    assert("."@ =~= seq!['.']);
}

/// What is agreed to and what is in force, value by value.  Nothing is agreed
/// to that was not asked for, and then the default is in force: blocks of 512
/// bytes, one at a time, and the timeout of the configuration.  A block size
/// in the range from 8 to the configured maximum, a timeout and a window size
/// that are not 0 are agreed to as they were asked for; what lies outside of
/// the range is brought to its nearer end.  The window size is left out where
/// the configuration does not allow it.  The transfer size is that of the
/// file to read, and otherwise the one that was announced.
pub proof fn each_option_is_agreed_like_this(
    cfg: Config,
    requested: Seq<OptionValue>,
    file_size: Option<u64>,
)
    requires
        block_size_in(requested) is Some ==> cfg.max_block_size >= 8,
    ensures
        ({
            let options = agreed(cfg, requested, file_size);
            let neg = in_force(cfg, requested);
            &&& match block_size_in(requested) {
                None => block_size_in(options) is None && neg.blksize == 512,
                Some(b) => {
                    &&& block_size_in(options) == Some(neg.blksize)
                    &&& 8 <= b <= cfg.max_block_size ==> neg.blksize == b
                    &&& b < 8 ==> neg.blksize == 8
                    &&& b > cfg.max_block_size ==> neg.blksize == cfg.max_block_size
                },
            }
            &&& match timeout_in(requested) {
                None => timeout_in(options) is None && neg.timeout == cfg.timeout,
                Some(t) => {
                    &&& t > 0 ==> timeout_in(options) == Some(t) && neg.timeout == duration_of_secs(
                        t as u64,
                    )
                    &&& t == 0 ==> timeout_in(options) == Some(1u8) && neg.timeout
                        == duration_of_secs(1)
                },
            }
            &&& match transfer_size_in(requested) {
                None => transfer_size_in(options) is None,
                Some(announced) => transfer_size_in(options) == (if file_size is Some {
                    file_size
                } else {
                    Some(announced)
                }),
            }
            &&& match window_size_in(requested) {
                None => window_size_in(options) is None && neg.windowsize == 1,
                Some(w) => {
                    &&& !cfg.allow_windowsize ==> window_size_in(options) is None && neg.windowsize
                        == 1
                    &&& cfg.allow_windowsize && w > 0 ==> window_size_in(options) == Some(w)
                        && neg.windowsize == w
                    &&& cfg.allow_windowsize && w == 0 ==> window_size_in(options) == Some(1u16)
                        && neg.windowsize == 1
                },
            }
        }),
{
    places_of_agreed_options(cfg, requested, file_size);
    let options = agreed(cfg, requested, file_size);
    let b: int = count_of(agreed_block_size(cfg, requested) is Some);
    let t: int = b + count_of(agreed_timeout(requested) is Some);
    let s: int = t + count_of(agreed_transfer_size(requested, file_size) is Some);
    the_first_value_counts(
        options,
        if b == 1 {
            0
        } else {
            options.len() as int
        },
    );
    the_first_value_counts(
        options,
        if t > b {
            b
        } else {
            options.len() as int
        },
    );
    the_first_value_counts(
        options,
        if s > t {
            t
        } else {
            options.len() as int
        },
    );
    the_first_value_counts(options, s);
}

/// One or none.
spec fn count_of(there: bool) -> int {
    if there {
        1
    } else {
        0
    }
}

/// Where the options stand that are agreed to.
proof fn places_of_agreed_options(
    cfg: Config,
    requested: Seq<OptionValue>,
    file_size: Option<u64>,
)
    ensures
        ({
            let options = agreed(cfg, requested, file_size);
            let b: int = count_of(agreed_block_size(cfg, requested) is Some);
            let t: int = b + count_of(agreed_timeout(requested) is Some);
            let s: int = t + count_of(agreed_transfer_size(requested, file_size) is Some);
            let w: int = s + count_of(agreed_window_size(cfg, requested) is Some);
            &&& options.len() == w
            &&& b > 0 ==> options[0] == OptionValue::BlockSize(agreed_block_size(cfg, requested)->0)
            &&& t > b ==> options[b] == OptionValue::Timeout(agreed_timeout(requested)->0)
            &&& s > t ==> options[t] == OptionValue::TransferSize(
                agreed_transfer_size(requested, file_size)->0,
            )
            &&& w > s ==> options[s] == OptionValue::WindowSize(
                agreed_window_size(cfg, requested)->0,
            )
        }),
{
}

/// The options that are agreed to stand in the order block size, timeout,
/// transfer size, window size, none of them twice.
pub proof fn agreed_options_are_in_order(
    cfg: Config,
    requested: Seq<OptionValue>,
    file_size: Option<u64>,
    i: int,
    j: int,
)
    requires
        0 <= i < j < agreed(cfg, requested, file_size).len(),
    ensures
        ({
            let options = agreed(cfg, requested, file_size);
            match options[j] {
                OptionValue::BlockSize(_) => false,
                OptionValue::Timeout(_) => options[i] is BlockSize,
                OptionValue::TransferSize(_) => options[i] is BlockSize || options[i] is Timeout,
                OptionValue::WindowSize(_) => !(options[i] is WindowSize),
            }
        }),
{
    places_of_agreed_options(cfg, requested, file_size);
}

/// What is done about a first datagram.  One that is no packet, or no
/// request, is ignored, the former with the reason.  A request for a file
/// that is served opens it below the root, with the mode and the options of
/// the request; a write creates the file anew unless overwriting is allowed.
/// Any other request is answered with error code 2.
pub proof fn first_datagrams_are_answered_like_this(
    cfg: Config,
    peer: SocketAddr,
    frame: Seq<u8>,
)
    ensures
        match packet_of(frame) {
            Err(reason) => request_in(cfg, peer, frame) == RequestView::Ignored(Some(reason)),
            Ok(PacketView::Rrq { filename, mode, options }) => if is_served(filename) {
                request_in(cfg, peer, frame) == (RequestView::Read {
                    path: below(cfg.root@, filename),
                    mode,
                    options,
                })
            } else {
                &&& request_in(cfg, peer, frame) is Refused
                &&& request_in(cfg, peer, frame)->Refused_0 == refusal(peer, filename)
            },
            Ok(PacketView::Wrq { filename, mode, options }) => if is_served(filename) {
                &&& request_in(cfg, peer, frame) is Write
                &&& request_in(cfg, peer, frame)->Write_path == below(cfg.root@, filename)
                &&& request_in(cfg, peer, frame)->Write_mode == mode
                &&& request_in(cfg, peer, frame)->Write_options == options
                &&& request_in(cfg, peer, frame)->create_new <==> !cfg.allow_overwrite
            } else {
                &&& request_in(cfg, peer, frame) is Refused
                &&& request_in(cfg, peer, frame)->Refused_0 == refusal(peer, filename)
            },
            Ok(_) => request_in(cfg, peer, frame) == RequestView::Ignored(None),
        },
{
}

/// A refusal is one error packet to the peer, with code 2 and the text
/// "access violation", and an end that names the file.  Whatever the error, a
/// transfer that fails tells the peer once and ends.
pub proof fn failures_are_told_once(
    peer: SocketAddr,
    filename: Seq<char>,
    code: ErrorCode,
    msg: Seq<char>,
    error: ErrorView,
)
    ensures
        refusal(peer, filename).next == NextView::Fail(ErrorView::InvalidPath(filename)),
        refusal(peer, filename).outputs == seq![
            OutputView::Send {
                to: peer,
                datagram: packet_wire(
                    PacketView::Error {
                        code: ErrorCode::AccessViolation,
                        msg: "access violation"@,
                    },
                ),
            },
        ],
        failing(peer, code, msg, error).next == NextView::Fail(error),
        failing(peer, code, msg, error).outputs == seq![
            OutputView::Send {
                to: peer,
                datagram: packet_wire(PacketView::Error { code, msg }),
            },
        ],
{
}

/// How a failure to open a file is told: a file that is not there with code
/// 1, one that may not be opened with code 2, one that may not be replaced
/// with code 6, and any other failure with code 0.
pub proof fn failures_have_these_codes(failure: IoFailure)
    ensures
        failure is NotFound ==> failure_report(failure) == (
            ErrorCode::FileNotFound,
            "file not found"@,
        ),
        failure is PermissionDenied ==> failure_report(failure) == (
            ErrorCode::AccessViolation,
            "access violation"@,
        ),
        failure is AlreadyExists ==> failure_report(failure) == (
            ErrorCode::FileExists,
            "file already exists"@,
        ),
        failure is Other ==> failure_report(failure) == (ErrorCode::NotDefined, "i/o error"@),
{
}

/// A request is seen with all that it asks for.
pub proof fn requests_are_seen_whole(request: Request)
    ensures
        match request {
            Request::Ignored(None) => request@ == RequestView::Ignored(None),
            Request::Ignored(Some(reason)) => request@ == RequestView::Ignored(Some(reason@)),
            Request::Refused(step) => request@ == RequestView::Refused(step@),
            Request::Read { path, mode, options } => request@ == (RequestView::Read {
                path: path@,
                mode,
                options: options@,
            }),
            Request::Write { path, mode, options, create_new } => request@ == (RequestView::Write {
                path: path@,
                mode,
                options: options@,
                create_new,
            }),
        },
{
}

/// How a read request is served.  Where options were agreed to, they are
/// offered to the client, once, before anything of the file is read;
/// otherwise the transfer goes on at once.  Either way the server sends the
/// file to the client who asked, with the mode of the request, the terms that
/// are in force, and the retries of the configuration.
pub proof fn reads_are_served_like_this(
    cfg: Config,
    peer: SocketAddr,
    mode: Mode,
    requested: Seq<OptionValue>,
    file_size: u64,
)
    ensures
        ({
            let (s, step) = RrqSenderView::start(cfg, peer, mode, requested, file_size);
            let options = agreed(cfg, requested, Some(file_size));
            let neg = in_force(cfg, requested);
            let begun = OutgoingView::start(peer, cfg.retries, true, mode, neg);
            &&& s.attempt == 0
            &&& options.len() > 0 ==> {
                &&& s.oack == Some(options)
                &&& s.out == begun
                &&& step.next == NextView::Wait(neg.timeout)
                &&& step.outputs == seq![
                    OutputView::Send {
                        to: peer,
                        datagram: packet_wire(PacketView::Oack { options }),
                    },
                ]
            }
            &&& options.len() == 0 ==> s.oack is None && (s.out, step) == begun.proceed()
        }),
{
}

/// Options that were offered stay so until the client acknowledges block 0;
/// then the transfer goes on.  An error from the client ends it; a stranger
/// is told so; and anything else from the client, or nothing in time, has the
/// options offered again as long as the retries last.  Once they are
/// acknowledged, the transfer alone decides.
pub proof fn offers_are_answered_like_this(
    s: RrqSenderView,
    chunk: Seq<u8>,
    src: SocketAddr,
    bytes: Seq<u8>,
)
    requires
        s.wf(),
    ensures
        s.oack matches Some(options) ==> {
            let (late, again) = s.on_timeout();
            let (next, step) = s.on_datagram(src, bytes);
            &&& s.attempt < s.out.retries ==> {
                &&& late == (RrqSenderView { attempt: (s.attempt + 1) as u32, ..s })
                &&& again.next == NextView::Wait(s.out.timeout)
                &&& again.outputs == seq![
                    OutputView::Send {
                        to: s.out.peer,
                        datagram: packet_wire(PacketView::Oack { options }),
                    },
                ]
            }
            &&& s.attempt == s.out.retries ==> {
                &&& late == s
                &&& again.outputs.len() == 0
                &&& again.next == NextView::Fail(ErrorView::Timeout(s.out.retries))
            }
            &&& src != s.out.peer ==> next == s && step == stranger_step(src)
            &&& src == s.out.peer ==> match packet_of(bytes) {
                Ok(PacketView::Error { code, msg }) => {
                    &&& next == s
                    &&& step.outputs.len() == 0
                    &&& step.next == NextView::Fail(ErrorView::Peer { code, msg })
                },
                Ok(PacketView::Ack { block }) => if block == 0 {
                    next.oack is None && (next.out, step) == s.out.proceed()
                } else {
                    (next, step) == s.on_timeout()
                },
                _ => (next, step) == s.on_timeout(),
            }
        },
        s.oack is None ==> {
            &&& s.on_timeout().0.oack is None
            &&& (s.on_timeout().0.out, s.on_timeout().1) == s.out.on_timeout()
            &&& s.on_datagram(src, bytes).0.oack is None
            &&& (s.on_datagram(src, bytes).0.out, s.on_datagram(src, bytes).1) == s.out.on_datagram(
                src,
                bytes,
            )
            &&& s.on_chunk(chunk).0.oack is None
            &&& (s.on_chunk(chunk).0.out, s.on_chunk(chunk).1) == s.out.on_chunk(chunk)
        },
{
}

/// How a write request is served.  The server answers the client who asked
/// with the options that were agreed to, or with the acknowledgement of block
/// 0 if there are none, and waits for block 1: for as long as the client asked
/// for, or else for the timeout of the configuration.
pub proof fn writes_are_served_like_this(
    cfg: Config,
    peer: SocketAddr,
    mode: Mode,
    requested: Seq<OptionValue>,
)
    ensures
        ({
            let (inc, step) = taking(cfg, peer, mode, requested);
            let options = agreed(cfg, requested, None);
            let neg = in_force(cfg, requested);
            &&& inc == IncomingView::start(peer, cfg.retries, true, mode, neg)
            &&& step.outputs == seq![
                OutputView::Send {
                    to: peer,
                    datagram: packet_wire(
                        if options.len() > 0 {
                            PacketView::Oack { options }
                        } else {
                            PacketView::Ack { block: 0 }
                        },
                    ),
                },
            ]
            &&& match timeout_in(requested) {
                None => step.next == NextView::Wait(cfg.timeout),
                Some(t) => t > 0 ==> step.next == NextView::Wait(duration_of_secs(t as u64)),
            }
            &&& step.next == NextView::Wait(inc.timeout)
        }),
{
}

} // verus!
