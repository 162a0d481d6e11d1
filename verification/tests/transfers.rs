//! Transfers between a client and a server over a network in memory.
use aitftp::addr::SocketAddr;
use aitftp::client::{Client, GetSession, Options, PutSession};
use aitftp::error::{Error, IoFailure};
use aitftp::incoming::Incoming;
use aitftp::outgoing::Outgoing;
use aitftp::proto::{decode, encode_into, ErrorCode, Mode, OptionSet, OptionValue, Packet};
use aitftp::sender::{consume_ack, consume_ack_in_window, u16_le_in_window, Sender, SliceSource};
use aitftp::server::{
    handle_initial, map_io_to_error, refuse, serve_rrq, serve_wrq, Config, Request, RrqSender,
};
use aitftp::session::{Negotiated, Next, Output, Step};
use bytes::BytesMut;
use std::collections::{HashMap, VecDeque};
use std::time::Duration;

const LISTEN: SocketAddr = SocketAddr::V4 { ipv4: 0x7f000001, port: 69 };
const TID: SocketAddr = SocketAddr::V4 { ipv4: 0x7f000001, port: 3000 };
const CLIENT: SocketAddr = SocketAddr::V4 { ipv4: 0x7f000001, port: 4000 };
const STRANGER: SocketAddr = SocketAddr::V4 { ipv4: 0x0a000001, port: 5000 };

fn wire(packet: &Packet<'_>) -> Vec<u8> {
    let mut buf = BytesMut::new();
    encode_into(packet, &mut buf);
    buf.to_vec()
}

fn ack(block: u16) -> Vec<u8> {
    wire(&Packet::Ack { block })
}

fn data(block: u16, data: &[u8]) -> Vec<u8> {
    wire(&Packet::Data { block, data })
}

/// The datagrams of a step, with their destinations.
fn sent(step: &Step) -> Vec<(SocketAddr, Vec<u8>)> {
    let mut all = Vec::new();
    for output in &step.outputs {
        if let Output::Send { to, datagram } = output {
            all.push((*to, datagram.to_vec()));
        }
    }
    all
}

/// The bytes that a step writes.
fn written(step: &Step) -> Vec<u8> {
    let mut all = Vec::new();
    for output in &step.outputs {
        if let Output::Write(bytes) = output {
            all.extend_from_slice(bytes);
        }
    }
    all
}

/// What a step does, in order: `w` for a write, `f` for a flush, `s` for a
/// datagram.
fn order(step: &Step) -> String {
    let mut text = String::new();
    for output in &step.outputs {
        text.push(match output {
            Output::Send { .. } => 's',
            Output::Write(_) => 'w',
            Output::Flush => 'f',
        });
    }
    text
}

enum Transfer {
    Idle,
    Serving(RrqSender, SliceSource),
    Taking(Incoming, String),
}

/// A server with its files in memory.
struct Site {
    cfg: Config,
    files: HashMap<String, Vec<u8>>,
    transfer: Transfer,
    error: Option<Error>,
}

impl Site {
    fn new(cfg: Config) -> Site {
        Site {
            cfg: Config { root: "/srv".to_string(), ..cfg },
            files: HashMap::new(),
            transfer: Transfer::Idle,
            error: None,
        }
    }

    fn with_file(cfg: Config, name: &str, content: &[u8]) -> Site {
        let mut site = Site::new(cfg);
        site.files.insert(format!("/srv/{name}"), content.to_vec());
        site
    }

    fn file(&self, name: &str) -> &[u8] {
        &self.files[&format!("/srv/{name}")]
    }

    /// Performs a step, with the reads that it asks for.
    fn perform(&mut self, step: Step, out: &mut Vec<Vec<u8>>) {
        let mut step = step;
        loop {
            for (to, datagram) in sent(&step) {
                assert_eq!(to, CLIENT);
                out.push(datagram);
            }
            if let Transfer::Taking(_, path) = &self.transfer {
                let bytes = written(&step);
                self.files.get_mut(path).unwrap().extend_from_slice(&bytes);
            }
            match step.next {
                Next::Read(n) => match &mut self.transfer {
                    Transfer::Serving(sender, source) => {
                        let chunk = source.read_chunk(n);
                        step = sender.on_chunk(&chunk);
                    }
                    _ => panic!("a read without a file"),
                },
                Next::Done => {
                    self.transfer = Transfer::Idle;
                    return;
                }
                Next::Fail(e) => {
                    self.transfer = Transfer::Idle;
                    self.error = Some(e);
                    return;
                }
                _ => return,
            }
        }
    }

    fn on_datagram(&mut self, bytes: &[u8]) -> Vec<Vec<u8>> {
        let mut out = Vec::new();
        let step = match &mut self.transfer {
            Transfer::Serving(sender, _) => sender.on_datagram(CLIENT, bytes),
            Transfer::Taking(incoming, _) => incoming.on_datagram(CLIENT, bytes),
            Transfer::Idle => match handle_initial(&self.cfg, CLIENT, bytes) {
                Request::Ignored(_) => return out,
                Request::Refused(step) => step,
                Request::Read { path, mode, options } => match self.files.get(&path) {
                    None => map_io_to_error(CLIENT, IoFailure::NotFound),
                    Some(content) => {
                        let source = SliceSource::new(content);
                        let size = content.len() as u64;
                        let (sender, step) = serve_rrq(&self.cfg, CLIENT, mode, &options, size);
                        self.transfer = Transfer::Serving(sender, source);
                        step
                    }
                },
                Request::Write { path, mode, options, create_new } => {
                    if create_new && self.files.contains_key(&path) {
                        map_io_to_error(CLIENT, IoFailure::AlreadyExists)
                    } else {
                        self.files.insert(path.clone(), Vec::new());
                        let (incoming, step) = serve_wrq(&self.cfg, CLIENT, mode, &options);
                        self.transfer = Transfer::Taking(incoming, path);
                        step
                    }
                }
            },
        };
        self.perform(step, &mut out);
        out
    }

    fn on_timeout(&mut self) -> Vec<Vec<u8>> {
        let mut out = Vec::new();
        let step = match &mut self.transfer {
            Transfer::Serving(sender, _) => sender.on_timeout(),
            Transfer::Taking(incoming, _) => incoming.on_timeout(),
            Transfer::Idle => return out,
        };
        self.perform(step, &mut out);
        out
    }
}

/// A network that loses every datagram whose running number `lossy` divides.
struct Net {
    lossy: usize,
    count: usize,
}

impl Net {
    fn safe() -> Net {
        Net { lossy: 0, count: 0 }
    }

    fn passes(&mut self) -> bool {
        self.count += 1;
        self.lossy == 0 || self.count % self.lossy != 0
    }
}

fn download(
    site: &mut Site,
    client: &Client,
    remote: &str,
    net: &mut Net,
) -> Result<(u64, Vec<u8>), Error> {
    let (mut session, mut step) = client.get(remote);
    let mut inbox: VecDeque<Vec<u8>> = VecDeque::new();
    let mut content = Vec::new();
    loop {
        content.extend(written(&step));
        for (to, datagram) in sent(&step) {
            assert!(to == LISTEN || to == TID);
            if net.passes() {
                for reply in site.on_datagram(&datagram) {
                    if net.passes() {
                        inbox.push_back(reply);
                    }
                }
            }
        }
        match step.next {
            Next::Done => return Ok((session.bytes_written(), content)),
            Next::Fail(e) => return Err(e),
            _ => {}
        }
        step = match inbox.pop_front() {
            Some(datagram) => session.on_datagram(TID, &datagram),
            None => {
                for reply in site.on_timeout() {
                    if net.passes() {
                        inbox.push_back(reply);
                    }
                }
                session.on_timeout()
            }
        };
    }
}

fn upload(
    site: &mut Site,
    client: &Client,
    remote: &str,
    content: &[u8],
    net: &mut Net,
) -> Result<u64, Error> {
    let (mut session, mut source, mut step) = client.put_bytes(remote, content);
    let mut inbox: VecDeque<Vec<u8>> = VecDeque::new();
    loop {
        for (to, datagram) in sent(&step) {
            assert!(to == LISTEN || to == TID);
            if net.passes() {
                for reply in site.on_datagram(&datagram) {
                    if net.passes() {
                        inbox.push_back(reply);
                    }
                }
            }
        }
        match step.next {
            Next::Done => return Ok(session.bytes_sent()),
            Next::Fail(e) => return Err(e),
            Next::Read(n) => {
                let chunk = source.read_chunk(n);
                step = session.on_chunk(&chunk);
                continue;
            }
            _ => {}
        }
        step = match inbox.pop_front() {
            Some(datagram) => session.on_datagram(TID, &datagram),
            None => {
                for reply in site.on_timeout() {
                    if net.passes() {
                        inbox.push_back(reply);
                    }
                }
                session.on_timeout()
            }
        };
    }
}

fn base_cfg() -> Config {
    Config { timeout: Duration::from_millis(500), retries: 3, ..Config::default() }
}

fn base_opts() -> Options {
    Options { timeout: Duration::from_millis(500), retries: 3, ..Options::default() }
}

fn client_with(opts: Options) -> Client {
    Client::with_options(LISTEN, opts)
}

#[test]
fn rrq_octet_small_no_options() {
    let payload = b"hello tftp\n";
    let mut site = Site::with_file(base_cfg(), "hi.txt", payload);
    let client = client_with(base_opts());
    let (n, got) = download(&mut site, &client, "hi.txt", &mut Net::safe()).unwrap();
    assert_eq!(n as usize, payload.len());
    assert_eq!(got, payload);
}

#[test]
fn rrq_octet_exact_block_boundary() {
    // Default blksize is 512: exercise the empty-final-block branch.
    let payload = vec![b'A'; 512];
    let mut site = Site::with_file(base_cfg(), "blk.bin", &payload);
    let client = client_with(base_opts());
    let (n, got) = download(&mut site, &client, "blk.bin", &mut Net::safe()).unwrap();
    assert_eq!(n as usize, payload.len());
    assert_eq!(got, payload);
}

#[test]
fn rrq_octet_large_with_options() {
    let mut payload = Vec::with_capacity(1_200_003);
    for i in 0..1_200_003 {
        payload.push((i & 0xff) as u8);
    }
    let mut site = Site::with_file(base_cfg(), "big.bin", &payload);
    let client = Client::builder()
        .blksize(1428)
        .windowsize(8)
        .request_tsize(true)
        .timeout(Duration::from_millis(500))
        .retries(3)
        .build(LISTEN);
    let (n, got) = download(&mut site, &client, "big.bin", &mut Net::safe()).unwrap();
    assert_eq!(n as usize, payload.len());
    assert_eq!(got, payload);
}

#[test]
fn rrq_file_not_found_surfaces_peer_error() {
    let mut site = Site::new(base_cfg());
    let client = client_with(base_opts());
    let err = download(&mut site, &client, "missing.bin", &mut Net::safe()).unwrap_err();
    match err {
        Error::Peer { code, msg } => {
            assert_eq!(code, ErrorCode::FileNotFound);
            assert_eq!(msg, "file not found");
        }
        other => panic!("expected Peer error, got {other:?}"),
    }
    assert!(matches!(site.error, Some(Error::Io(IoFailure::NotFound))));
}

#[test]
fn rrq_path_traversal_rejected() {
    let mut site = Site::new(base_cfg());
    site.files.insert("/secret.txt".to_string(), b"shhh".to_vec());
    let client = client_with(base_opts());
    let err = download(&mut site, &client, "../secret.txt", &mut Net::safe()).unwrap_err();
    assert!(matches!(err, Error::Peer { code: ErrorCode::AccessViolation, .. }));
    assert!(matches!(site.error, Some(Error::InvalidPath(_))));
}

#[test]
fn wrq_octet_small() {
    let payload = b"upload payload data\n";
    let mut site = Site::new(base_cfg());
    let client = client_with(base_opts());
    let n = upload(&mut site, &client, "up.bin", payload, &mut Net::safe()).unwrap();
    assert_eq!(n as usize, payload.len());
    assert_eq!(site.file("up.bin"), payload);
}

#[test]
fn wrq_refuses_overwrite_by_default() {
    let mut site = Site::with_file(base_cfg(), "exists.bin", b"original");
    let client = client_with(base_opts());
    let err =
        upload(&mut site, &client, "exists.bin", b"replacement", &mut Net::safe()).unwrap_err();
    assert!(matches!(err, Error::Peer { code: ErrorCode::FileExists, .. }));
    // And the original file is untouched.
    assert_eq!(site.file("exists.bin"), b"original");
}

#[test]
fn wrq_overwrite_when_allowed() {
    let cfg = Config { allow_overwrite: true, ..base_cfg() };
    let mut site = Site::with_file(cfg, "exists.bin", b"original-and-longer");
    let client = client_with(base_opts());
    upload(&mut site, &client, "exists.bin", b"replacement", &mut Net::safe()).unwrap();
    assert_eq!(site.file("exists.bin"), b"replacement");
}

#[test]
fn netascii_round_trip() {
    let text = b"line one\nline two\nline three with a CR\rin the middle\n";
    let mut site = Site::new(base_cfg());
    let client = client_with(Options { mode: Mode::NetAscii, ..base_opts() });
    let sent = upload(&mut site, &client, "notes.txt", text, &mut Net::safe()).unwrap();
    // Three line ends and one CR take a byte more on the wire.
    assert_eq!(sent as usize, text.len() + 4);
    assert_eq!(site.file("notes.txt"), text);
    let (n, got) = download(&mut site, &client, "notes.txt", &mut Net::safe()).unwrap();
    assert_eq!(n as usize, text.len());
    assert_eq!(got, text);
}

#[test]
fn rrq_with_windowsize_only() {
    // 5 default blocks = 2560 bytes; with windowsize=4 we send 4 then 1.
    let payload = vec![b'Z'; 2560];
    let mut site = Site::with_file(base_cfg(), "w.bin", &payload);
    let client = client_with(Options { windowsize: Some(4), ..base_opts() });
    let (_, got) = download(&mut site, &client, "w.bin", &mut Net::safe()).unwrap();
    assert_eq!(got, payload);
}

#[test]
fn bytes_round_trip_in_memory() {
    let cfg = Config { allow_overwrite: true, ..base_cfg() };
    let mut site = Site::new(cfg);
    let payload: Vec<u8> = (0..5000u32).map(|i| (i & 0xff) as u8).collect();
    let client = Client::builder()
        .blksize(1024)
        .windowsize(4)
        .request_tsize(true)
        .timeout(Duration::from_millis(500))
        .retries(3)
        .build(LISTEN);
    let sent = upload(&mut site, &client, "mem.bin", &payload, &mut Net::safe()).unwrap();
    assert_eq!(sent as usize, payload.len());
    let (_, got) = download(&mut site, &client, "mem.bin", &mut Net::safe()).unwrap();
    assert_eq!(got, payload);
}

#[test]
fn lost_datagrams_do_not_harm() {
    let payload: Vec<u8> = (0..20_000u32).map(|i| (i % 251) as u8).collect();
    for lossy in [5, 7, 11] {
        let mut site = Site::with_file(base_cfg(), "f", &payload);
        let client = client_with(Options {
            blksize: Some(600),
            windowsize: Some(3),
            mode: Mode::NetAscii,
            ..base_opts()
        });
        let (_, got) =
            download(&mut site, &client, "f", &mut Net { lossy, count: 0 }).unwrap();
        assert_eq!(got, payload);
    }
}

#[test]
fn uploads_that_succeed_have_arrived() {
    let payload: Vec<u8> = (0..9_000u32).map(|i| (i % 249) as u8).collect();
    let mut successes = 0;
    for lossy in 2..40 {
        let mut site = Site::new(base_cfg());
        let client = client_with(Options { mode: Mode::NetAscii, ..base_opts() });
        if upload(&mut site, &client, "f", &payload, &mut Net { lossy, count: 0 }).is_ok() {
            successes += 1;
            assert_eq!(site.file("f"), payload);
        }
    }
    assert!(successes > 0);
}

#[test]
fn values_out_of_range_are_dropped_from_requests() {
    let payload = vec![b'x'; 3000];
    // A block size that nobody asks for in range needs no range to choose from.
    let cfg = Config { max_block_size: 4, ..base_cfg() };
    let mut site = Site::with_file(cfg, "f", &payload);
    let client = client_with(Options {
        blksize: Some(4),
        timeout_secs: Some(0),
        windowsize: Some(2),
        ..base_opts()
    });
    let (_, got) = download(&mut site, &client, "f", &mut Net::safe()).unwrap();
    assert_eq!(got, payload);
    upload(&mut site, &client, "g", &payload, &mut Net::safe()).unwrap();
    assert_eq!(site.file("g"), payload);
}

#[test]
fn block_numbers_wrap_to_zero() {
    // More than 65536 blocks of 8 bytes.
    let payload: Vec<u8> = (0..530_000u32).map(|i| (i % 253) as u8).collect();
    let mut site = Site::with_file(base_cfg(), "wrap", &payload);
    let client =
        client_with(Options { blksize: Some(8), windowsize: Some(64), ..base_opts() });
    let (_, got) = download(&mut site, &client, "wrap", &mut Net::safe()).unwrap();
    assert_eq!(got, payload);
}

#[test]
fn empty_files_are_one_empty_block() {
    let mut site = Site::with_file(base_cfg(), "none", b"");
    let client = client_with(base_opts());
    let (n, got) = download(&mut site, &client, "none", &mut Net::safe()).unwrap();
    assert_eq!(n, 0);
    assert!(got.is_empty());
    assert_eq!(upload(&mut site, &client, "new", b"", &mut Net::safe()).unwrap(), 0);
    assert_eq!(site.file("new"), b"");
}

#[test]
fn cumulative_ack_window() {
    // bn=5, ack=7, windowsize=4: bn is in (3, 7], so true.
    assert!(u16_le_in_window(5, 7, 4));
    // bn=2 with ack=7, windowsize=4: 2 is below window.
    assert!(!u16_le_in_window(2, 7, 4));
    // Wrap: bn=65535, ack=2, windowsize=4: diff = 3, true.
    assert!(u16_le_in_window(65535, 2, 4));
}

fn window_from(first: u16) -> VecDeque<(u16, Vec<u8>)> {
    (0..4).map(|i| (first.wrapping_add(i), vec![i as u8])).collect()
}

#[test]
fn windows_reach_up_to_the_acknowledged_block() {
    assert!(u16_le_in_window(7, 7, 4));
    assert!(u16_le_in_window(4, 7, 4));
    assert!(!u16_le_in_window(3, 7, 4));
    assert!(!u16_le_in_window(8, 7, 4));
    assert!(!u16_le_in_window(7, 7, 0));
}

#[test]
fn acks_remove_a_prefix() {
    let left = |first: u16, ack: u16| -> (bool, usize) {
        let mut queue = window_from(first);
        let advanced = consume_ack(&mut queue, ack);
        (advanced, queue.len())
    };
    assert_eq!(left(10, 10), (true, 3));
    assert_eq!(left(10, 12), (true, 1));
    assert_eq!(left(10, 13), (true, 0));
    assert_eq!(left(10, 9), (false, 4));
    assert_eq!(left(10, 14), (false, 4));
    assert_eq!(left(65534, 0), (true, 1));
    let mut none = VecDeque::new();
    assert!(!consume_ack(&mut none, 1));
}

#[test]
fn acks_of_blocks_that_were_never_sent_do_nothing_at_a_server() {
    let mut queue: VecDeque<(u16, Vec<u8>)> = VecDeque::from(vec![(5, vec![1]), (6, vec![2])]);
    assert!(!consume_ack(&mut queue, 7));
    assert_eq!(queue, vec![(5, vec![1]), (6, vec![2])]);

    let mut out = Outgoing::new(CLIENT, 2, true, Mode::Octet, neg(8, 4));
    out.proceed();
    out.feed(b"abc");
    out.proceed();
    out.feed(&[]);
    let window = sent(&out.proceed());
    assert_eq!(window, vec![(CLIENT, data(1, b"abc"))]);
    let step = out.on_datagram(CLIENT, &ack(2));
    assert!(matches!(step.next, Next::Wait(_)));
    assert_eq!(sent(&step), window);
    assert!(matches!(out.on_datagram(CLIENT, &ack(1)).next, Next::Done));
}

#[test]
fn clients_also_go_by_the_window() {
    let left = |first: u16, ack: u16, size: u16| -> (bool, usize) {
        let mut queue = window_from(first);
        let advanced = consume_ack_in_window(&mut queue, ack, size);
        (advanced, queue.len())
    };
    assert_eq!(left(10, 10, 4), (true, 3));
    assert_eq!(left(10, 12, 4), (true, 1));
    assert_eq!(left(10, 9, 4), (false, 4));
    assert_eq!(left(10, 14, 4), (false, 4));
    assert_eq!(left(65534, 0, 4), (true, 1));
    // Room for more in the window: a later block covers all before it.
    assert_eq!(left(10, 15, 8), (true, 0));
}

#[test]
fn blocks_are_full_up_to_the_last() {
    let mut sender = Sender::new(Mode::Octet, 8);
    assert!(sender.wants_input());
    sender.feed(&[1; 19]);
    assert!(!sender.wants_input());
    assert_eq!(sender.next_block().unwrap(), vec![1; 8]);
    assert_eq!(sender.next_block().unwrap(), vec![1; 8]);
    assert!(sender.wants_input());
    sender.feed(&[]);
    assert_eq!(sender.next_block().unwrap(), vec![1; 3]);
    assert_eq!(sender.next_block(), None);
}

#[test]
fn slices_are_read_in_pieces() {
    let mut source = SliceSource::new(&[1, 2, 3, 4, 5]);
    assert_eq!(source.read_chunk(2), vec![1, 2]);
    assert_eq!(source.read_chunk(9), vec![3, 4, 5]);
    assert!(source.read_chunk(9).is_empty());
}

fn neg(blksize: u16, windowsize: u16) -> Negotiated {
    Negotiated { blksize, timeout: Duration::from_secs(1), windowsize }
}

#[test]
fn senders_resend_and_give_up() {
    let mut out = Outgoing::new(CLIENT, 2, true, Mode::Octet, neg(8, 2));
    assert!(matches!(out.proceed().next, Next::Read(8)));
    out.feed(&[7; 12]);
    assert!(matches!(out.proceed().next, Next::Read(8)));
    out.feed(&[]);
    let step = out.proceed();
    let window = vec![(CLIENT, data(1, &[7; 8])), (CLIENT, data(2, &[7; 4]))];
    assert_eq!(sent(&step), window);
    assert!(matches!(step.next, Next::Wait(d) if d == Duration::from_secs(1)));
    assert_eq!(sent(&out.on_timeout()), window);
    // A stale acknowledgement and garbage have the window sent again.
    assert_eq!(sent(&out.on_datagram(CLIENT, &ack(9))), window);
    assert_eq!(sent(&out.on_datagram(CLIENT, &[1])), window);
    assert_eq!(sent(&out.on_timeout()), window);
    let step = out.on_timeout();
    assert!(matches!(step.next, Next::Fail(Error::Timeout(2))));
    let report = Packet::Error { code: ErrorCode::NotDefined, msg: "timed out".into() };
    assert_eq!(sent(&step), vec![(CLIENT, wire(&report))]);
}

#[test]
fn senders_finish_on_the_last_ack() {
    let mut out = Outgoing::new(CLIENT, 2, false, Mode::Octet, neg(8, 2));
    out.proceed();
    out.feed(&[7; 4]);
    out.proceed();
    out.feed(&[]);
    assert_eq!(sent(&out.proceed()), vec![(CLIENT, data(1, &[7; 4]))]);
    let step = out.on_datagram(CLIENT, &ack(1));
    assert!(matches!(step.next, Next::Done));
    assert!(step.outputs.is_empty());
}

#[test]
fn strangers_are_told_so() {
    let mut out = Outgoing::new(CLIENT, 2, false, Mode::Octet, neg(8, 1));
    out.proceed();
    out.feed(&[7; 8]);
    out.proceed();
    let step = out.on_datagram(STRANGER, &ack(1));
    assert!(matches!(step.next, Next::KeepWaiting));
    let report = Packet::Error { code: ErrorCode::UnknownTid, msg: "unknown transfer id".into() };
    assert_eq!(sent(&step), vec![(STRANGER, wire(&report))]);
    let mut inc = Incoming::new(CLIENT, 2, true, Mode::Octet, neg(8, 1));
    let step = inc.on_datagram(STRANGER, &data(1, b"x"));
    assert!(matches!(step.next, Next::KeepWaiting));
    assert_eq!(sent(&step), vec![(STRANGER, wire(&report))]);
}

#[test]
fn receivers_acknowledge_full_windows_and_the_end() {
    let mut inc = Incoming::new(CLIENT, 2, true, Mode::Octet, neg(4, 2));
    let step = inc.on_datagram(CLIENT, &data(1, b"abcd"));
    assert_eq!(written(&step), b"abcd");
    assert!(sent(&step).is_empty());
    let step = inc.on_datagram(CLIENT, &data(2, b"efgh"));
    assert_eq!(sent(&step), vec![(CLIENT, ack(2))]);
    // Out of order: nothing is written, and the last ACK goes out again.
    let step = inc.on_datagram(CLIENT, &data(4, b"mnop"));
    assert!(written(&step).is_empty());
    assert_eq!(sent(&step), vec![(CLIENT, ack(2))]);
    let step = inc.on_datagram(CLIENT, &ack(3));
    assert!(step.outputs.is_empty());
    let step = inc.on_datagram(CLIENT, &data(3, b"ij"));
    assert_eq!(order(&step), "wfs");
    assert_eq!(sent(&step), vec![(CLIENT, ack(3))]);
    assert!(matches!(step.next, Next::Done));
    assert!(inc.finished());
}

#[test]
fn repeated_and_misplaced_blocks_do_not_harm() {
    let blocks: [&[u8]; 4] = [b"on\r", b"\ne\r", b"\0tw", b"o"];
    let mut inc = Incoming::new(CLIENT, 2, true, Mode::NetAscii, neg(3, 2));
    let mut content = Vec::new();
    for i in [1, 0, 0, 3, 1, 1, 2, 0, 2, 3] {
        let step = inc.on_datagram(CLIENT, &data(i as u16 + 1, blocks[i]));
        content.extend(written(&step));
    }
    assert!(inc.finished());
    assert_eq!(content, b"on\ne\rtwo");
}

#[test]
fn lost_acks_come_again() {
    let mut out = Outgoing::new(CLIENT, 2, true, Mode::Octet, neg(8, 2));
    let mut inc = Incoming::new(TID, 2, false, Mode::Octet, neg(8, 2));
    out.proceed();
    out.feed(&[7; 40]);
    let window = sent(&out.proceed());
    for (_, datagram) in &window {
        inc.on_datagram(TID, datagram);
    }
    // The acknowledgement is lost.
    let again = sent(&out.on_timeout());
    assert_eq!(again, window);
    let step = inc.on_datagram(TID, &again[0].1);
    assert!(written(&step).is_empty());
    assert_eq!(sent(&step), vec![(TID, ack(2))]);
    let step = out.on_datagram(CLIENT, &sent(&step)[0].1);
    assert_eq!(sent(&step), vec![(CLIENT, data(3, &[7; 8])), (CLIENT, data(4, &[7; 8]))]);
}

#[test]
fn strangers_do_not_disturb_clients() {
    let (mut get, _) = GetSession::start(LISTEN, &base_opts(), "f");
    get.on_datagram(TID, &data(1, &[1; 512]));
    let step = get.on_datagram(STRANGER, &data(2, b"evil"));
    assert!(matches!(step.next, Next::KeepWaiting));
    assert_eq!(sent(&step)[0].0, STRANGER);
    assert_eq!(get.bytes_written(), 512);
    assert!(matches!(get.on_datagram(TID, &data(2, b"good")).next, Next::Done));
    assert_eq!(get.bytes_written(), 516);

    let (mut put, _) = PutSession::start(LISTEN, &base_opts(), "f", 3);
    put.on_datagram(TID, &ack(0));
    put.on_chunk(b"abc");
    put.on_chunk(b"");
    assert!(matches!(put.on_datagram(STRANGER, &ack(1)).next, Next::KeepWaiting));
    assert!(matches!(put.on_datagram(TID, &ack(1)).next, Next::Done));
}

#[test]
fn clients_acknowledge_before_they_flush() {
    let mut inc = Incoming::new(TID, 2, false, Mode::NetAscii, neg(4, 2));
    let step = inc.on_datagram(TID, &data(1, b"ab\r"));
    assert_eq!(order(&step), "wswf");
    assert_eq!(written(&step), b"ab\r");
    let mut inc = Incoming::new(TID, 2, true, Mode::NetAscii, neg(4, 2));
    let step = inc.on_datagram(TID, &data(1, b"ab\r"));
    assert_eq!(order(&step), "wwfs");
}

#[test]
fn receivers_ask_again_and_give_up() {
    let mut inc = Incoming::new(CLIENT, 1, true, Mode::Octet, neg(4, 2));
    assert_eq!(sent(&inc.on_timeout()), vec![(CLIENT, ack(0))]);
    // A block makes the retries start over.
    inc.on_datagram(CLIENT, &data(1, b"abcd"));
    assert_eq!(sent(&inc.on_timeout()), vec![(CLIENT, ack(1))]);
    let step = inc.on_timeout();
    assert!(matches!(step.next, Next::Fail(Error::Timeout(1))));
    assert_eq!(sent(&step).len(), 1);
}

#[test]
fn peer_errors_end_transfers() {
    let error = wire(&Packet::Error { code: ErrorCode::DiskFull, msg: "full".into() });
    let mut out = Outgoing::new(CLIENT, 2, false, Mode::Octet, neg(8, 1));
    out.proceed();
    out.feed(&[7; 8]);
    out.proceed();
    match out.on_datagram(CLIENT, &error).next {
        Next::Fail(Error::Peer { code, msg }) => {
            assert_eq!(code, ErrorCode::DiskFull);
            assert_eq!(msg, "full");
        }
        other => panic!("expected a peer error, got {other:?}"),
    }
    let mut inc = Incoming::new(CLIENT, 2, true, Mode::Octet, neg(8, 1));
    let step = inc.on_datagram(CLIENT, &error);
    assert!(matches!(step.next, Next::Fail(Error::Peer { .. })));
}

#[test]
fn requests_are_sent_again_and_given_up() {
    let opts = Options { retries: 1, ..base_opts() };
    let (mut get, step) = GetSession::start(LISTEN, &opts, "f");
    let request = wire(&Packet::Rrq {
        filename: "f".into(),
        mode: Mode::Octet,
        options: OptionSet::new(),
    });
    assert_eq!(sent(&step), vec![(LISTEN, request.clone())]);
    assert!(matches!(step.next, Next::Wait(d) if d == Duration::from_millis(500)));
    // What is no answer uses up an attempt.
    assert_eq!(sent(&get.on_datagram(TID, &ack(0))), vec![(LISTEN, request)]);
    assert!(matches!(get.on_timeout().next, Next::Fail(Error::Timeout(1))));
}

#[test]
fn answers_to_requests_are_told_apart() {
    let opts = base_opts();
    let mut oack = OptionSet::new();
    oack.insert(OptionValue::BlockSize(8));
    let oack = wire(&Packet::Oack { options: oack });

    let (mut get, _) = GetSession::start(LISTEN, &opts, "f");
    assert!(matches!(get.on_datagram(TID, &[0]).next, Next::Fail(Error::Malformed(_))));
    assert!(matches!(
        get.on_datagram(TID, &data(2, b"x")).next,
        Next::Fail(Error::UnexpectedPacket)
    ));
    // Options that nobody asked for are no answer.
    let (mut get, _) = GetSession::start(LISTEN, &opts, "f");
    assert_eq!(sent(&get.on_datagram(TID, &oack))[0].0, LISTEN);

    let opts = Options { blksize: Some(8), ..opts };
    let (mut get, _) = GetSession::start(LISTEN, &opts, "f");
    assert_eq!(sent(&get.on_datagram(TID, &oack)), vec![(TID, ack(0))]);
    let step = get.on_datagram(TID, &data(1, b"1234567"));
    assert_eq!(sent(&step), vec![(TID, ack(1))]);
    assert!(matches!(step.next, Next::Done));
    assert_eq!(get.bytes_written(), 7);

    let (mut put, _) = PutSession::start(LISTEN, &opts, "f", 3);
    assert!(matches!(put.on_datagram(TID, &oack).next, Next::Read(8)));
    assert!(matches!(put.on_chunk(b"abc").next, Next::Read(8)));
    assert_eq!(sent(&put.on_chunk(b"")), vec![(TID, data(1, b"abc"))]);
    assert_eq!(put.bytes_sent(), 3);
    assert!(matches!(put.on_datagram(TID, &ack(1)).next, Next::Done));

    let (mut put, step) = client_with(opts).put("f", 3);
    assert_eq!(sent(&step)[0].0, LISTEN);
    assert!(matches!(put.on_datagram(TID, &ack(0)).next, Next::Read(512)));
}

#[test]
fn offers_wait_for_the_zeroth_ack() {
    let mut requested = OptionSet::new();
    requested.insert(OptionValue::TransferSize(0));
    let cfg = Config { retries: 1, ..base_cfg() };
    let (mut sender, step) = serve_rrq(&cfg, CLIENT, Mode::Octet, &requested, 5);
    let offer = sent(&step);
    match decode(&offer[0].1).unwrap() {
        Packet::Oack { options } => assert_eq!(options.transfer_size(), Some(5)),
        other => panic!("expected OACK, got {other:?}"),
    }
    assert!(matches!(sender.on_datagram(STRANGER, &ack(0)).next, Next::KeepWaiting));
    assert_eq!(sent(&sender.on_datagram(CLIENT, &ack(1))), offer);
    assert!(matches!(sender.on_datagram(CLIENT, &ack(0)).next, Next::Read(512)));

    let (mut sender, _) = serve_rrq(&cfg, CLIENT, Mode::Octet, &requested, 5);
    assert_eq!(sent(&sender.on_timeout()), offer);
    let step = sender.on_timeout();
    assert!(matches!(step.next, Next::Fail(Error::Timeout(1))));
    assert!(step.outputs.is_empty());
}

#[test]
fn write_requests_are_answered_with_what_was_agreed() {
    let (_, step) = serve_wrq(&base_cfg(), CLIENT, Mode::Octet, &OptionSet::new());
    assert_eq!(sent(&step), vec![(CLIENT, ack(0))]);
    let mut requested = OptionSet::new();
    requested.insert(OptionValue::TransferSize(99));
    let (_, step) = serve_wrq(&base_cfg(), CLIENT, Mode::Octet, &requested);
    assert_eq!(sent(&step), vec![(CLIENT, wire(&Packet::Oack { options: requested }))]);
}

#[test]
fn first_datagrams_that_are_no_requests_are_ignored() {
    let cfg = base_cfg();
    assert!(matches!(handle_initial(&cfg, CLIENT, &ack(1)), Request::Ignored(None)));
    assert!(matches!(
        handle_initial(&cfg, CLIENT, &[9]),
        Request::Ignored(Some(Error::Malformed(_)))
    ));
    match handle_initial(&Config { root: "/srv".into(), ..cfg }, CLIENT, b"\0\x02a/b\0octet\0") {
        Request::Write { path, mode, options, create_new } => {
            assert_eq!(path, "/srv/a/b");
            assert_eq!(mode, Mode::Octet);
            assert!(options.is_empty());
            assert!(create_new);
        }
        other => panic!("expected a write request, got {other:?}"),
    }
}

#[test]
fn refusals_are_reported() {
    let step = refuse(CLIENT, Error::InvalidPath("..\\x".into()));
    let report =
        Packet::Error { code: ErrorCode::AccessViolation, msg: "access violation".into() };
    assert_eq!(sent(&step), vec![(CLIENT, wire(&report))]);
    match step.next {
        Next::Fail(Error::InvalidPath(name)) => assert_eq!(name, "..\\x"),
        other => panic!("expected a failure, got {other:?}"),
    }
}

#[test]
fn open_failures_are_reported() {
    for (failure, code, msg) in [
        (IoFailure::NotFound, ErrorCode::FileNotFound, "file not found"),
        (IoFailure::PermissionDenied, ErrorCode::AccessViolation, "access violation"),
        (IoFailure::AlreadyExists, ErrorCode::FileExists, "file already exists"),
        (IoFailure::Other, ErrorCode::NotDefined, "i/o error"),
    ] {
        let step = map_io_to_error(CLIENT, failure);
        assert_eq!(sent(&step), vec![(CLIENT, wire(&Packet::Error { code, msg: msg.into() }))]);
        assert!(matches!(step.next, Next::Fail(Error::Io(f)) if f == failure));
    }
}
