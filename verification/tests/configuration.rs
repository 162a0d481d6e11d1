//! Builders, defaults, command lines and negotiation.
use aitftp::addr::SocketAddr;
use aitftp::cli::{client_for, default_filter, default_local_for, with_port, ClientFlags};
use aitftp::client::{build_request_options, merge_oack, Client, ClientBuilder, Options};
use aitftp::proto::{
    Mode, OptionSet, OptionValue, DEFAULT_BLOCK_SIZE, DEFAULT_WINDOW_SIZE, MAX_BLOCK_SIZE,
};
use aitftp::server::{negotiate, Config, Server, ServerBuilder};
use aitftp::session::Negotiated;
use std::time::Duration;

fn addr() -> SocketAddr {
    SocketAddr::V4 { ipv4: 0x7f000001, port: 0 }
}

#[test]
fn build_request_options_round_trip() {
    let opts = Options {
        blksize: Some(1024),
        timeout_secs: Some(3),
        request_tsize: true,
        windowsize: Some(8),
        ..Options::default()
    };
    let set = build_request_options(&opts, None);
    assert_eq!(set.block_size(), Some(1024));
    assert_eq!(set.timeout(), Some(3));
    assert_eq!(set.transfer_size(), Some(0));
    assert_eq!(set.window_size(), Some(8));
}

#[test]
fn merge_oack_overrides_only_provided() {
    let initial = Negotiated::defaults();
    let mut oack = OptionSet::new();
    oack.insert(OptionValue::BlockSize(1428));
    let merged = merge_oack(initial, &oack);
    assert_eq!(merged.blksize, 1428);
    assert_eq!(merged.windowsize, DEFAULT_WINDOW_SIZE);
}

#[test]
fn builder_defaults_match_options_default() {
    let client = Client::builder().build(addr());
    let defaults = Options::default();
    assert_eq!(client.options().mode, defaults.mode);
    assert_eq!(client.options().blksize, defaults.blksize);
    assert_eq!(client.options().timeout_secs, defaults.timeout_secs);
    assert_eq!(client.options().windowsize, defaults.windowsize);
    assert_eq!(client.options().request_tsize, defaults.request_tsize);
    assert_eq!(client.options().retries, defaults.retries);
    assert_eq!(client.options().timeout, defaults.timeout);
}

#[test]
fn client_builder_setters_wire_through() {
    let client = Client::builder()
        .mode(Mode::NetAscii)
        .blksize(1428)
        .negotiate_timeout(7)
        .windowsize(16)
        .request_tsize(true)
        .retries(10)
        .timeout(Duration::from_millis(250))
        .build(addr());
    let o = client.options();
    assert_eq!(o.mode, Mode::NetAscii);
    assert_eq!(o.blksize, Some(1428));
    assert_eq!(o.timeout_secs, Some(7));
    assert_eq!(o.windowsize, Some(16));
    assert!(o.request_tsize);
    assert_eq!(o.retries, 10);
    assert_eq!(o.timeout, Duration::from_millis(250));
}

#[test]
fn options_mut_allows_post_construction_edit() {
    let mut client = Client::new(addr());
    client.options_mut().blksize = Some(8192);
    assert_eq!(client.options().blksize, Some(8192));
}

#[test]
fn with_options_preserves_caller_struct() {
    let opts = Options { blksize: Some(512), ..Options::default() };
    let client = Client::with_options(addr(), opts);
    assert_eq!(client.options().blksize, Some(512));
}

#[test]
fn negotiate_clamps_blksize() {
    let cfg = Config { max_block_size: 1024, ..Config::default() };
    let mut req = OptionSet::new();
    req.insert(OptionValue::BlockSize(8000));
    let (oack, neg) = negotiate(&cfg, &req, Some(0));
    assert_eq!(neg.blksize, 1024);
    assert_eq!(oack.block_size(), Some(1024));
}

#[test]
fn negotiate_fills_tsize_for_read() {
    let cfg = Config::default();
    let mut req = OptionSet::new();
    req.insert(OptionValue::TransferSize(0));
    let (oack, _) = negotiate(&cfg, &req, Some(12345));
    assert_eq!(oack.transfer_size(), Some(12345));
}

#[test]
fn negotiate_drops_windowsize_when_disabled() {
    let cfg = Config { allow_windowsize: false, ..Config::default() };
    let mut req = OptionSet::new();
    req.insert(OptionValue::WindowSize(8));
    let (oack, neg) = negotiate(&cfg, &req, Some(0));
    assert_eq!(oack.window_size(), None);
    assert_eq!(neg.windowsize, DEFAULT_WINDOW_SIZE);
}

#[test]
fn builder_defaults_match_config_default() {
    let cfg_via_builder = ServerBuilder::new().cfg;
    let defaults = Config::default();
    assert_eq!(cfg_via_builder.listen, defaults.listen);
    assert_eq!(cfg_via_builder.root, defaults.root);
    assert_eq!(cfg_via_builder.allow_overwrite, defaults.allow_overwrite);
    assert_eq!(cfg_via_builder.timeout, defaults.timeout);
    assert_eq!(cfg_via_builder.retries, defaults.retries);
    assert_eq!(cfg_via_builder.max_block_size, defaults.max_block_size);
    assert_eq!(cfg_via_builder.allow_windowsize, defaults.allow_windowsize);
}

#[test]
fn server_builder_setters_wire_through() {
    // 127.0.0.1:6970
    let addr = SocketAddr::V4 { ipv4: 0x7f000001, port: 6970 };
    let cfg = ServerBuilder::new()
        .listen(addr)
        .root("/tmp/something")
        .allow_overwrite(true)
        .timeout(Duration::from_millis(250))
        .retries(11)
        .max_block_size(1024)
        .allow_windowsize(false)
        .cfg;
    assert_eq!(cfg.listen, addr);
    assert_eq!(cfg.root, "/tmp/something");
    assert!(cfg.allow_overwrite);
    assert_eq!(cfg.timeout, Duration::from_millis(250));
    assert_eq!(cfg.retries, 11);
    assert_eq!(cfg.max_block_size, 1024);
    assert!(!cfg.allow_windowsize);
}

#[test]
fn defaults_are_the_documented_ones() {
    let cfg = Config::default();
    assert_eq!(cfg.listen, SocketAddr::V4 { ipv4: 0, port: 69 });
    assert_eq!(cfg.root, ".");
    assert!(!cfg.allow_overwrite);
    assert_eq!(cfg.timeout, Duration::from_secs(5));
    assert_eq!(cfg.retries, 5);
    assert_eq!(cfg.max_block_size, MAX_BLOCK_SIZE);
    assert!(cfg.allow_windowsize);
    let opts = Options::default();
    assert_eq!(opts.mode, Mode::Octet);
    assert_eq!(opts.retries, 5);
    assert_eq!(opts.timeout, Duration::from_secs(5));
    let neg = Negotiated::defaults();
    assert_eq!(neg.blksize, 512);
    assert_eq!(neg.windowsize, 1);
    assert_eq!(neg.timeout, Duration::from_secs(5));
}

#[test]
fn bound_server_keeps_its_configuration() {
    let cfg = Server::builder().root("files").retries(2).cfg;
    let server = Server::bind(cfg, "/srv/files".to_string(), addr());
    assert_eq!(server.root(), "/srv/files");
    assert_eq!(server.config().retries, 2);
    assert_eq!(server.local_addr(), addr());
    let copy = server.config().clone();
    assert_eq!(copy.root, "/srv/files");
    assert_eq!(copy.retries, 2);
}

#[test]
fn clients_are_copied_whole() {
    let builder = ClientBuilder::default().retries(9).blksize(99);
    let client = builder.clone().build(addr()).clone();
    assert_eq!(client.server(), addr());
    assert_eq!(client.options().retries, 9);
    assert_eq!(client.options().blksize, Some(99));
    assert_eq!(ServerBuilder::default().clone().cfg.root, ".");
}

#[test]
fn requests_without_options_are_bare() {
    assert!(build_request_options(&Options::default(), Some(10)).is_empty());
    let opts = Options { request_tsize: true, ..Options::default() };
    assert_eq!(build_request_options(&opts, Some(10)).transfer_size(), Some(10));
}

#[test]
fn negotiation_answers_only_what_was_asked() {
    let cfg = Config { timeout: Duration::from_millis(700), ..Config::default() };
    let (oack, neg) = negotiate(&cfg, &OptionSet::new(), Some(1));
    assert!(oack.is_empty());
    assert_eq!(neg.blksize, DEFAULT_BLOCK_SIZE);
    assert_eq!(neg.timeout, Duration::from_millis(700));

    let mut req = OptionSet::new();
    req.insert(OptionValue::Timeout(3));
    req.insert(OptionValue::TransferSize(77));
    let (oack, neg) = negotiate(&cfg, &req, None);
    assert_eq!(oack.iter(), [OptionValue::Timeout(3), OptionValue::TransferSize(77)]);
    assert_eq!(neg.timeout, Duration::from_secs(3));
    assert_eq!(neg.windowsize, 1);
}

#[test]
fn negotiation_raises_what_is_too_small() {
    let mut req = OptionSet::new();
    req.insert(OptionValue::BlockSize(1));
    req.insert(OptionValue::Timeout(0));
    req.insert(OptionValue::WindowSize(0));
    let (oack, neg) = negotiate(&Config::default(), &req, None);
    assert_eq!(oack.block_size(), Some(8));
    assert_eq!(oack.timeout(), Some(1));
    assert_eq!(oack.window_size(), Some(1));
    assert_eq!(neg.blksize, 8);
}

#[test]
fn both_ends_agree_after_negotiation() {
    let opts = Options {
        blksize: Some(4000),
        timeout_secs: Some(2),
        windowsize: Some(5),
        ..Options::default()
    };
    let cfg = Config { max_block_size: 1428, ..Config::default() };
    let (oack, server) = negotiate(&cfg, &build_request_options(&opts, None), Some(9));
    let client = merge_oack(Negotiated::with_timeout(opts.timeout), &oack);
    assert_eq!(client.blksize, server.blksize);
    assert_eq!(client.windowsize, server.windowsize);
    assert_eq!(client.timeout, server.timeout);
    assert_eq!(server.blksize, 1428);
}

#[test]
fn command_lines_give_clients() {
    let flags = ClientFlags {
        mode: Mode::NetAscii,
        blksize: Some(1428),
        tftp_timeout: Some(4),
        windowsize: None,
        tsize: false,
        retries: 2,
        timeout: 9,
    };
    let get = client_for(&flags, false, addr());
    assert!(!get.options().request_tsize);
    assert_eq!(get.options().timeout, Duration::from_secs(9));
    let put = client_for(&flags, true, addr());
    assert!(put.options().request_tsize);
    assert_eq!(put.options().blksize, Some(1428));
    assert_eq!(put.options().timeout_secs, Some(4));
    assert_eq!(put.options().windowsize, None);
    assert_eq!(put.options().mode, Mode::NetAscii);
    assert_eq!(put.options().retries, 2);
}

#[test]
fn local_names_and_ports_have_defaults() {
    assert_eq!(default_local_for("boot/pxe/vmlinuz"), "vmlinuz");
    assert_eq!(default_local_for("vmlinuz"), "vmlinuz");
    assert_eq!(default_local_for("dir/"), "");
    assert_eq!(with_port("192.168.1.1"), "192.168.1.1:69");
    assert_eq!(with_port("host:6969"), "host:6969");
    assert_eq!(default_filter(0), "aitftp=warn");
    assert_eq!(default_filter(1), "aitftp=info");
    assert_eq!(default_filter(2), "aitftp=debug");
    assert_eq!(default_filter(7), "aitftp=trace");
}

#[test]
fn ephemeral_addresses_keep_the_family() {
    let v6 = SocketAddr::V6 { ipv6: 1, port: 69, flowinfo: 0, scope_id: 3 };
    assert_eq!(v6.ephemeral(), SocketAddr::V6 { ipv6: 0, port: 0, flowinfo: 0, scope_id: 0 });
    assert_eq!(addr().ephemeral(), SocketAddr::V4 { ipv4: 0, port: 0 });
}
