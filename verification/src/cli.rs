//! What the command lines mean.
use std::time::Duration;
use vstd::prelude::*;
use vstd::string::{StrSliceExecFns, StringExecFns};

use crate::addr::SocketAddr;
use crate::client::{Client, ClientBuilder, Options};
use crate::path_safe::pieces;
use crate::proto::text::chars_of;
use crate::proto::Mode;
use crate::session::duration_of_secs;

verus! {

/// The local file for the remote file `remote`, where none is given: the last
/// piece of the remote path.
pub fn default_local_for(remote: &str) -> (name: String)
    ensures
        name@ == pieces(remote@).last(),
{
    let chars: Vec<char> = chars_of(remote);
    let mut start: usize = 0;
    assert(pieces(chars@.take(0)).last() =~= chars@.subrange(0, 0));
    for i in 0..chars.len()
        invariant
            start <= i,
            pieces(chars@.take(i as int)).len() > 0,
            pieces(chars@.take(i as int)).last() == chars@.subrange(start as int, i as int),
    {
        proof {
            assert(chars@.take(i + 1).drop_last() =~= chars@.take(i as int));
            assert(chars@.take(i + 1).last() == chars@[i as int]);
        }
        if chars[i] == '/' {
            start = i + 1;
        }
        assert(pieces(chars@.take(i + 1)).last() =~= chars@.subrange(start as int, i + 1));
    }
    assert(chars@.take(chars@.len() as int) =~= remote@);
    remote.substring_char(start, chars.len()).to_owned()
}

/// A server as given on the command line, with the TFTP port where none is
/// given.
pub open spec fn host_and_port(server: Seq<char>) -> Seq<char> {
    if server.contains(':') {
        server
    } else {
        server + ":69"@
    }
}

/// The server to resolve: `host:port`, where the port defaults to 69.
pub fn with_port(server: &str) -> (text: String)
    ensures
        text@ == host_and_port(server@),
{
    let chars: Vec<char> = chars_of(server);
    let mut text: String = server.to_owned();
    for i in 0..chars.len()
        invariant
            chars@ == server@,
            text@ == server@,
            forall|j: int| 0 <= j < i ==> #[trigger] server@[j] != ':',
    {
        if chars[i] == ':' {
            assert(server@[i as int] == ':');
            return text;
        }
    }
    text.append(":69");
    text
}

/// What is logged by default, from warnings to everything, depending on how
/// often `-v` is given.
pub open spec fn filter_for(verbose: u8) -> Seq<char> {
    if verbose == 0 {
        "aitftp=warn"@
    } else if verbose == 1 {
        "aitftp=info"@
    } else if verbose == 2 {
        "aitftp=debug"@
    } else {
        "aitftp=trace"@
    }
}

/// The default log filter.
pub fn default_filter(verbose: u8) -> (filter: &'static str)
    ensures
        filter@ == filter_for(verbose),
{
    match verbose {
        0 => "aitftp=warn",
        1 => "aitftp=info",
        2 => "aitftp=debug",
        _ => "aitftp=trace",
    }
}

/// The options of a client's command line.
#[derive(Debug)]
pub struct ClientFlags {
    pub mode: Mode,
    pub blksize: Option<u16>,
    /// Per-packet timeout in seconds to ask for.
    pub tftp_timeout: Option<u8>,
    pub windowsize: Option<u16>,
    pub tsize: bool,
    pub retries: u32,
    /// Local per-packet timeout in seconds.
    pub timeout: u8,
}

/// The client that a command line asks for.  An upload always announces its
/// size, which is known, so that a server can reject what is too large.
pub fn client_for(flags: &ClientFlags, upload: bool, server: SocketAddr) -> (client: Client)
    ensures
        client == (Client {
            server,
            options: Options {
                mode: flags.mode,
                blksize: flags.blksize,
                timeout_secs: flags.tftp_timeout,
                windowsize: flags.windowsize,
                request_tsize: flags.tsize || upload,
                retries: flags.retries,
                timeout: duration_of_secs(flags.timeout as u64),
            },
        }),
{
    let mut builder: ClientBuilder = Client::builder().mode(flags.mode).retries(
        flags.retries,
    ).timeout(Duration::from_secs(flags.timeout as u64)).request_tsize(flags.tsize || upload);
    if let Some(n) = flags.blksize {
        builder = builder.blksize(n);
    }
    if let Some(n) = flags.tftp_timeout {
        builder = builder.negotiate_timeout(n);
    }
    if let Some(n) = flags.windowsize {
        builder = builder.windowsize(n);
    }
    builder.build(server)
}

/// A server is taken as it is given if it holds a colon; otherwise the TFTP
/// port goes behind it.
pub proof fn the_port_defaults_to_69(server: Seq<char>)
    ensures
        (exists|i: int| 0 <= i < server.len() && #[trigger] server[i] == ':') ==> host_and_port(
            server,
        ) == server,
        (forall|i: int| 0 <= i < server.len() ==> #[trigger] server[i] != ':') ==> host_and_port(
            server,
        ) == server + seq![':', '6', '9'],
{
    reveal_strlit(":69");
    assert(":69"@ =~= seq![':', '6', '9']);
    if exists|i: int| 0 <= i < server.len() && #[trigger] server[i] == ':' {
        let i = choose|i: int| 0 <= i < server.len() && #[trigger] server[i] == ':';
        assert(server.contains(server[i]));
    }
}

/// Each `-v` shows more of the log: warnings, then information, then what
/// helps to debug, then everything.
pub proof fn verbosity_has_four_levels(verbose: u8)
    ensures
        verbose == 0 ==> filter_for(verbose) == "aitftp=warn"@,
        verbose == 1 ==> filter_for(verbose) == "aitftp=info"@,
        verbose == 2 ==> filter_for(verbose) == "aitftp=debug"@,
        verbose > 2 ==> filter_for(verbose) == "aitftp=trace"@,
{
}

} // verus!
