# aitftp

A TFTP client and server (RFC 1350, with the option extensions of RFC 2347,
2348, 2349 and 7440) whose protocol logic is verified with Verus.

- `src/` is the library. Nothing in it does input or output.
  - `proto`: packets, options and error codes on the wire.
  - `netascii`: streaming translation of line ends.
  - `path_safe`: which requested names are served, and from where.
  - `sender`, `outgoing`: cutting a stream into blocks, the window of blocks
    in flight, and the sending side of a transfer.
  - `incoming`: the receiving side of a transfer.
  - `server`, `client`: configuration, negotiation, and the transfers that
    each side begins.
  - `exchange`, `delivery`: what both sides achieve together, over a network
    that loses nothing and over any other.
  - `session`: what a transfer asks of the program that drives it.
  - `cli`: what the command lines mean.
  - `buffer`: the outside buffer type that datagrams are built in.
- `app/` holds the programs: sockets, files, clocks and command lines. Called
  under the name `aitftpd` the program is the server, otherwise the client.
- `tests/` runs the library on concrete values, and client against server over
  a network in memory.

A transfer is a state machine. Each event (a datagram, a timeout, a piece of
the file) gives a `Step`: datagrams to send and bytes to write, in order, and
what to wait for next.
