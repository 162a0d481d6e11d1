use bytes::BytesMut;
use vstd::prelude::*;
use vstd::utf8::{decode_utf8, encode_utf8, valid_utf8};

use crate::buffer::{buffer_bytes, buffer_limit, put_slice, put_u16, put_u8};
use crate::error::{Error, ErrorView};
use crate::proto::opcode::{error_code_numbers_round_trip, ErrorCode, Opcode};
use crate::proto::options::{
    all_valid, distinct_kinds, mode_names_round_trip, only_invalid_options_are_lost,
    options_of_pairs, options_of_pairs_are_wf, pair_texts, pairs_of_options, valid_part,
    valid_part_is_valid, Mode, OptionSet, OptionValue, TextPairs,
};
use crate::proto::text::{decimal_text, decimal_text_is_digits, utf8_text};
use crate::proto::{
    DEFAULT_BLOCK_SIZE, DEFAULT_WINDOW_SIZE, MAX_BLOCK_SIZE, MAX_PACKET_SIZE, MIN_BLOCK_SIZE,
};

verus! {

/// A decoded TFTP packet.  A data payload is a slice of the datagram that it
/// came in.
#[derive(Debug, Clone, PartialEq, Eq)]
pub enum Packet<'a> {
    Rrq { filename: String, mode: Mode, options: OptionSet },
    Wrq { filename: String, mode: Mode, options: OptionSet },
    Data { block: u16, data: &'a [u8] },
    Ack { block: u16 },
    Error { code: ErrorCode, msg: String },
    Oack { options: OptionSet },
}

/// What a packet says.
pub enum PacketView {
    Rrq { filename: Seq<char>, mode: Mode, options: Seq<OptionValue> },
    Wrq { filename: Seq<char>, mode: Mode, options: Seq<OptionValue> },
    Data { block: u16, data: Seq<u8> },
    Ack { block: u16 },
    Error { code: ErrorCode, msg: Seq<char> },
    Oack { options: Seq<OptionValue> },
}

impl<'a> View for Packet<'a> {
    type V = PacketView;

    open spec fn view(&self) -> PacketView {
        match *self {
            Packet::Rrq { filename, mode, options } => PacketView::Rrq {
                filename: filename@,
                mode,
                options: options@,
            },
            Packet::Wrq { filename, mode, options } => PacketView::Wrq {
                filename: filename@,
                mode,
                options: options@,
            },
            Packet::Data { block, data } => PacketView::Data { block, data: data@ },
            Packet::Ack { block } => PacketView::Ack { block },
            Packet::Error { code, msg } => PacketView::Error { code, msg: msg@ },
            Packet::Oack { options } => PacketView::Oack { options: options@ },
        }
    }
}

/// A 16-bit number on the wire: its high byte, then its low byte.
pub open spec fn u16_wire(n: u16) -> Seq<u8> {
    seq![(n / 256) as u8, (n % 256) as u8]
}

/// The 16-bit number with these two bytes.
pub open spec fn u16_of(high: u8, low: u8) -> u16 {
    (high * 256 + low) as u16
}

/// A text field on the wire: UTF-8 behind which stands a NUL byte.
pub open spec fn text_wire(s: Seq<char>) -> Seq<u8> {
    encode_utf8(s).push(0)
}

/// An option on the wire: its name, then its value in decimal notation.
pub open spec fn option_wire(option: OptionValue) -> Seq<u8> {
    text_wire(option.kind().wire_name()) + text_wire(decimal_text(option.number()))
}

/// Options on the wire, one behind the other.
pub open spec fn options_wire(items: Seq<OptionValue>) -> Seq<u8>
    decreases items.len(),
{
    if items.len() == 0 {
        Seq::empty()
    } else {
        option_wire(items[0]) + options_wire(items.drop_first())
    }
}

/// A request on the wire.
pub open spec fn request_wire(
    opcode: Opcode,
    filename: Seq<char>,
    mode: Mode,
    options: Seq<OptionValue>,
) -> Seq<u8> {
    u16_wire(opcode.number()) + text_wire(filename) + text_wire(mode.wire_name()) + options_wire(
        options,
    )
}

/// A packet on the wire.
pub open spec fn packet_wire(packet: PacketView) -> Seq<u8> {
    match packet {
        PacketView::Rrq { filename, mode, options } => request_wire(
            Opcode::Rrq,
            filename,
            mode,
            options,
        ),
        PacketView::Wrq { filename, mode, options } => request_wire(
            Opcode::Wrq,
            filename,
            mode,
            options,
        ),
        PacketView::Data { block, data } => u16_wire(Opcode::Data.number()) + u16_wire(block)
            + data,
        PacketView::Ack { block } => u16_wire(Opcode::Ack.number()) + u16_wire(block),
        PacketView::Error { code, msg } => u16_wire(Opcode::Error.number()) + u16_wire(
            code.number(),
        ) + text_wire(msg),
        PacketView::Oack { options } => u16_wire(Opcode::Oack.number()) + options_wire(options),
    }
}

/// Where the first NUL byte of `s` stands; the length if there is none.
pub open spec fn nul_at(s: Seq<u8>) -> int
    decreases s.len(),
{
    if s.len() == 0 || s[0] == 0 {
        0
    } else {
        1 + nul_at(s.drop_first())
    }
}

/// What [`nul_at`] says: the place of the first NUL byte.
pub proof fn nul_at_is_first(s: Seq<u8>)
    ensures
        0 <= nul_at(s) <= s.len(),
        nul_at(s) < s.len() ==> s[nul_at(s)] == 0,
        forall|i: int| 0 <= i < nul_at(s) ==> #[trigger] s[i] != 0,
    decreases s.len(),
{
    if s.len() != 0 && s[0] != 0 {
        let rest = s.drop_first();
        nul_at_is_first(rest);
        assert forall|i: int| 0 <= i < nul_at(s) implies #[trigger] s[i] != 0 by {
            if i > 0 {
                assert(rest[i - 1] == s[i]);
            }
        }
    }
}

/// The text field at the start of `s`, and the bytes behind it.
pub open spec fn text_at_start(s: Seq<u8>) -> Result<(Seq<char>, Seq<u8>), ErrorView> {
    let n = nul_at(s);
    if n >= s.len() {
        Err(ErrorView::MissingNul)
    } else if !valid_utf8(s.take(n)) {
        Err(ErrorView::InvalidUtf8)
    } else {
        Ok((decode_utf8(s.take(n)), s.skip(n + 1)))
    }
}

/// The (name, value) pairs that fill `s`.
pub open spec fn pairs_filling(s: Seq<u8>) -> Result<TextPairs, ErrorView>
    decreases s.len(),
{
    if s.len() == 0 {
        Ok(Seq::empty())
    } else {
        match text_at_start(s) {
            Err(e) => Err(e),
            Ok((name, behind_name)) => match text_at_start(behind_name) {
                Err(e) => Err(e),
                Ok((value, rest)) => {
                    proof {
                        nul_at_is_first(s);
                        nul_at_is_first(behind_name);
                    }
                    match pairs_filling(rest) {
                        Err(e) => Err(e),
                        Ok(more) => Ok(seq![(name, value)] + more),
                    }
                },
            },
        }
    }
}

/// What the body of a request says: file name, mode and options.
pub open spec fn request_of(body: Seq<u8>) -> Result<
    (Seq<char>, Mode, Seq<OptionValue>),
    ErrorView,
> {
    match text_at_start(body) {
        Err(e) => Err(e),
        Ok((filename, behind_filename)) => match text_at_start(behind_filename) {
            Err(e) => Err(e),
            Ok((mode_name, rest)) => match Mode::named(mode_name) {
                None => Err(ErrorView::InvalidMode(mode_name)),
                Some(mode) => match pairs_filling(rest) {
                    Err(e) => Err(e),
                    Ok(pairs) => Ok((filename, mode, options_of_pairs(pairs))),
                },
            },
        },
    }
}

/// What the datagram `buf` says, or why it is no packet.
pub open spec fn packet_of(buf: Seq<u8>) -> Result<PacketView, ErrorView> {
    if buf.len() < 2 {
        Err(ErrorView::Malformed("packet shorter than opcode"@))
    } else {
        let number = u16_of(buf[0], buf[1]);
        let body = buf.skip(2);
        if number == Opcode::Rrq.number() {
            match request_of(body) {
                Err(e) => Err(e),
                Ok((filename, mode, options)) => Ok(PacketView::Rrq { filename, mode, options }),
            }
        } else if number == Opcode::Wrq.number() {
            match request_of(body) {
                Err(e) => Err(e),
                Ok((filename, mode, options)) => Ok(PacketView::Wrq { filename, mode, options }),
            }
        } else if number == Opcode::Data.number() {
            if body.len() < 2 {
                Err(ErrorView::Malformed("DATA missing block number"@))
            } else {
                Ok(PacketView::Data { block: u16_of(body[0], body[1]), data: body.skip(2) })
            }
        } else if number == Opcode::Ack.number() {
            if body.len() < 2 {
                Err(ErrorView::Malformed("ACK missing block number"@))
            } else {
                Ok(PacketView::Ack { block: u16_of(body[0], body[1]) })
            }
        } else if number == Opcode::Error.number() {
            if body.len() < 3 {
                Err(ErrorView::Malformed("ERROR too short"@))
            } else {
                match text_at_start(body.skip(2)) {
                    Err(e) => Err(e),
                    Ok((msg, _)) => Ok(
                        PacketView::Error {
                            code: ErrorCode::of_number(u16_of(body[0], body[1])),
                            msg,
                        },
                    ),
                }
            }
        } else if number == Opcode::Oack.number() {
            match pairs_filling(body) {
                Err(e) => Err(e),
                Ok(pairs) => Ok(PacketView::Oack { options: options_of_pairs(pairs) }),
            }
        } else {
            Err(ErrorView::UnknownOpcode(number))
        }
    }
}

/// Whether a function result says what `said` says.
pub open spec fn says<'a>(r: Result<Packet<'a>, Error>, said: Result<PacketView, ErrorView>) -> bool {
    match said {
        Ok(packet) => r matches Ok(p) && p@ == packet,
        Err(error) => r matches Err(e) && e@ == error,
    }
}

fn join_u16(high: u8, low: u8) -> (n: u16)
    ensures
        n == u16_of(high, low),
{
    (high as u16) * 256 + low as u16
}

/// Decodes a single TFTP packet from the wire.
pub fn decode(buf: &[u8]) -> (r: Result<Packet<'_>, Error>)
    ensures
        says(r, packet_of(buf@)),
{
    if buf.len() < 2 {
        return Err(Error::Malformed("packet shorter than opcode"));
    }
    let number: u16 = join_u16(buf[0], buf[1]);
    let body: &[u8] = vstd::slice::slice_subrange(buf, 2, buf.len());
    assert(body@ =~= buf@.skip(2));
    match Opcode::from_u16(number) {
        Err(e) => Err(e),
        Ok(Opcode::Rrq) => decode_request(Opcode::Rrq, body),
        Ok(Opcode::Wrq) => decode_request(Opcode::Wrq, body),
        Ok(Opcode::Data) => decode_data(body),
        Ok(Opcode::Ack) => decode_ack(body),
        Ok(Opcode::Error) => decode_error(body),
        Ok(Opcode::Oack) => decode_oack(body),
    }
}

fn decode_request(opcode: Opcode, body: &[u8]) -> (r: Result<Packet<'_>, Error>)
    requires
        opcode == Opcode::Rrq || opcode == Opcode::Wrq,
    ensures
        says(
            r,
            match request_of(body@) {
                Err(e) => Err(e),
                Ok((filename, mode, options)) => Ok(
                    if opcode == Opcode::Rrq {
                        PacketView::Rrq { filename, mode, options }
                    } else {
                        PacketView::Wrq { filename, mode, options }
                    },
                ),
            },
        ),
{
    let (filename, behind_filename) = match take_cstr(body) {
        Ok(taken) => taken,
        Err(e) => {
            return Err(e);
        },
    };
    let (mode_name, rest) = match take_cstr(behind_filename) {
        Ok(taken) => taken,
        Err(e) => {
            return Err(e);
        },
    };
    let mode: Mode = match Mode::parse(mode_name.as_str()) {
        Ok(mode) => mode,
        Err(e) => {
            return Err(e);
        },
    };
    let pairs: Vec<(String, String)> = match take_pairs(rest) {
        Ok(pairs) => pairs,
        Err(e) => {
            return Err(e);
        },
    };
    let options: OptionSet = OptionSet::from_pairs(pairs.as_slice());
    if opcode == Opcode::Rrq {
        Ok(Packet::Rrq { filename, mode, options })
    } else {
        Ok(Packet::Wrq { filename, mode, options })
    }
}

fn decode_data(body: &[u8]) -> (r: Result<Packet<'_>, Error>)
    ensures
        says(
            r,
            if body@.len() < 2 {
                Err(ErrorView::Malformed("DATA missing block number"@))
            } else {
                Ok(PacketView::Data { block: u16_of(body@[0], body@[1]), data: body@.skip(2) })
            },
        ),
{
    if body.len() < 2 {
        return Err(Error::Malformed("DATA missing block number"));
    }
    let data: &[u8] = vstd::slice::slice_subrange(body, 2, body.len());
    assert(data@ =~= body@.skip(2));
    Ok(Packet::Data { block: join_u16(body[0], body[1]), data })
}

fn decode_ack(body: &[u8]) -> (r: Result<Packet<'_>, Error>)
    ensures
        says(
            r,
            if body@.len() < 2 {
                Err(ErrorView::Malformed("ACK missing block number"@))
            } else {
                Ok(PacketView::Ack { block: u16_of(body@[0], body@[1]) })
            },
        ),
{
    if body.len() < 2 {
        return Err(Error::Malformed("ACK missing block number"));
    }
    Ok(Packet::Ack { block: join_u16(body[0], body[1]) })
}

fn decode_error(body: &[u8]) -> (r: Result<Packet<'_>, Error>)
    ensures
        says(
            r,
            if body@.len() < 3 {
                Err(ErrorView::Malformed("ERROR too short"@))
            } else {
                match text_at_start(body@.skip(2)) {
                    Err(e) => Err(e),
                    Ok((msg, _)) => Ok(
                        PacketView::Error {
                            code: ErrorCode::of_number(u16_of(body@[0], body@[1])),
                            msg,
                        },
                    ),
                }
            },
        ),
{
    if body.len() < 3 {
        return Err(Error::Malformed("ERROR too short"));
    }
    let code: ErrorCode = ErrorCode::from_u16(join_u16(body[0], body[1]));
    let rest: &[u8] = vstd::slice::slice_subrange(body, 2, body.len());
    assert(rest@ =~= body@.skip(2));
    match take_cstr(rest) {
        Ok((msg, _)) => Ok(Packet::Error { code, msg }),
        Err(e) => Err(e),
    }
}

fn decode_oack(body: &[u8]) -> (r: Result<Packet<'_>, Error>)
    ensures
        says(
            r,
            match pairs_filling(body@) {
                Err(e) => Err(e),
                Ok(pairs) => Ok(PacketView::Oack { options: options_of_pairs(pairs) }),
            },
        ),
{
    match take_pairs(body) {
        Ok(pairs) => Ok(Packet::Oack { options: OptionSet::from_pairs(pairs.as_slice()) }),
        Err(e) => Err(e),
    }
}

/// Takes a NUL-terminated text from the start of `cursor`.
fn take_cstr(cursor: &[u8]) -> (r: Result<(String, &[u8]), Error>)
    ensures
        match text_at_start(cursor@) {
            Ok((text, rest)) => r matches Ok(taken) && taken.0@ == text && taken.1@ == rest,
            Err(error) => r matches Err(e) && e@ == error,
        },
{
    let mut n: usize = 0;
    proof {
        nul_at_is_first(cursor@);
    }
    while n < cursor.len() && cursor[n] != 0
        invariant
            n <= cursor@.len(),
            n <= nul_at(cursor@),
            0 <= nul_at(cursor@) <= cursor@.len(),
            nul_at(cursor@) < cursor@.len() ==> cursor@[nul_at(cursor@)] == 0,
        decreases cursor@.len() - n,
    {
        n = n + 1;
    }
    if n == cursor.len() {
        return Err(Error::MissingNul);
    }
    let field: &[u8] = vstd::slice::slice_subrange(cursor, 0, n);
    assert(field@ =~= cursor@.take(n as int));
    match utf8_text(field) {
        None => Err(Error::InvalidUtf8),
        Some(s) => {
            let rest: &[u8] = vstd::slice::slice_subrange(cursor, n + 1, cursor.len());
            assert(rest@ =~= cursor@.skip(n + 1));
            Ok((s.to_owned(), rest))
        },
    }
}

/// Takes (name, value) pairs until `body` is used up.
fn take_pairs(body: &[u8]) -> (r: Result<Vec<(String, String)>, Error>)
    ensures
        match pairs_filling(body@) {
            Ok(texts) => r matches Ok(pairs) && pair_texts(pairs@) == texts,
            Err(error) => r matches Err(e) && e@ == error,
        },
{
    let mut cursor: &[u8] = body;
    let mut pairs: Vec<(String, String)> = Vec::new();
    assert(pair_texts(pairs@) =~= Seq::empty());
    assert(pairs_filling(cursor@) matches Ok(more) ==> pair_texts(pairs@) + more =~= more);
    while cursor.len() > 0
        invariant
            match pairs_filling(body@) {
                Ok(texts) => pairs_filling(cursor@) matches Ok(more) && texts == pair_texts(pairs@)
                    + more,
                Err(error) => pairs_filling(cursor@) == Err::<TextPairs, ErrorView>(error),
            },
        decreases cursor@.len(),
    {
        proof {
            nul_at_is_first(cursor@);
        }
        let (name, behind_name) = match take_cstr(cursor) {
            Ok(taken) => taken,
            Err(e) => {
                return Err(e);
            },
        };
        proof {
            nul_at_is_first(behind_name@);
        }
        let (value, rest) = match take_cstr(behind_name) {
            Ok(taken) => taken,
            Err(e) => {
                return Err(e);
            },
        };
        let ghost before = pair_texts(pairs@);
        let ghost pair = (name@, value@);
        pairs.push((name, value));
        assert(pair_texts(pairs@) =~= before.push(pair));
        assert(pairs_filling(rest@) matches Ok(more) ==> before + (seq![pair] + more)
            =~= before.push(pair) + more);
        cursor = rest;
    }
    assert(pair_texts(pairs@) + Seq::empty() =~= pair_texts(pairs@));
    Ok(pairs)
}

/// Appends a NUL-terminated text.
fn put_cstr(out: &mut BytesMut, s: &str)
    requires
        buffer_bytes(*old(out)).len() + text_wire(s@).len() <= buffer_limit(),
    ensures
        buffer_bytes(*final(out)) == buffer_bytes(*old(out)) + text_wire(s@),
{
    put_slice(out, s.as_bytes());
    put_u8(out, 0);
    assert(buffer_bytes(*out) =~= buffer_bytes(*old(out)) + text_wire(s@));
}

proof fn options_wire_push(items: Seq<OptionValue>, option: OptionValue)
    ensures
        options_wire(items.push(option)) == options_wire(items) + option_wire(option),
    decreases items.len(),
{
    if items.len() == 0 {
        assert(items.push(option).drop_first() =~= items);
        assert(options_wire(items.push(option)) =~= options_wire(items) + option_wire(option));
    } else {
        assert(items.push(option).drop_first() =~= items.drop_first().push(option));
        options_wire_push(items.drop_first(), option);
        assert(options_wire(items.push(option)) =~= options_wire(items) + option_wire(option));
    }
}

proof fn options_wire_grows(items: Seq<OptionValue>, n: int)
    requires
        0 <= n <= items.len(),
    ensures
        options_wire(items.take(n)).len() <= options_wire(items).len(),
    decreases items.len() - n,
{
    if n < items.len() {
        options_wire_grows(items, n + 1);
        assert(items.take(n + 1) =~= items.take(n).push(items[n]));
        options_wire_push(items.take(n), items[n]);
    } else {
        assert(items.take(n) =~= items);
    }
}

/// Appends options.
fn put_options(out: &mut BytesMut, options: &OptionSet)
    requires
        buffer_bytes(*old(out)).len() + options_wire(options@).len() <= buffer_limit(),
    ensures
        buffer_bytes(*final(out)) == buffer_bytes(*old(out)) + options_wire(options@),
{
    let items: &[OptionValue] = options.iter();
    let ghost start = buffer_bytes(*out);
    assert(options@.take(0) =~= Seq::empty());
    assert(start + options_wire(options@.take(0)) =~= start);
    for i in 0..items.len()
        invariant
            items@ == options@,
            start.len() + options_wire(options@).len() <= buffer_limit(),
            buffer_bytes(*out) == start + options_wire(options@.take(i as int)),
    {
        let ghost before = buffer_bytes(*out);
        proof {
            options_wire_grows(options@, i + 1);
            assert(options@.take(i + 1) =~= options@.take(i as int).push(options@[i as int]));
            options_wire_push(options@.take(i as int), options@[i as int]);
        }
        put_cstr(out, items[i].name());
        put_cstr(out, items[i].value_string().as_str());
        assert(buffer_bytes(*out) =~= start + options_wire(options@.take(i + 1)));
    }
    assert(options@.take(items.len() as int) =~= options@);
}

/// What kind of packet this is.
pub open spec fn opcode_of(packet: PacketView) -> Opcode {
    match packet {
        PacketView::Rrq { .. } => Opcode::Rrq,
        PacketView::Wrq { .. } => Opcode::Wrq,
        PacketView::Data { .. } => Opcode::Data,
        PacketView::Ack { .. } => Opcode::Ack,
        PacketView::Error { .. } => Opcode::Error,
        PacketView::Oack { .. } => Opcode::Oack,
    }
}

/// On the wire a packet starts with its opcode, and a data packet, an
/// acknowledgement or an error goes on with its number, each of them in two
/// bytes, the high one first.
pub proof fn packets_start_with_their_numbers(packet: PacketView)
    ensures
        u16_wire(opcode_of(packet).number()).is_prefix_of(packet_wire(packet)),
        packet matches PacketView::Data { block, .. } ==> u16_wire(block).is_prefix_of(
            packet_wire(packet).skip(2),
        ),
        packet matches PacketView::Ack { block } ==> u16_wire(block).is_prefix_of(
            packet_wire(packet).skip(2),
        ),
        packet matches PacketView::Error { code, .. } ==> u16_wire(code.number()).is_prefix_of(
            packet_wire(packet).skip(2),
        ),
{
    let wire = packet_wire(packet);
    assert(u16_wire(opcode_of(packet).number()) =~= wire.take(2));
    match packet {
        PacketView::Data { block, .. } => {
            assert(u16_wire(block) =~= wire.skip(2).take(2));
        },
        PacketView::Ack { block } => {
            assert(u16_wire(block) =~= wire.skip(2).take(2));
        },
        PacketView::Error { code, .. } => {
            assert(u16_wire(code.number()) =~= wire.skip(2).take(2));
        },
        _ => {},
    }
}

/// Appends a request.
pub(crate) fn encode_request(
    opcode: Opcode,
    filename: &str,
    mode: Mode,
    options: &OptionSet,
    out: &mut BytesMut,
)
    requires
        buffer_bytes(*old(out)).len() + request_wire(opcode, filename@, mode, options@).len()
            <= buffer_limit(),
    ensures
        buffer_bytes(*final(out)) == buffer_bytes(*old(out)) + request_wire(
            opcode,
            filename@,
            mode,
            options@,
        ),
{
    put_u16(out, opcode.to_u16());
    put_cstr(out, filename);
    put_cstr(out, mode.as_wire());
    put_options(out, options);
    assert(buffer_bytes(*out) =~= buffer_bytes(*old(out)) + request_wire(
        opcode,
        filename@,
        mode,
        options@,
    ));
}

/// Encodes a packet onto the end of `out`.
pub fn encode_into(packet: &Packet<'_>, out: &mut BytesMut)
    requires
        buffer_bytes(*old(out)).len() + packet_wire(packet@).len() <= buffer_limit(),
    ensures
        buffer_bytes(*final(out)) == buffer_bytes(*old(out)) + packet_wire(packet@),
{
    match packet {
        Packet::Rrq { filename, mode, options } => {
            encode_request(Opcode::Rrq, filename.as_str(), *mode, options, out);
        },
        Packet::Wrq { filename, mode, options } => {
            encode_request(Opcode::Wrq, filename.as_str(), *mode, options, out);
        },
        Packet::Data { block, data } => {
            put_u16(out, Opcode::Data.to_u16());
            put_u16(out, *block);
            put_slice(out, data);
        },
        Packet::Ack { block } => {
            put_u16(out, Opcode::Ack.to_u16());
            put_u16(out, *block);
        },
        Packet::Error { code, msg } => {
            put_u16(out, Opcode::Error.to_u16());
            put_u16(out, code.to_u16());
            put_cstr(out, msg.as_str());
        },
        Packet::Oack { options } => {
            put_u16(out, Opcode::Oack.to_u16());
            put_options(out, options);
        },
    }
    assert(buffer_bytes(*out) =~= buffer_bytes(*old(out)) + packet_wire(packet@));
}

/// The options in a packet from the wire are distinct and valid.
pub proof fn decoded_options_are_wf(buf: Seq<u8>)
    ensures
        match packet_of(buf) {
            Ok(PacketView::Rrq { options, .. }) => distinct_kinds(options) && all_valid(options),
            Ok(PacketView::Wrq { options, .. }) => distinct_kinds(options) && all_valid(options),
            Ok(PacketView::Oack { options }) => distinct_kinds(options) && all_valid(options),
            _ => true,
        },
{
    let body = buf.skip(2);
    if let Ok(pairs) = pairs_filling(body) {
        options_of_pairs_are_wf(pairs);
    }
    if let Ok((_, rest)) = text_at_start(body) {
        if let Ok((_, more)) = text_at_start(rest) {
            if let Ok(pairs) = pairs_filling(more) {
                options_of_pairs_are_wf(pairs);
            }
        }
    }
}

/// The text holds no NUL character, so that it can be NUL-terminated.
pub open spec fn no_nul(s: Seq<char>) -> bool {
    forall|i: int| 0 <= i < s.len() ==> #[trigger] s[i] != '\0'
}

/// Whether a packet survives the wire: its texts hold no NUL, no option
/// occurs twice, and a receiver accepts every option value.
pub open spec fn wire_safe(packet: PacketView) -> bool {
    match packet {
        PacketView::Rrq { filename, mode, options } => {
            no_nul(filename) && distinct_kinds(options) && all_valid(options)
        },
        PacketView::Wrq { filename, mode, options } => {
            no_nul(filename) && distinct_kinds(options) && all_valid(options)
        },
        PacketView::Error { code, msg } => no_nul(msg),
        PacketView::Oack { options } => distinct_kinds(options) && all_valid(options),
        _ => true,
    }
}

/// What is left of a packet on the wire: all but the option values that a
/// receiver does not accept.
pub open spec fn carried(packet: PacketView) -> PacketView {
    match packet {
        PacketView::Rrq { filename, mode, options } => PacketView::Rrq {
            filename,
            mode,
            options: valid_part(options),
        },
        PacketView::Wrq { filename, mode, options } => PacketView::Wrq {
            filename,
            mode,
            options: valid_part(options),
        },
        PacketView::Oack { options } => PacketView::Oack { options: valid_part(options) },
        _ => packet,
    }
}

/// Whether the fields of a packet can be told apart on the wire: its texts
/// hold no NUL, and no option occurs twice.
pub open spec fn separable(packet: PacketView) -> bool {
    match packet {
        PacketView::Rrq { filename, mode, options } => no_nul(filename) && distinct_kinds(options),
        PacketView::Wrq { filename, mode, options } => no_nul(filename) && distinct_kinds(options),
        PacketView::Error { code, msg } => no_nul(msg),
        PacketView::Oack { options } => distinct_kinds(options),
        _ => true,
    }
}

/// Decoding what encoding a packet gives yields the packet without the option
/// values that a receiver does not accept.
pub proof fn packets_lose_only_invalid_options(packet: PacketView)
    requires
        separable(packet),
    ensures
        packet_of(packet_wire(packet)) == Ok::<PacketView, ErrorView>(carried(packet)),
{
    match packet {
        PacketView::Rrq { filename, mode, options } => {
            read_request_carries(filename, mode, options);
        },
        PacketView::Wrq { filename, mode, options } => {
            write_request_carries(filename, mode, options);
        },
        PacketView::Data { block, data } => {
            data_carries(block, data);
        },
        PacketView::Ack { block } => {
            ack_carries(block);
        },
        PacketView::Error { code, msg } => {
            error_carries(code, msg);
        },
        PacketView::Oack { options } => {
            oack_carries(options);
        },
    }
}

/// Decoding what encoding a packet gives yields the packet again.
pub proof fn packets_round_trip(packet: PacketView)
    requires
        wire_safe(packet),
    ensures
        packet_of(packet_wire(packet)) == Ok::<PacketView, ErrorView>(packet),
{
    packets_lose_only_invalid_options(packet);
    match packet {
        PacketView::Rrq { options, .. } => valid_part_is_valid(options),
        PacketView::Wrq { options, .. } => valid_part_is_valid(options),
        PacketView::Oack { options } => valid_part_is_valid(options),
        _ => {},
    }
}

/// The opcode at the start of a packet.
proof fn opcode_carries(opcode: Opcode, body: Seq<u8>)
    ensures
        ({
            let wire = u16_wire(opcode.number()) + body;
            &&& wire.len() >= 2
            &&& u16_of(wire[0], wire[1]) == opcode.number()
            &&& wire.skip(2) == body
        }),
{
    let wire = u16_wire(opcode.number()) + body;
    assert(wire.skip(2) =~= body);
}

/// The number behind the opcode of a packet.
proof fn number_carries(n: u16, body: Seq<u8>)
    ensures
        ({
            let wire = u16_wire(n) + body;
            &&& wire.len() >= 2
            &&& u16_of(wire[0], wire[1]) == n
            &&& wire.skip(2) == body
        }),
{
    let wire = u16_wire(n) + body;
    assert(wire.skip(2) =~= body);
}

proof fn data_carries(block: u16, data: Seq<u8>)
    ensures
        ({
            let packet = PacketView::Data { block, data };
            packet_of(packet_wire(packet)) == Ok::<PacketView, ErrorView>(packet)
        }),
{
    let body = u16_wire(block) + data;
    assert(packet_wire(PacketView::Data { block, data }) =~= u16_wire(Opcode::Data.number())
        + body);
    opcode_carries(Opcode::Data, body);
    number_carries(block, data);
}

proof fn ack_carries(block: u16)
    ensures
        ({
            let packet = PacketView::Ack { block };
            packet_of(packet_wire(packet)) == Ok::<PacketView, ErrorView>(packet)
        }),
{
    opcode_carries(Opcode::Ack, u16_wire(block));
    number_carries(block, Seq::empty());
    assert(u16_wire(block) + Seq::empty() =~= u16_wire(block));
}

proof fn error_carries(code: ErrorCode, msg: Seq<char>)
    requires
        no_nul(msg),
    ensures
        ({
            let packet = PacketView::Error { code, msg };
            packet_of(packet_wire(packet)) == Ok::<PacketView, ErrorView>(packet)
        }),
{
    let text = text_wire(msg);
    let body = u16_wire(code.number()) + text;
    assert(packet_wire(PacketView::Error { code, msg }) =~= u16_wire(Opcode::Error.number())
        + body);
    opcode_carries(Opcode::Error, body);
    number_carries(code.number(), text);
    assert(text + Seq::empty() =~= text);
    text_round_trips(msg, Seq::empty());
    error_code_numbers_round_trip(code);
}

proof fn oack_carries(options: Seq<OptionValue>)
    requires
        distinct_kinds(options),
    ensures
        packet_of(packet_wire(PacketView::Oack { options })) == Ok::<PacketView, ErrorView>(
            PacketView::Oack { options: valid_part(options) },
        ),
{
    opcode_carries(Opcode::Oack, options_wire(options));
    pairs_round_trip(options);
    only_invalid_options_are_lost(options);
}

proof fn read_request_carries(filename: Seq<char>, mode: Mode, options: Seq<OptionValue>)
    requires
        no_nul(filename),
        distinct_kinds(options),
    ensures
        packet_of(packet_wire(PacketView::Rrq { filename, mode, options })) == Ok::<
            PacketView,
            ErrorView,
        >(PacketView::Rrq { filename, mode, options: valid_part(options) }),
{
    let body = request_body(filename, mode, options);
    assert(request_wire(Opcode::Rrq, filename, mode, options) =~= u16_wire(Opcode::Rrq.number())
        + body);
    opcode_carries(Opcode::Rrq, body);
    request_body_carries(filename, mode, options);
}

proof fn write_request_carries(filename: Seq<char>, mode: Mode, options: Seq<OptionValue>)
    requires
        no_nul(filename),
        distinct_kinds(options),
    ensures
        packet_of(packet_wire(PacketView::Wrq { filename, mode, options })) == Ok::<
            PacketView,
            ErrorView,
        >(PacketView::Wrq { filename, mode, options: valid_part(options) }),
{
    let body = request_body(filename, mode, options);
    assert(request_wire(Opcode::Wrq, filename, mode, options) =~= u16_wire(Opcode::Wrq.number())
        + body);
    opcode_carries(Opcode::Wrq, body);
    request_body_carries(filename, mode, options);
}

/// A request behind its opcode.
spec fn request_body(filename: Seq<char>, mode: Mode, options: Seq<OptionValue>) -> Seq<u8> {
    text_wire(filename) + (text_wire(mode.wire_name()) + options_wire(options))
}

proof fn request_body_carries(filename: Seq<char>, mode: Mode, options: Seq<OptionValue>)
    requires
        no_nul(filename),
        distinct_kinds(options),
    ensures
        request_of(request_body(filename, mode, options)) == Ok::<
            (Seq<char>, Mode, Seq<OptionValue>),
            ErrorView,
        >((filename, mode, valid_part(options))),
{
    text_round_trips(filename, text_wire(mode.wire_name()) + options_wire(options));
    assert(no_nul(mode.wire_name())) by {
        reveal_strlit("netascii");
        reveal_strlit("octet");
    }
    text_round_trips(mode.wire_name(), options_wire(options));
    mode_names_round_trip(mode);
    pairs_round_trip(options);
    only_invalid_options_are_lost(options);
}

proof fn pairs_round_trip(options: Seq<OptionValue>)
    ensures
        pairs_filling(options_wire(options)) == Ok::<TextPairs, ErrorView>(
            pairs_of_options(options),
        ),
    decreases options.len(),
{
    let wire = options_wire(options);
    if options.len() == 0 {
        assert(pairs_of_options(options) =~= Seq::empty());
    } else {
        let name = options[0].kind().wire_name();
        let value = decimal_text(options[0].number());
        let rest = options_wire(options.drop_first());
        assert(no_nul(name)) by {
            reveal_strlit("blksize");
            reveal_strlit("timeout");
            reveal_strlit("tsize");
            reveal_strlit("windowsize");
        }
        assert(no_nul(value)) by {
            decimal_text_is_digits(options[0].number());
        }
        assert(wire =~= text_wire(name) + (text_wire(value) + rest));
        text_round_trips(name, text_wire(value) + rest);
        text_round_trips(value, rest);
        pairs_round_trip(options.drop_first());
        assert(pairs_of_options(options) =~= seq![(name, value)] + pairs_of_options(
            options.drop_first(),
        ));
    }
}

/// A text field is read back, whatever stands behind it.
proof fn text_round_trips(s: Seq<char>, rest: Seq<u8>)
    requires
        no_nul(s),
    ensures
        text_at_start(text_wire(s) + rest) == Ok::<(Seq<char>, Seq<u8>), ErrorView>((s, rest)),
{
    let wire = text_wire(s) + rest;
    let n = encode_utf8(s).len() as int;
    utf8_without_nul(s);
    nul_at_is_first(wire);
    assert(wire[n] == 0);
    assert forall|i: int| 0 <= i < n implies #[trigger] wire[i] != 0 by {
        assert(wire[i] == encode_utf8(s)[i]);
    }
    assert(nul_at(wire) == n);
    assert(wire.take(n) =~= encode_utf8(s));
    assert(wire.skip(n + 1) =~= rest);
    vstd::utf8::encode_utf8_valid_utf8(s);
    vstd::utf8::encode_utf8_decode_utf8(s);
}

/// Only a NUL character encodes to a NUL byte.
proof fn utf8_without_nul(s: Seq<char>)
    requires
        no_nul(s),
    ensures
        forall|i: int| 0 <= i < encode_utf8(s).len() ==> #[trigger] encode_utf8(s)[i] != 0,
    decreases s.len(),
{
    if s.len() > 0 {
        let rest = s.drop_first();
        let head = vstd::utf8::encode_scalar(s[0] as u32);
        assert forall|i: int| 0 <= i < rest.len() implies #[trigger] rest[i] != '\0' by {
            assert(rest[i] == s[i + 1]);
        }
        utf8_without_nul(rest);
        char_without_nul(s[0]);
        assert forall|i: int| 0 <= i < encode_utf8(s).len() implies #[trigger] encode_utf8(s)[i]
            != 0 by {
            if i < head.len() {
                assert(encode_utf8(s)[i] == head[i]);
            } else {
                assert(encode_utf8(s)[i] == encode_utf8(rest)[i - head.len()]);
            }
        }
    }
}

proof fn char_without_nul(c: char)
    requires
        c != '\0',
    ensures
        forall|i: int|
            0 <= i < vstd::utf8::encode_scalar(c as u32).len()
                ==> #[trigger] vstd::utf8::encode_scalar(c as u32)[i] != 0,
{
    scalar_without_nul(c as u32);
}

proof fn scalar_without_nul(c: u32)
    requires
        c != 0,
        c <= 0x10ffff,
    ensures
        forall|i: int|
            0 <= i < vstd::utf8::encode_scalar(c).len()
                ==> #[trigger] vstd::utf8::encode_scalar(c)[i] != 0,
{
    assert(1 <= c <= 0x7f ==> (c & 0x7f) as u8 != 0) by (bit_vector);
    assert((0xc0u8 | ((c >> 6) & 0x1f) as u8) != 0) by (bit_vector);
    assert((0xe0u8 | ((c >> 12) & 0x0f) as u8) != 0) by (bit_vector);
    assert((0xf0u8 | ((c >> 18) & 0x7) as u8) != 0) by (bit_vector);
    assert((0x80u8 | (c & 0x3f) as u8) != 0) by (bit_vector);
    assert((0x80u8 | ((c >> 6) & 0x3f) as u8) != 0) by (bit_vector);
    assert((0x80u8 | ((c >> 12) & 0x3f) as u8) != 0) by (bit_vector);
}

/// The bytes of a packet on the wire: a zero, the number of its opcode, and
/// behind that, for a data block or an acknowledgement, the number of the
/// block, high byte first, and the data as they are; for an error, the number
/// of its code and its text up to a NUL; for a request, the file name and the
/// mode, each up to a NUL, and the options; for an option acknowledgement,
/// the options.
pub proof fn packets_have_these_bytes(packet: PacketView)
    ensures
        ({
            let wire = packet_wire(packet);
            let nul = seq![0u8];
            match packet {
                PacketView::Rrq { filename, mode, options } => wire == seq![0u8, 1u8] + encode_utf8(
                    filename,
                ) + nul + encode_utf8(
                    if mode == Mode::NetAscii {
                        "netascii"@
                    } else {
                        "octet"@
                    },
                ) + nul + options_wire(options),
                PacketView::Wrq { filename, mode, options } => wire == seq![0u8, 2u8] + encode_utf8(
                    filename,
                ) + nul + encode_utf8(
                    if mode == Mode::NetAscii {
                        "netascii"@
                    } else {
                        "octet"@
                    },
                ) + nul + options_wire(options),
                PacketView::Data { block, data } => {
                    &&& wire.take(2) == seq![0u8, 3u8]
                    &&& wire.len() == 4 + data.len()
                    &&& wire[2] * 256 + wire[3] == block
                    &&& wire.skip(4) == data
                },
                PacketView::Ack { block } => {
                    &&& wire.take(2) == seq![0u8, 4u8]
                    &&& wire.len() == 4
                    &&& wire[2] * 256 + wire[3] == block
                },
                PacketView::Error { code, msg } => {
                    &&& wire.take(2) == seq![0u8, 5u8]
                    &&& wire.len() >= 4
                    &&& wire[2] * 256 + wire[3] == code.number()
                    &&& wire.skip(4) == encode_utf8(msg) + nul
                },
                PacketView::Oack { options } => wire == seq![0u8, 6u8] + options_wire(options),
            }
        }),
{
    let wire = packet_wire(packet);
    assert(u16_wire(1) =~= seq![0u8, 1u8]);
    assert(u16_wire(2) =~= seq![0u8, 2u8]);
    match packet {
        PacketView::Rrq { filename, mode, options } => {
            assert(wire =~= seq![0u8, 1u8] + encode_utf8(filename) + seq![0u8] + encode_utf8(
                mode.wire_name(),
            ) + seq![0u8] + options_wire(options));
        },
        PacketView::Wrq { filename, mode, options } => {
            assert(wire =~= seq![0u8, 2u8] + encode_utf8(filename) + seq![0u8] + encode_utf8(
                mode.wire_name(),
            ) + seq![0u8] + options_wire(options));
        },
        PacketView::Data { block, data } => {
            assert(wire.take(2) =~= seq![0u8, 3u8]);
            assert(wire.skip(4) =~= data);
        },
        PacketView::Ack { block } => {
            assert(wire.take(2) =~= seq![0u8, 4u8]);
        },
        PacketView::Error { code, msg } => {
            assert(wire.take(2) =~= seq![0u8, 5u8]);
            assert(wire.skip(4) =~= encode_utf8(msg) + seq![0u8]);
        },
        PacketView::Oack { options } => {
            assert(wire =~= seq![0u8, 6u8] + options_wire(options));
        },
    }
}

/// Options stand on the wire in their order, each as its name and its number
/// in decimal notation, with a NUL behind either.
pub proof fn options_have_these_bytes(items: Seq<OptionValue>, option: OptionValue)
    ensures
        options_wire(Seq::empty()) == Seq::<u8>::empty(),
        options_wire(items.push(option)) == options_wire(items) + match option {
            OptionValue::BlockSize(v) => encode_utf8("blksize"@) + seq![0u8] + encode_utf8(
                decimal_text(v as nat),
            ) + seq![0u8],
            OptionValue::Timeout(v) => encode_utf8("timeout"@) + seq![0u8] + encode_utf8(
                decimal_text(v as nat),
            ) + seq![0u8],
            OptionValue::TransferSize(v) => encode_utf8("tsize"@) + seq![0u8] + encode_utf8(
                decimal_text(v as nat),
            ) + seq![0u8],
            OptionValue::WindowSize(v) => encode_utf8("windowsize"@) + seq![0u8] + encode_utf8(
                decimal_text(v as nat),
            ) + seq![0u8],
        },
    decreases items.len(),
{
    let more = items.push(option);
    let bytes = option_wire(option);
    assert(bytes =~= encode_utf8(option.kind().wire_name()) + seq![0u8] + encode_utf8(
        decimal_text(option.number()),
    ) + seq![0u8]);
    if items.len() == 0 {
        assert(more.drop_first() =~= Seq::<OptionValue>::empty());
        assert(options_wire(more.drop_first()) =~= Seq::<u8>::empty());
        assert(options_wire(more) =~= options_wire(items) + bytes);
    } else {
        options_have_these_bytes(items.drop_first(), option);
        assert(more.drop_first() =~= items.drop_first().push(option));
        assert(options_wire(more) =~= options_wire(items) + bytes);
    }
}

/// What a datagram is taken for goes by its first two bytes, and what it says
/// by those behind them.
pub proof fn datagrams_are_read_like_this(buf: Seq<u8>)
    ensures
        ({
            let number = buf[0] * 256 + buf[1];
            let block = buf[2] * 256 + buf[3];
            &&& buf.len() < 2 ==> packet_of(buf) == Err::<PacketView, ErrorView>(
                ErrorView::Malformed("packet shorter than opcode"@),
            )
            &&& buf.len() >= 2 && !(1 <= number <= 6) ==> packet_of(buf) == Err::<
                PacketView,
                ErrorView,
            >(ErrorView::UnknownOpcode(number as u16))
            &&& 2 <= buf.len() < 4 && number == 3 ==> packet_of(buf) == Err::<
                PacketView,
                ErrorView,
            >(ErrorView::Malformed("DATA missing block number"@))
            &&& buf.len() >= 4 && number == 3 ==> packet_of(buf) == Ok::<PacketView, ErrorView>(
                PacketView::Data { block: block as u16, data: buf.skip(4) },
            )
            &&& 2 <= buf.len() < 4 && number == 4 ==> packet_of(buf) == Err::<
                PacketView,
                ErrorView,
            >(ErrorView::Malformed("ACK missing block number"@))
            &&& buf.len() >= 4 && number == 4 ==> packet_of(buf) == Ok::<PacketView, ErrorView>(
                PacketView::Ack { block: block as u16 },
            )
            &&& 2 <= buf.len() < 5 && number == 5 ==> packet_of(buf) == Err::<
                PacketView,
                ErrorView,
            >(ErrorView::Malformed("ERROR too short"@))
            &&& buf.len() >= 5 && number == 5 ==> packet_of(buf) == match text_at_start(
                buf.skip(4),
            ) {
                Ok((msg, _)) => Ok(
                    PacketView::Error { code: ErrorCode::of_number(block as u16), msg },
                ),
                Err(e) => Err(e),
            }
        }),
{
    if buf.len() >= 4 {
        assert(buf.skip(2).skip(2) =~= buf.skip(4));
    }
}

/// A text field is what stands before the first NUL, if that is UTF-8, and
/// the field ends behind the NUL.
pub proof fn text_fields_end_at_the_nul(text: Seq<u8>, behind: Seq<u8>)
    requires
        forall|i: int| 0 <= i < text.len() ==> #[trigger] text[i] != 0,
    ensures
        text_at_start(text) == Err::<(Seq<char>, Seq<u8>), ErrorView>(ErrorView::MissingNul),
        valid_utf8(text) ==> text_at_start(text + seq![0u8] + behind) == Ok::<
            (Seq<char>, Seq<u8>),
            ErrorView,
        >((decode_utf8(text), behind)),
        !valid_utf8(text) ==> text_at_start(text + seq![0u8] + behind) == Err::<
            (Seq<char>, Seq<u8>),
            ErrorView,
        >(ErrorView::InvalidUtf8),
{
    let field = text + seq![0u8] + behind;
    nul_at_is_first(text);
    nul_at_is_first(field);
    let n = nul_at(field);
    assert(field[text.len() as int] == 0);
    if n < text.len() {
        assert(field[n] == text[n]);
    }
    assert(field.take(n) =~= text);
    assert(field.skip(n + 1) =~= behind);
}

/// Pairs of text fields are read one by one to the end of the datagram, and a
/// field that cannot be read fails them all.
pub proof fn pairs_are_read_one_by_one(name: Seq<u8>, value: Seq<u8>, behind: Seq<u8>)
    requires
        forall|i: int| 0 <= i < name.len() ==> #[trigger] name[i] != 0,
        forall|i: int| 0 <= i < value.len() ==> #[trigger] value[i] != 0,
        valid_utf8(name),
    ensures
        pairs_filling(Seq::empty()) == Ok::<TextPairs, ErrorView>(Seq::empty()),
        valid_utf8(value) ==> pairs_filling(name + seq![0u8] + (value + seq![0u8] + behind))
            == match pairs_filling(behind) {
            Ok(more) => Ok(seq![(decode_utf8(name), decode_utf8(value))] + more),
            Err(e) => Err(e),
        },
        !valid_utf8(value) ==> pairs_filling(name + seq![0u8] + (value + seq![0u8] + behind))
            == Err::<TextPairs, ErrorView>(ErrorView::InvalidUtf8),
        pairs_filling(name + seq![0u8] + value) == Err::<TextPairs, ErrorView>(
            ErrorView::MissingNul,
        ),
        name.len() > 0 ==> pairs_filling(name) == Err::<TextPairs, ErrorView>(
            ErrorView::MissingNul,
        ),
{
    text_fields_end_at_the_nul(name, value + seq![0u8] + behind);
    text_fields_end_at_the_nul(name, value);
    text_fields_end_at_the_nul(value, behind);
}

/// A request is a file name, a mode that is known, and pairs that say
/// options, behind its opcode: 1 to read, 2 to write.
pub proof fn requests_are_read_like_this(
    number: u8,
    filename: Seq<u8>,
    mode: Seq<u8>,
    behind: Seq<u8>,
)
    requires
        number == 1 || number == 2,
        forall|i: int| 0 <= i < filename.len() ==> #[trigger] filename[i] != 0,
        forall|i: int| 0 <= i < mode.len() ==> #[trigger] mode[i] != 0,
        valid_utf8(filename),
        valid_utf8(mode),
    ensures
        ({
            let buf = seq![0u8, number] + (filename + seq![0u8] + (mode + seq![0u8] + behind));
            packet_of(buf) == match (Mode::named(decode_utf8(mode)), pairs_filling(behind)) {
                (None, _) => Err(ErrorView::InvalidMode(decode_utf8(mode))),
                (Some(_), Err(e)) => Err(e),
                (Some(known), Ok(pairs)) => {
                    let (name, options) = (decode_utf8(filename), options_of_pairs(pairs));
                    if number == 1 {
                        Ok(PacketView::Rrq { filename: name, mode: known, options })
                    } else {
                        Ok(PacketView::Wrq { filename: name, mode: known, options })
                    }
                },
            }
        }),
{
    let body = filename + seq![0u8] + (mode + seq![0u8] + behind);
    assert((seq![0u8, number] + body).skip(2) =~= body);
    text_fields_end_at_the_nul(filename, mode + seq![0u8] + behind);
    text_fields_end_at_the_nul(mode, behind);
}

/// An option acknowledgement is pairs that say options, behind opcode 6.
pub proof fn option_acks_are_read_like_this(behind: Seq<u8>)
    ensures
        packet_of(seq![0u8, 6u8] + behind) == match pairs_filling(behind) {
            Ok(pairs) => Ok(PacketView::Oack { options: options_of_pairs(pairs) }),
            Err(e) => Err(e),
        },
{
    assert((seq![0u8, 6u8] + behind).skip(2) =~= behind);
}

/// A result says a packet just when it holds that packet, and an error just
/// when it holds that error.
pub proof fn results_say_one_thing<'a>(
    r: Result<Packet<'a>, Error>,
    said: Result<PacketView, ErrorView>,
)
    ensures
        says(r, said) <==> (r is Ok && said is Ok && r->Ok_0@ == said->Ok_0) || (r is Err
            && said is Err && r->Err_0@ == said->Err_0),
{
}

/// A packet says what its fields hold.
pub proof fn packets_are_seen_whole<'a>(packet: Packet<'a>)
    ensures
        match packet {
            Packet::Rrq { filename, mode, options } => packet@ == (PacketView::Rrq {
                filename: filename@,
                mode,
                options: options@,
            }),
            Packet::Wrq { filename, mode, options } => packet@ == (PacketView::Wrq {
                filename: filename@,
                mode,
                options: options@,
            }),
            Packet::Data { block, data } => packet@ == (PacketView::Data { block, data: data@ }),
            Packet::Ack { block } => packet@ == (PacketView::Ack { block }),
            Packet::Error { code, msg } => packet@ == (PacketView::Error { code, msg: msg@ }),
            Packet::Oack { options } => packet@ == (PacketView::Oack { options: options@ }),
        },
{
}

/// A request whose file name or mode cannot be read is refused with the
/// reason.
pub proof fn unreadable_requests_are_refused(number: u8, body: Seq<u8>)
    requires
        number == 1 || number == 2,
    ensures
        match text_at_start(body) {
            Err(e) => packet_of(seq![0u8, number] + body) == Err::<PacketView, ErrorView>(e),
            Ok((_, rest)) => match text_at_start(rest) {
                Err(e) => packet_of(seq![0u8, number] + body) == Err::<PacketView, ErrorView>(e),
                Ok(_) => true,
            },
        },
{
    assert((seq![0u8, number] + body).skip(2) =~= body);
}

/// A receiver that makes room for the largest packet can take every data
/// block up to the largest block size, and needs no less room for that one.
pub proof fn largest_blocks_fit(block: u16, data: Seq<u8>)
    ensures
        packet_wire(PacketView::Data { block, data }).len() <= MAX_PACKET_SIZE <==> data.len()
            <= 65464,
        MAX_BLOCK_SIZE == 65464,
        MIN_BLOCK_SIZE == 8,
        DEFAULT_BLOCK_SIZE == 512,
        DEFAULT_WINDOW_SIZE == 1,
{
}

} // verus!
