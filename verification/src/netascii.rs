//! Streaming netascii translation (RFC 764; RFC 1350, section 2).
//!
//! On the wire: ASCII text using CR LF as a line terminator.  A literal CR is
//! encoded as CR NUL.
//!
//! On Unix disk: lines are terminated by LF; CR appears verbatim.
//!
//! Translation must be streaming because TFTP block boundaries can fall
//! between the two bytes of a CR LF or CR NUL pair.
use vstd::prelude::*;

verus! {

/// Line feed.
pub const LF: u8 = 10;

/// Carriage return.
pub const CR: u8 = 13;

/// What one byte on disk becomes on the wire.
pub open spec fn byte_to_wire(b: u8) -> Seq<u8> {
    if b == LF {
        seq![CR, LF]
    } else if b == CR {
        seq![CR, 0u8]
    } else {
        seq![b]
    }
}

/// What a text on disk becomes on the wire.
pub open spec fn to_wire(s: Seq<u8>) -> Seq<u8>
    decreases s.len(),
{
    if s.len() == 0 {
        Seq::empty()
    } else {
        to_wire(s.drop_last()) + byte_to_wire(s.last())
    }
}

/// What one byte from the wire puts on disk, where `pending` says that an
/// undecided CR came before it.
pub open spec fn byte_from_wire(pending: bool, b: u8) -> Seq<u8> {
    if pending {
        if b == LF {
            seq![LF]
        } else if b == 0 {
            seq![CR]
        } else {
            seq![CR, b]
        }
    } else if b == CR {
        Seq::empty()
    } else {
        seq![b]
    }
}

/// Whether an undecided CR is held back behind the bytes `s`, where `pending`
/// says that one came before them.
pub open spec fn pending_after(pending: bool, s: Seq<u8>) -> bool
    decreases s.len(),
{
    if s.len() == 0 {
        pending
    } else {
        !pending_after(pending, s.drop_last()) && s.last() == CR
    }
}

/// What the bytes `s` from the wire put on disk, where `pending` says that an
/// undecided CR came before them.
pub open spec fn from_wire(pending: bool, s: Seq<u8>) -> Seq<u8>
    decreases s.len(),
{
    if s.len() == 0 {
        Seq::empty()
    } else {
        from_wire(pending, s.drop_last()) + byte_from_wire(
            pending_after(pending, s.drop_last()),
            s.last(),
        )
    }
}

/// What the end of the stream puts on disk: the CR that is held back, if any.
pub open spec fn wire_tail(pending: bool) -> Seq<u8> {
    if pending {
        seq![CR]
    } else {
        Seq::empty()
    }
}

/// Disk to wire encoder.
#[derive(Debug)]
pub struct ToWire {
    _phantom: (),
}

impl Default for ToWire {
    fn default() -> (encoder: ToWire) {
        ToWire { _phantom: () }
    }
}

impl ToWire {
    /// An encoder at the start of a stream.  It holds nothing back between
    /// calls.
    pub fn new() -> (encoder: ToWire) {
        ToWire { _phantom: () }
    }

    /// Translates `input` onto the end of `out`.  Returns the number of
    /// source bytes consumed, which is all of them.
    pub fn translate(&mut self, input: &[u8], out: &mut Vec<u8>) -> (n: usize)
        ensures
            final(out)@ == old(out)@ + to_wire(input@),
            n == input@.len(),
            *final(self) == *old(self),
    {
        let ghost start = out@;
        assert(start + to_wire(input@.take(0)) =~= start);
        for i in 0..input.len()
            invariant
                out@ == start + to_wire(input@.take(i as int)),
                *self == *old(self),
        {
            let b: u8 = input[i];
            assert(input@.take(i + 1).drop_last() =~= input@.take(i as int));
            if b == LF {
                out.push(CR);
                out.push(LF);
            } else if b == CR {
                out.push(CR);
                out.push(0);
            } else {
                out.push(b);
            }
            assert(out@ =~= start + to_wire(input@.take(i + 1)));
        }
        assert(input@.take(input@.len() as int) =~= input@);
        input.len()
    }
}

/// Wire to disk decoder.
#[derive(Debug)]
pub struct FromWire {
    pending_cr: bool,
}

impl View for FromWire {
    type V = bool;

    /// Whether the bytes so far end with a CR that is still undecided.
    closed spec fn view(&self) -> bool {
        self.pending_cr
    }
}

impl Default for FromWire {
    fn default() -> (decoder: FromWire)
        ensures
            !decoder@,
    {
        FromWire { pending_cr: false }
    }
}

impl FromWire {
    /// A decoder at the start of a stream.
    pub fn new() -> (decoder: FromWire)
        ensures
            !decoder@,
    {
        FromWire { pending_cr: false }
    }

    /// Translates `input` onto the end of `out`.  A CR at the end of `input`
    /// is held back until the byte behind it is known: an LF makes the two a
    /// line end, a NUL a plain CR; in front of any other byte the CR stays.
    pub fn translate(&mut self, input: &[u8], out: &mut Vec<u8>)
        ensures
            final(out)@ == old(out)@ + from_wire(old(self)@, input@),
            final(self)@ == pending_after(old(self)@, input@),
    {
        let ghost start = out@;
        let ghost pending = self@;
        assert(start + from_wire(pending, input@.take(0)) =~= start);
        for i in 0..input.len()
            invariant
                out@ == start + from_wire(pending, input@.take(i as int)),
                self@ == pending_after(pending, input@.take(i as int)),
        {
            let b: u8 = input[i];
            assert(input@.take(i + 1).drop_last() =~= input@.take(i as int));
            if self.pending_cr {
                self.pending_cr = false;
                if b == LF {
                    out.push(LF);
                } else if b == 0 {
                    out.push(CR);
                } else {
                    out.push(CR);
                    out.push(b);
                }
            } else if b == CR {
                self.pending_cr = true;
            } else {
                out.push(b);
            }
            assert(out@ =~= start + from_wire(pending, input@.take(i + 1)));
        }
        assert(input@.take(input@.len() as int) =~= input@);
    }

    /// Call once at the end of the stream: flushes a trailing CR.
    pub fn finish(&mut self, out: &mut Vec<u8>)
        ensures
            final(out)@ == old(out)@ + wire_tail(old(self)@),
            !final(self)@,
    {
        if self.pending_cr {
            self.pending_cr = false;
            out.push(CR);
        }
        assert(out@ =~= old(out)@ + wire_tail(old(self)@));
    }
}

/// Encoding does not depend on how the text is cut into pieces.
pub proof fn to_wire_of_pieces(a: Seq<u8>, b: Seq<u8>)
    ensures
        to_wire(a + b) == to_wire(a) + to_wire(b),
    decreases b.len(),
{
    if b.len() == 0 {
        assert(a + b =~= a);
        assert(to_wire(a) + to_wire(b) =~= to_wire(a));
    } else {
        assert((a + b).drop_last() =~= a + b.drop_last());
        to_wire_of_pieces(a, b.drop_last());
        assert(to_wire(a + b) =~= to_wire(a) + to_wire(b));
    }
}

/// Decoding does not depend on how the wire bytes are cut into blocks.
pub proof fn from_wire_of_pieces(pending: bool, a: Seq<u8>, b: Seq<u8>)
    ensures
        from_wire(pending, a + b) == from_wire(pending, a) + from_wire(
            pending_after(pending, a),
            b,
        ),
        pending_after(pending, a + b) == pending_after(pending_after(pending, a), b),
    decreases b.len(),
{
    if b.len() == 0 {
        assert(a + b =~= a);
        assert(from_wire(pending, a) + from_wire(pending_after(pending, a), b) =~= from_wire(
            pending,
            a,
        ));
    } else {
        assert((a + b).drop_last() =~= a + b.drop_last());
        from_wire_of_pieces(pending, a, b.drop_last());
        assert(from_wire(pending, a + b) =~= from_wire(pending, a) + from_wire(
            pending_after(pending, a),
            b,
        ));
    }
}

/// Decoding what encoding a text gives yields the text again, and nothing is
/// left to flush.
pub proof fn netascii_round_trips(s: Seq<u8>)
    ensures
        from_wire(false, to_wire(s)) == s,
        !pending_after(false, to_wire(s)),
    decreases s.len(),
{
    if s.len() > 0 {
        let head = s.drop_last();
        let b = s.last();
        netascii_round_trips(head);
        from_wire_of_pieces(false, to_wire(head), byte_to_wire(b));
        reveal_with_fuel(from_wire, 3);
        reveal_with_fuel(pending_after, 3);
        let w = byte_to_wire(b);
        if b == LF || b == CR {
            assert(w.drop_last() =~= seq![CR]);
            assert(seq![CR].drop_last() =~= Seq::<u8>::empty());
        } else {
            assert(w.drop_last() =~= Seq::<u8>::empty());
        }
        assert(from_wire(false, w) =~= seq![b]);
        assert(head + seq![b] =~= s);
    }
}

/// On the wire every CR stands before an LF or a NUL, and every LF behind a
/// CR.
pub proof fn wire_text_is_well_formed(s: Seq<u8>)
    ensures
        forall|i: int|
            0 <= i < to_wire(s).len() && #[trigger] to_wire(s)[i] == CR ==> i + 1 < to_wire(s).len()
                && (to_wire(s)[i + 1] == LF || to_wire(s)[i + 1] == 0),
        forall|i: int|
            0 <= i < to_wire(s).len() && #[trigger] to_wire(s)[i] == LF ==> i > 0 && to_wire(s)[i
                - 1] == CR,
    decreases s.len(),
{
    if s.len() > 0 {
        let head = to_wire(s.drop_last());
        let w = byte_to_wire(s.last());
        wire_text_is_well_formed(s.drop_last());
        assert(to_wire(s) == head + w);
        assert forall|i: int|
            0 <= i < to_wire(s).len() && #[trigger] to_wire(s)[i] == CR implies i + 1 < to_wire(
            s,
        ).len() && (to_wire(s)[i + 1] == LF || to_wire(s)[i + 1] == 0) by {
            if i < head.len() {
                assert(head[i] == CR);
                assert(to_wire(s)[i + 1] == head[i + 1]);
            }
        }
        assert forall|i: int|
            0 <= i < to_wire(s).len() && #[trigger] to_wire(s)[i] == LF implies i > 0 && to_wire(
            s,
        )[i - 1] == CR by {
            if i < head.len() {
                assert(head[i] == LF);
                assert(to_wire(s)[i - 1] == head[i - 1]);
            }
        }
    }
}

/// Encoding at most doubles a text, and never shortens it.
pub proof fn to_wire_len(s: Seq<u8>)
    ensures
        s.len() <= to_wire(s).len() <= 2 * s.len(),
    decreases s.len(),
{
    if s.len() > 0 {
        to_wire_len(s.drop_last());
    }
}

/// Decoding puts no more bytes on disk than came from the wire, a CR that was
/// held back before them counted in.
pub proof fn from_wire_len(pending: bool, s: Seq<u8>)
    ensures
        from_wire(pending, s).len() + wire_tail(pending_after(pending, s)).len() <= s.len()
            + wire_tail(pending).len(),
    decreases s.len(),
{
    if s.len() > 0 {
        from_wire_len(pending, s.drop_last());
    }
}

/// Only line ends and carriage returns are encoded: a text with neither a
/// byte 10 nor a byte 13 stands on the wire as it stands on disk.
pub proof fn other_bytes_go_out_unchanged(s: Seq<u8>)
    requires
        forall|i: int| 0 <= i < s.len() ==> #[trigger] s[i] != 10 && s[i] != 13,
    ensures
        to_wire(s) == s,
    decreases s.len(),
{
    if s.len() > 0 {
        assert(s.last() == s[s.len() - 1]);
        other_bytes_go_out_unchanged(s.drop_last());
        assert(s.drop_last() + seq![s.last()] =~= s);
    }
}

/// Only what follows a carriage return is decoded: bytes from the wire
/// without a byte 13 go to disk as they are, and leave nothing undecided.
pub proof fn other_bytes_come_in_unchanged(w: Seq<u8>)
    requires
        forall|i: int| 0 <= i < w.len() ==> #[trigger] w[i] != 13,
    ensures
        from_wire(false, w) == w,
        !pending_after(false, w),
    decreases w.len(),
{
    if w.len() > 0 {
        assert(w.last() == w[w.len() - 1]);
        other_bytes_come_in_unchanged(w.drop_last());
        assert(w.drop_last() + seq![w.last()] =~= w);
    }
}

/// Between any two texts, a line end (10) goes out as 13 10, a carriage
/// return (13) as 13 0, and every other byte as itself.
pub proof fn each_byte_goes_out(before: Seq<u8>, b: u8, behind: Seq<u8>)
    ensures
        to_wire(before + seq![b] + behind) == to_wire(before) + (if b == 10 {
            seq![13u8, 10u8]
        } else if b == 13 {
            seq![13u8, 0u8]
        } else {
            seq![b]
        }) + to_wire(behind),
        to_wire(Seq::empty()) == Seq::<u8>::empty(),
{
    assert(before + seq![b] =~= before.push(b));
    to_wire_of_pieces(before.push(b), behind);
    assert(before.push(b).drop_last() =~= before);
}

/// Wherever a stream is not in the middle of a pair, the pair 13 10 puts a
/// line end on disk and the pair 13 0 a carriage return; a 13 before any
/// other byte stays as it is, and every byte but 13 stands for itself.
pub proof fn each_pair_comes_in(b: u8, behind: Seq<u8>)
    ensures
        from_wire(false, seq![13u8, b] + behind) == (if b == 10 {
            seq![10u8]
        } else if b == 0 {
            seq![13u8]
        } else {
            seq![13u8, b]
        }) + from_wire(false, behind),
        pending_after(false, seq![13u8, b] + behind) == pending_after(false, behind),
        b != 13 ==> from_wire(false, seq![b] + behind) == seq![b] + from_wire(false, behind),
        b != 13 ==> pending_after(false, seq![b] + behind) == pending_after(false, behind),
        from_wire(false, Seq::empty()) == Seq::<u8>::empty(),
        !pending_after(false, Seq::empty()),
{
    reveal_with_fuel(from_wire, 3);
    reveal_with_fuel(pending_after, 3);
    assert(seq![13u8, b].drop_last() =~= seq![13u8]);
    assert(seq![13u8].drop_last() =~= Seq::<u8>::empty());
    assert(seq![b].drop_last() =~= Seq::<u8>::empty());
    from_wire_of_pieces(false, seq![13u8, b], behind);
    from_wire_of_pieces(false, seq![b], behind);
    assert(from_wire(false, seq![13u8, b]) =~= (if b == 10 {
        seq![10u8]
    } else if b == 0 {
        seq![13u8]
    } else {
        seq![13u8, b]
    }));
    assert(from_wire(false, seq![b]) =~= if b == 13 {
        Seq::empty()
    } else {
        seq![b]
    });
}

/// A stream may be cut behind a carriage return: the 13 is held back, the
/// byte behind the cut is read as if nothing had come between, and at the end
/// of the stream the 13 goes to disk.
pub proof fn cut_pairs_come_in_whole(before: Seq<u8>, behind: Seq<u8>)
    requires
        !pending_after(false, before),
    ensures
        pending_after(false, before.push(13)),
        from_wire(false, before.push(13)) == from_wire(false, before),
        from_wire(false, before) + from_wire(true, behind) == from_wire(
            false,
            before + seq![13u8] + behind,
        ),
        pending_after(true, behind) == pending_after(false, before + seq![13u8] + behind),
        wire_tail(true) == seq![13u8],
        wire_tail(false) == Seq::<u8>::empty(),
{
    assert(before.push(13).drop_last() =~= before);
    assert(before.push(13) =~= before + seq![13u8]);
    from_wire_of_pieces(false, before + seq![13u8], behind);
    assert(from_wire(false, before.push(13)) =~= from_wire(false, before));
}

} // verus!
