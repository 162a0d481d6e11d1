use std::str::FromStr;
use vstd::prelude::*;

use crate::error::{Error, ErrorView};
use crate::proto::text::{
    ascii_lower, decimal_string, decimal_text, decimal_text_round_trips, decimal_value,
    eq_ignore_case, parse_decimal, same_ignoring_case,
};
use crate::proto::{MAX_BLOCK_SIZE, MIN_BLOCK_SIZE};

verus! {

/// Transfer mode field of RRQ and WRQ packets (RFC 1350, section 2).  The
/// historic `mail` mode is not supported.
#[derive(Debug, Copy, Clone, PartialEq, Eq, Hash, Structural)]
pub enum Mode {
    NetAscii,
    Octet,
}

impl Mode {
    /// The name of this mode in a request.
    pub open spec fn wire_name(self) -> Seq<char> {
        match self {
            Mode::NetAscii => "netascii"@,
            Mode::Octet => "octet"@,
        }
    }

    /// The mode that `name` stands for, in whatever case it is written.
    pub open spec fn named(name: Seq<char>) -> Option<Mode> {
        if same_ignoring_case(name, "netascii"@) {
            Some(Mode::NetAscii)
        } else if same_ignoring_case(name, "octet"@) || same_ignoring_case(name, "binary"@) {
            Some(Mode::Octet)
        } else {
            None
        }
    }

    /// The name of this mode in a request.
    pub fn as_wire(&self) -> (name: &'static str)
        ensures
            name@ == self.wire_name(),
    {
        match self {
            Mode::NetAscii => "netascii",
            Mode::Octet => "octet",
        }
    }

    /// The mode that `s` stands for, in whatever case it is written.
    pub fn parse(s: &str) -> (r: Result<Mode, Error>)
        ensures
            match Mode::named(s@) {
                Some(mode) => r == Ok::<Mode, Error>(mode),
                None => r matches Err(e) && e@ == ErrorView::InvalidMode(s@),
            },
    {
        if eq_ignore_case(s, "netascii") {
            Ok(Mode::NetAscii)
        } else if eq_ignore_case(s, "octet") || eq_ignore_case(s, "binary") {
            Ok(Mode::Octet)
        } else {
            Err(Error::InvalidMode(s.to_owned()))
        }
    }
}

impl FromStr for Mode {
    type Err = Error;

    /// The mode that `s` stands for, in whatever case it is written.
    fn from_str(s: &str) -> (r: Result<Mode, Error>)
        ensures
            match Mode::named(s@) {
                Some(mode) => r == Ok::<Mode, Error>(mode),
                None => r matches Err(e) && e@ == ErrorView::InvalidMode(s@),
            },
    {
        Mode::parse(s)
    }
}

/// The options that this library knows.
#[derive(Debug, Copy, Clone, PartialEq, Eq, Hash, Structural)]
pub enum OptionKind {
    BlockSize,
    Timeout,
    TransferSize,
    WindowSize,
}

impl OptionKind {
    /// The name of this option in a packet.
    pub open spec fn wire_name(self) -> Seq<char> {
        match self {
            OptionKind::BlockSize => "blksize"@,
            OptionKind::Timeout => "timeout"@,
            OptionKind::TransferSize => "tsize"@,
            OptionKind::WindowSize => "windowsize"@,
        }
    }

    /// The option that `name` stands for, in whatever case it is written.
    pub open spec fn named(name: Seq<char>) -> Option<OptionKind> {
        if same_ignoring_case(name, "blksize"@) {
            Some(OptionKind::BlockSize)
        } else if same_ignoring_case(name, "timeout"@) {
            Some(OptionKind::Timeout)
        } else if same_ignoring_case(name, "tsize"@) {
            Some(OptionKind::TransferSize)
        } else if same_ignoring_case(name, "windowsize"@) {
            Some(OptionKind::WindowSize)
        } else {
            None
        }
    }

    /// The option that `name` stands for, in whatever case it is written.
    pub fn from_name(name: &str) -> (kind: Option<OptionKind>)
        ensures
            kind == OptionKind::named(name@),
    {
        if eq_ignore_case(name, "blksize") {
            Some(OptionKind::BlockSize)
        } else if eq_ignore_case(name, "timeout") {
            Some(OptionKind::Timeout)
        } else if eq_ignore_case(name, "tsize") {
            Some(OptionKind::TransferSize)
        } else if eq_ignore_case(name, "windowsize") {
            Some(OptionKind::WindowSize)
        } else {
            None
        }
    }
}

/// Value of a known TFTP option.
#[derive(Debug, Copy, Clone, PartialEq, Eq, Hash, Structural)]
pub enum OptionValue {
    /// blksize, RFC 2348.
    BlockSize(u16),
    /// timeout, RFC 2349: per-packet retransmit timeout in seconds.
    Timeout(u8),
    /// tsize, RFC 2349: total transfer size in bytes.  Sent as 0 by a client
    /// doing a read, to ask the server how big the file is.
    TransferSize(u64),
    /// windowsize, RFC 7440.
    WindowSize(u16),
}

impl OptionValue {
    /// Which option this is a value of.
    pub open spec fn kind(self) -> OptionKind {
        match self {
            OptionValue::BlockSize(_) => OptionKind::BlockSize,
            OptionValue::Timeout(_) => OptionKind::Timeout,
            OptionValue::TransferSize(_) => OptionKind::TransferSize,
            OptionValue::WindowSize(_) => OptionKind::WindowSize,
        }
    }

    /// The number that this value holds.
    pub open spec fn number(self) -> nat {
        match self {
            OptionValue::BlockSize(v) => v as nat,
            OptionValue::Timeout(v) => v as nat,
            OptionValue::TransferSize(v) => v as nat,
            OptionValue::WindowSize(v) => v as nat,
        }
    }

    /// Whether a receiver accepts this value: block sizes from 8 to 65464,
    /// timeouts and window sizes of at least 1.
    pub open spec fn valid(self) -> bool {
        match self {
            OptionValue::BlockSize(v) => MIN_BLOCK_SIZE <= v <= MAX_BLOCK_SIZE,
            OptionValue::Timeout(v) => v >= 1,
            OptionValue::TransferSize(_) => true,
            OptionValue::WindowSize(v) => v >= 1,
        }
    }

    /// The value of option `kind` that holds the number `n`, if a receiver
    /// accepts it.
    pub open spec fn of_number(kind: OptionKind, n: nat) -> Option<OptionValue> {
        match kind {
            OptionKind::BlockSize => if MIN_BLOCK_SIZE <= n <= MAX_BLOCK_SIZE {
                Some(OptionValue::BlockSize(n as u16))
            } else {
                None
            },
            OptionKind::Timeout => if 1 <= n <= u8::MAX {
                Some(OptionValue::Timeout(n as u8))
            } else {
                None
            },
            OptionKind::TransferSize => if n <= u64::MAX {
                Some(OptionValue::TransferSize(n as u64))
            } else {
                None
            },
            OptionKind::WindowSize => if 1 <= n <= u16::MAX {
                Some(OptionValue::WindowSize(n as u16))
            } else {
                None
            },
        }
    }

    /// What the text `value` means as a value of option `kind`.
    pub open spec fn of_text(kind: OptionKind, value: Seq<char>) -> Option<OptionValue> {
        match decimal_value(value) {
            Some(n) => OptionValue::of_number(kind, n),
            None => None,
        }
    }

    /// What the option `name` with the text `value` means.
    pub open spec fn of_pair(name: Seq<char>, value: Seq<char>) -> Option<OptionValue> {
        match OptionKind::named(name) {
            Some(kind) => OptionValue::of_text(kind, value),
            None => None,
        }
    }

    /// The name of the option.
    pub fn name(&self) -> (name: &'static str)
        ensures
            name@ == self.kind().wire_name(),
    {
        match self {
            OptionValue::BlockSize(_) => "blksize",
            OptionValue::Timeout(_) => "timeout",
            OptionValue::TransferSize(_) => "tsize",
            OptionValue::WindowSize(_) => "windowsize",
        }
    }

    /// The value in decimal notation.
    pub fn value_string(&self) -> (text: String)
        ensures
            text@ == decimal_text(self.number()),
    {
        match self {
            OptionValue::BlockSize(v) => decimal_string(*v as u64),
            OptionValue::Timeout(v) => decimal_string(*v as u64),
            OptionValue::TransferSize(v) => decimal_string(*v),
            OptionValue::WindowSize(v) => decimal_string(*v as u64),
        }
    }

    /// Reads one option.  An unknown name is refused like a bad value; a
    /// caller that follows RFC 2347 ignores it.
    pub fn parse(name: &str, value: &str) -> (r: Result<OptionValue, Error>)
        ensures
            match OptionValue::of_pair(name@, value@) {
                Some(option) => r == Ok::<OptionValue, Error>(option),
                None => r matches Err(e) && e@ == (ErrorView::InvalidOption {
                    name: name@,
                    value: value@,
                }),
            },
    {
        let parsed: Option<OptionValue> = match OptionKind::from_name(name) {
            Some(OptionKind::BlockSize) => match parse_decimal(value, MAX_BLOCK_SIZE as u64) {
                Some(n) => if n >= MIN_BLOCK_SIZE as u64 {
                    Some(OptionValue::BlockSize(n as u16))
                } else {
                    None
                },
                None => None,
            },
            Some(OptionKind::Timeout) => match parse_decimal(value, u8::MAX as u64) {
                Some(n) => if n >= 1 {
                    Some(OptionValue::Timeout(n as u8))
                } else {
                    None
                },
                None => None,
            },
            Some(OptionKind::TransferSize) => match parse_decimal(value, u64::MAX) {
                Some(n) => Some(OptionValue::TransferSize(n)),
                None => None,
            },
            Some(OptionKind::WindowSize) => match parse_decimal(value, u16::MAX as u64) {
                Some(n) => if n >= 1 {
                    Some(OptionValue::WindowSize(n as u16))
                } else {
                    None
                },
                None => None,
            },
            None => None,
        };
        match parsed {
            Some(option) => Ok(option),
            None => Err(Error::InvalidOption { name: name.to_owned(), value: value.to_owned() }),
        }
    }

    /// Which option this is a value of.
    pub fn get_kind(&self) -> (kind: OptionKind)
        ensures
            kind == self.kind(),
    {
        match self {
            OptionValue::BlockSize(_) => OptionKind::BlockSize,
            OptionValue::Timeout(_) => OptionKind::Timeout,
            OptionValue::TransferSize(_) => OptionKind::TransferSize,
            OptionValue::WindowSize(_) => OptionKind::WindowSize,
        }
    }
}

/// Where the first value of option `kind` stands in `items`; the length if
/// there is none.
pub open spec fn position_of(items: Seq<OptionValue>, kind: OptionKind) -> int
    decreases items.len(),
{
    if items.len() == 0 || items[0].kind() == kind {
        0
    } else {
        1 + position_of(items.drop_first(), kind)
    }
}

/// The first value of option `kind` in `items`.
pub open spec fn lookup(items: Seq<OptionValue>, kind: OptionKind) -> Option<OptionValue> {
    let at = position_of(items, kind);
    if at < items.len() {
        Some(items[at])
    } else {
        None
    }
}

/// `items` with `value` in the place of the prior value of its option, or at
/// the end if there is none.
pub open spec fn inserted(items: Seq<OptionValue>, value: OptionValue) -> Seq<OptionValue> {
    let at = position_of(items, value.kind());
    if at < items.len() {
        items.update(at, value)
    } else {
        items.push(value)
    }
}

/// No option occurs twice.
pub open spec fn distinct_kinds(items: Seq<OptionValue>) -> bool {
    forall|i: int, j: int|
        0 <= i < j < items.len() ==> (#[trigger] items[i]).kind() != (#[trigger] items[j]).kind()
}

/// A receiver accepts every value.
pub open spec fn all_valid(items: Seq<OptionValue>) -> bool {
    forall|i: int| 0 <= i < items.len() ==> (#[trigger] items[i]).valid()
}

/// The values that a receiver accepts, in their order.
pub open spec fn valid_part(items: Seq<OptionValue>) -> Seq<OptionValue>
    decreases items.len(),
{
    if items.len() == 0 {
        Seq::empty()
    } else if items.last().valid() {
        valid_part(items.drop_last()).push(items.last())
    } else {
        valid_part(items.drop_last())
    }
}

/// Options as (name, value) texts, as a packet carries them.
pub type TextPairs = Seq<(Seq<char>, Seq<char>)>;

/// The text of the last pair whose name stands for `kind`.
pub open spec fn last_text(pairs: TextPairs, kind: OptionKind) -> Option<Seq<char>>
    decreases pairs.len(),
{
    if pairs.len() == 0 {
        None
    } else if OptionKind::named(pairs.last().0) == Some(kind) {
        Some(pairs.last().1)
    } else {
        last_text(pairs.drop_last(), kind)
    }
}

/// Whether one of the first `n` pairs names `kind`.
pub open spec fn named_before(pairs: TextPairs, n: int, kind: OptionKind) -> bool {
    exists|i: int| 0 <= i < n && OptionKind::named(#[trigger] pairs[i].0) == Some(kind)
}

/// What the pairs mean, as far as the options first named within the first
/// `n` pairs go.
pub open spec fn options_named_within(pairs: TextPairs, n: int) -> Seq<OptionValue>
    decreases n,
{
    if n <= 0 {
        Seq::empty()
    } else {
        let before = options_named_within(pairs, n - 1);
        match OptionKind::named(pairs[n - 1].0) {
            Some(kind) => if named_before(pairs, n - 1, kind) {
                before
            } else {
                match OptionValue::of_text(kind, last_text(pairs, kind).unwrap()) {
                    Some(option) => before.push(option),
                    None => before,
                }
            },
            None => before,
        }
    }
}

/// What the pairs mean: each known option once, in the order in which the
/// names first occur, with the value that is given last.  Unknown options and
/// those whose last value is bad are left out.
pub open spec fn options_of_pairs(pairs: TextPairs) -> Seq<OptionValue> {
    options_named_within(pairs, pairs.len() as int)
}

/// The texts of a list of pairs.
pub open spec fn pair_texts(pairs: Seq<(String, String)>) -> TextPairs {
    pairs.map_values(|p: (String, String)| (p.0@, p.1@))
}

/// The pairs that stand for `items` in a packet.
pub open spec fn pairs_of_options(items: Seq<OptionValue>) -> TextPairs {
    items.map_values(|o: OptionValue| (o.kind().wire_name(), decimal_text(o.number())))
}

/// What [`position_of`] says: the place of the first value of `kind`.
pub proof fn position_of_is_first(items: Seq<OptionValue>, kind: OptionKind)
    ensures
        0 <= position_of(items, kind) <= items.len(),
        position_of(items, kind) < items.len() ==> items[position_of(items, kind)].kind() == kind,
        forall|i: int|
            0 <= i < position_of(items, kind) ==> (#[trigger] items[i]).kind() != kind,
    decreases items.len(),
{
    if items.len() != 0 && items[0].kind() != kind {
        let rest = items.drop_first();
        position_of_is_first(rest, kind);
        assert forall|i: int| 0 <= i < position_of(items, kind) implies (
        #[trigger] items[i]).kind() != kind by {
            if i > 0 {
                assert(rest[i - 1] == items[i]);
            }
        }
    }
}

/// A place `at` with a value of `kind`, and none before it, is the position
/// of `kind`.
pub proof fn position_of_is(items: Seq<OptionValue>, kind: OptionKind, at: int)
    requires
        0 <= at <= items.len(),
        at < items.len() ==> items[at].kind() == kind,
        forall|i: int| 0 <= i < at ==> (#[trigger] items[i]).kind() != kind,
    ensures
        position_of(items, kind) == at,
{
    position_of_is_first(items, kind);
}

/// Inserting a value makes it the value of its option, leaves every other
/// option alone, and keeps the options distinct.
pub proof fn insert_sets_one_option(items: Seq<OptionValue>, value: OptionValue)
    ensures
        lookup(inserted(items, value), value.kind()) == Some(value),
        forall|kind: OptionKind|
            kind != value.kind() ==> #[trigger] lookup(inserted(items, value), kind) == lookup(
                items,
                kind,
            ),
        distinct_kinds(items) ==> distinct_kinds(inserted(items, value)),
        all_valid(items) && value.valid() ==> all_valid(inserted(items, value)),
{
    let at = position_of(items, value.kind());
    let new = inserted(items, value);
    position_of_is_first(items, value.kind());
    assert forall|i: int| 0 <= i < at implies (#[trigger] new[i]).kind() != value.kind() by {
        assert(new[i] == items[i]);
    }
    position_of_is(new, value.kind(), at);
    assert forall|kind: OptionKind| kind != value.kind() implies #[trigger] lookup(new, kind)
        == lookup(items, kind) by {
        position_of_is_first(items, kind);
        let p = position_of(items, kind);
        if p < items.len() {
            assert forall|i: int| 0 <= i < p implies (#[trigger] new[i]).kind() != kind by {
                assert(items[i].kind() != kind);
            }
            position_of_is(new, kind, p);
        } else {
            assert forall|i: int| 0 <= i < new.len() implies (#[trigger] new[i]).kind() != kind by {
                if i < items.len() {
                    assert(items[i].kind() != kind);
                }
            }
            position_of_is(new, kind, new.len() as int);
        }
    }
}

/// An option list with this option, or none.
pub open spec fn listed(option: Option<OptionValue>) -> Seq<OptionValue> {
    match option {
        Some(value) => seq![value],
        None => Seq::empty(),
    }
}

/// Inserting an option that is not there yet puts it at the end.
pub proof fn insert_new(items: Seq<OptionValue>, value: OptionValue)
    requires
        forall|i: int| 0 <= i < items.len() ==> (#[trigger] items[i]).kind() != value.kind(),
    ensures
        inserted(items, value) == items + listed(Some(value)),
{
    position_of_is(items, value.kind(), items.len() as int);
    assert(inserted(items, value) =~= items + listed(Some(value)));
}

/// With distinct options there are at most as many values as options.
pub proof fn at_most_four_options(items: Seq<OptionValue>)
    requires
        distinct_kinds(items),
    ensures
        items.len() <= 4,
{
    if items.len() > 4 {
        let k0 = items[0].kind();
        let k1 = items[1].kind();
        let k2 = items[2].kind();
        let k3 = items[3].kind();
        let k4 = items[4].kind();
        assert(k0 != k1 && k0 != k2 && k0 != k3 && k0 != k4);
        assert(k1 != k2 && k1 != k3 && k1 != k4 && k2 != k3 && k2 != k4 && k3 != k4);
    }
}

/// An ordered set of options.  The order is the one in which they were
/// inserted; no option occurs twice.
#[derive(Debug, PartialEq, Eq)]
pub struct OptionSet {
    items: Vec<OptionValue>,
}

impl View for OptionSet {
    type V = Seq<OptionValue>;

    closed spec fn view(&self) -> Seq<OptionValue> {
        self.items@
    }
}

impl Default for OptionSet {
    fn default() -> (set: OptionSet)
        ensures
            set@ == Seq::<OptionValue>::empty(),
            set.wf(),
    {
        OptionSet { items: Vec::new() }
    }
}

impl Clone for OptionSet {
    fn clone(&self) -> (set: OptionSet)
        ensures
            set@ == self@,
    {
        let mut items: Vec<OptionValue> = Vec::new();
        for i in 0..self.items.len()
            invariant
                items@ == self.items@.take(i as int),
        {
            items.push(self.items[i]);
        }
        assert(items@ =~= self.items@);
        OptionSet { items }
    }
}

impl OptionSet {
    /// No option occurs twice.
    pub open spec fn wf(self) -> bool {
        distinct_kinds(self@)
    }

    /// The set without options.
    pub fn new() -> (set: OptionSet)
        ensures
            set@ == Seq::<OptionValue>::empty(),
            set.wf(),
    {
        OptionSet { items: Vec::new() }
    }

    /// Whether there is no option.
    pub fn is_empty(&self) -> (empty: bool)
        ensures
            empty == (self@.len() == 0),
    {
        self.items.is_empty()
    }

    /// How many options there are.
    pub fn len(&self) -> (n: usize)
        ensures
            n == self@.len(),
    {
        self.items.len()
    }

    /// The options in their order.
    pub fn iter(&self) -> (items: &[OptionValue])
        ensures
            items@ == self@,
    {
        self.items.as_slice()
    }

    /// Where the first value of `kind` stands.
    fn position(&self, kind: OptionKind) -> (at: usize)
        ensures
            at == position_of(self@, kind),
    {
        for i in 0..self.items.len()
            invariant
                forall|j: int| 0 <= j < i ==> (#[trigger] self.items@[j]).kind() != kind,
        {
            if self.items[i].get_kind() == kind {
                proof {
                    position_of_is(self@, kind, i as int);
                }
                return i;
            }
        }
        proof {
            position_of_is(self@, kind, self@.len() as int);
        }
        self.items.len()
    }

    /// Inserts an option, replacing any prior value of the same option.
    pub fn insert(&mut self, value: OptionValue)
        ensures
            final(self)@ == inserted(old(self)@, value),
            old(self).wf() ==> final(self).wf(),
    {
        proof {
            position_of_is_first(self@, value.kind());
            insert_sets_one_option(self@, value);
        }
        let at: usize = self.position(value.get_kind());
        if at < self.items.len() {
            self.items.set(at, value);
        } else {
            self.items.push(value);
        }
    }

    /// The value of option `kind`.
    fn get(&self, kind: OptionKind) -> (value: Option<OptionValue>)
        ensures
            value == lookup(self@, kind),
            value matches Some(v) ==> v.kind() == kind,
    {
        proof {
            position_of_is_first(self@, kind);
        }
        let at: usize = self.position(kind);
        if at < self.items.len() {
            Some(self.items[at])
        } else {
            None
        }
    }

    /// The requested block size.
    pub fn block_size(&self) -> (v: Option<u16>)
        ensures
            v == block_size_in(self@),
    {
        match self.get(OptionKind::BlockSize) {
            Some(OptionValue::BlockSize(v)) => Some(v),
            _ => None,
        }
    }

    /// The requested timeout in seconds.
    pub fn timeout(&self) -> (v: Option<u8>)
        ensures
            v == timeout_in(self@),
    {
        match self.get(OptionKind::Timeout) {
            Some(OptionValue::Timeout(v)) => Some(v),
            _ => None,
        }
    }

    /// The announced transfer size.
    pub fn transfer_size(&self) -> (v: Option<u64>)
        ensures
            v == transfer_size_in(self@),
    {
        match self.get(OptionKind::TransferSize) {
            Some(OptionValue::TransferSize(v)) => Some(v),
            _ => None,
        }
    }

    /// The requested window size.
    pub fn window_size(&self) -> (v: Option<u16>)
        ensures
            v == window_size_in(self@),
    {
        match self.get(OptionKind::WindowSize) {
            Some(OptionValue::WindowSize(v)) => Some(v),
            _ => None,
        }
    }

    /// Reads (name, value) pairs.  Unknown options and bad values are
    /// dropped without a word (RFC 2347); a repeated option takes its last
    /// value in its first place.
    pub fn from_pairs(pairs: &[(String, String)]) -> (set: OptionSet)
        ensures
            set@ == options_of_pairs(pair_texts(pairs@)),
            set.wf(),
            all_valid(set@),
    {
        let ghost texts = pair_texts(pairs@);
        let mut set: OptionSet = OptionSet::new();
        let mut seen: Vec<OptionKind> = Vec::new();
        for i in 0..pairs.len()
            invariant
                texts == pair_texts(pairs@),
                set@ == options_named_within(texts, i as int),
                forall|k: OptionKind| seen@.contains(k) <==> named_before(texts, i as int, k),
        {
            assert(texts[i as int] == (pairs@[i as int].0@, pairs@[i as int].1@));
            if let Some(kind) = OptionKind::from_name(pairs[i].0.as_str()) {
                if !contains_kind(&seen, kind) {
                    let last: usize = last_named(pairs, kind, i);
                    if let Ok(option) = OptionValue::parse(
                        pairs[last].0.as_str(),
                        pairs[last].1.as_str(),
                    ) {
                        set.items.push(option);
                    }
                    proof {
                        assert(OptionKind::named(texts[i as int].0) == Some(kind));
                    }
                    let ghost before = seen@;
                    seen.push(kind);
                    proof {
                        assert forall|k: OptionKind| seen@.contains(k) <==> named_before(
                            texts,
                            i + 1,
                            k,
                        ) by {
                            if k == kind {
                                assert(seen@[before.len() as int] == kind);
                                assert(OptionKind::named(texts[i as int].0) == Some(k));
                            } else if before.contains(k) {
                                let j = before.index_of(k);
                                assert(seen@[j] == k);
                            } else if seen@.contains(k) {
                                let j = seen@.index_of(k);
                                assert(before[j] == k);
                            }
                        }
                    }
                }
            }
            proof {
                assert forall|k: OptionKind| seen@.contains(k) <==> named_before(
                    texts,
                    i + 1,
                    k,
                ) by {
                    if named_before(texts, i + 1, k) && !named_before(texts, i as int, k) {
                        assert(OptionKind::named(texts[i as int].0) == Some(k));
                    }
                }
            }
        }
        proof {
            options_of_pairs_are_distinct(texts, pairs@.len() as int);
        }
        set
    }
}

/// The block size among `items`.
pub open spec fn block_size_in(items: Seq<OptionValue>) -> Option<u16> {
    match lookup(items, OptionKind::BlockSize) {
        Some(OptionValue::BlockSize(v)) => Some(v),
        _ => None,
    }
}

/// The timeout among `items`.
pub open spec fn timeout_in(items: Seq<OptionValue>) -> Option<u8> {
    match lookup(items, OptionKind::Timeout) {
        Some(OptionValue::Timeout(v)) => Some(v),
        _ => None,
    }
}

/// The transfer size among `items`.
pub open spec fn transfer_size_in(items: Seq<OptionValue>) -> Option<u64> {
    match lookup(items, OptionKind::TransferSize) {
        Some(OptionValue::TransferSize(v)) => Some(v),
        _ => None,
    }
}

/// The window size among `items`.
pub open spec fn window_size_in(items: Seq<OptionValue>) -> Option<u16> {
    match lookup(items, OptionKind::WindowSize) {
        Some(OptionValue::WindowSize(v)) => Some(v),
        _ => None,
    }
}

fn contains_kind(kinds: &Vec<OptionKind>, kind: OptionKind) -> (found: bool)
    ensures
        found == kinds@.contains(kind),
{
    for i in 0..kinds.len()
        invariant
            forall|j: int| 0 <= j < i ==> kinds@[j] != kind,
    {
        if kinds[i] == kind {
            return true;
        }
    }
    false
}

/// The last pair whose name stands for `kind`, as pair `from` does.
fn last_named(pairs: &[(String, String)], kind: OptionKind, from: usize) -> (at: usize)
    requires
        from < pairs@.len(),
        OptionKind::named(pairs@[from as int].0@) == Some(kind),
    ensures
        at < pairs@.len(),
        OptionKind::named(pairs@[at as int].0@) == Some(kind),
        last_text(pair_texts(pairs@), kind) == Some(pairs@[at as int].1@),
{
    let ghost texts = pair_texts(pairs@);
    let mut n: usize = pairs.len();
    assert(texts.take(n as int) =~= texts);
    while n > 0
        invariant
            from < n <= pairs@.len(),
            texts == pair_texts(pairs@),
            OptionKind::named(pairs@[from as int].0@) == Some(kind),
            last_text(texts.take(n as int), kind) == last_text(texts, kind),
        decreases n,
    {
        assert(texts.take(n as int).last() == (pairs@[n - 1].0@, pairs@[n - 1].1@));
        assert(texts.take(n as int).drop_last() =~= texts.take(n - 1));
        match OptionKind::from_name(pairs[n - 1].0.as_str()) {
            Some(k) => {
                if k == kind {
                    return n - 1;
                }
            },
            None => {},
        }
        n = n - 1;
    }
    from
}

/// What pairs mean holds no option twice, and only valid values, each of an
/// option that is named.
proof fn options_of_pairs_are_distinct(pairs: TextPairs, n: int)
    requires
        0 <= n <= pairs.len(),
    ensures
        distinct_kinds(options_named_within(pairs, n)),
        all_valid(options_named_within(pairs, n)),
        forall|i: int|
            0 <= i < options_named_within(pairs, n).len() ==> named_before(
                pairs,
                n,
                (#[trigger] options_named_within(pairs, n)[i]).kind(),
            ),
    decreases n,
{
    if n > 0 {
        options_of_pairs_are_distinct(pairs, n - 1);
        let before = options_named_within(pairs, n - 1);
        let now = options_named_within(pairs, n);
        assert forall|i: int| 0 <= i < now.len() implies named_before(
            pairs,
            n,
            (#[trigger] now[i]).kind(),
        ) by {
            if i < before.len() {
                assert(now[i] == before[i]);
                let k = before[i].kind();
                let j = choose|j: int|
                    0 <= j < n - 1 && OptionKind::named(#[trigger] pairs[j].0) == Some(k);
                assert(OptionKind::named(pairs[j].0) == Some(k));
            } else {
                assert(OptionKind::named(pairs[n - 1].0) == Some(now[i].kind()));
            }
        }
        assert forall|i: int, j: int| 0 <= i < j < now.len() implies (#[trigger] now[i]).kind()
            != (#[trigger] now[j]).kind() by {
            assert(now[i] == before[i]);
            if j < before.len() {
                assert(now[j] == before[j]);
            } else {
                assert(named_before(pairs, n - 1, before[i].kind()));
            }
        }
    }
}

/// The name of an option stands for that option.
pub proof fn option_names_round_trip(kind: OptionKind)
    ensures
        OptionKind::named(kind.wire_name()) == Some(kind),
{
    reveal_strlit("blksize");
    reveal_strlit("timeout");
    reveal_strlit("tsize");
    reveal_strlit("windowsize");
    assert("blksize"@[0] == 'b');
    assert("timeout"@[0] == 't');
    assert("tsize"@.len() == 5);
}

/// The name of a mode stands for that mode.
pub proof fn mode_names_round_trip(mode: Mode)
    ensures
        Mode::named(mode.wire_name()) == Some(mode),
{
    reveal_strlit("netascii");
    reveal_strlit("octet");
}

proof fn last_text_is(pairs: TextPairs, kind: OptionKind, at: int)
    requires
        0 <= at < pairs.len(),
        OptionKind::named(pairs[at].0) == Some(kind),
        forall|i: int|
            at < i < pairs.len() ==> OptionKind::named(#[trigger] pairs[i].0) != Some(kind),
    ensures
        last_text(pairs, kind) == Some(pairs[at].1),
    decreases pairs.len(),
{
    if at < pairs.len() - 1 {
        assert(OptionKind::named(pairs.last().0) != Some(kind));
        let rest = pairs.drop_last();
        assert forall|i: int| at < i < rest.len() implies OptionKind::named(#[trigger] rest[i].0)
            != Some(kind) by {
            assert(rest[i] == pairs[i]);
        }
        last_text_is(rest, kind, at);
    }
}

proof fn options_read_within(items: Seq<OptionValue>, n: int)
    requires
        distinct_kinds(items),
        0 <= n <= items.len(),
    ensures
        options_named_within(pairs_of_options(items), n) == valid_part(items.take(n)),
    decreases n,
{
    let pairs = pairs_of_options(items);
    if n > 0 {
        options_read_within(items, n - 1);
        let option = items[n - 1];
        let kind = option.kind();
        assert forall|i: int| 0 <= i < items.len() implies OptionKind::named(#[trigger] pairs[i].0)
            == Some(items[i].kind()) by {
            option_names_round_trip(items[i].kind());
        }
        assert(!named_before(pairs, n - 1, kind));
        last_text_is(pairs, kind, n - 1);
        decimal_text_round_trips(option.number());
        assert(items.take(n).drop_last() =~= items.take(n - 1));
    }
}

/// Reading the pairs that stand for options, none of which occurs twice, gives
/// those with values that a receiver accepts, in their order.
pub proof fn only_invalid_options_are_lost(items: Seq<OptionValue>)
    requires
        distinct_kinds(items),
    ensures
        options_of_pairs(pairs_of_options(items)) == valid_part(items),
{
    options_read_within(items, items.len() as int);
    assert(items.take(items.len() as int) =~= items);
}

/// What is valid among options is valid, keeps them distinct, and is all of
/// them where all are valid.
pub proof fn valid_part_is_valid(items: Seq<OptionValue>)
    ensures
        all_valid(valid_part(items)),
        distinct_kinds(items) ==> distinct_kinds(valid_part(items)),
        all_valid(items) ==> valid_part(items) == items,
        valid_part(items).len() <= items.len(),
        forall|i: int|
            0 <= i < valid_part(items).len() ==> items.contains(#[trigger] valid_part(items)[i]),
    decreases items.len(),
{
    if items.len() > 0 {
        let front = items.drop_last();
        let part = valid_part(items);
        valid_part_is_valid(front);
        assert forall|i: int| 0 <= i < part.len() implies items.contains(#[trigger] part[i]) by {
            if i < valid_part(front).len() {
                assert(part[i] == valid_part(front)[i]);
                let at = front.index_of(part[i]);
                assert(items[at] == part[i]);
            } else {
                assert(items[items.len() - 1] == part[i]);
            }
        }
        if all_valid(items) {
            assert(items[items.len() - 1].valid());
            assert forall|i: int| 0 <= i < front.len() implies (#[trigger] front[i]).valid() by {
                assert(items[i].valid());
            }
            assert(part =~= items);
        }
        if distinct_kinds(items) {
            assert forall|i: int, j: int| 0 <= i < j < front.len() implies (
            #[trigger] front[i]).kind() != (#[trigger] front[j]).kind() by {
                assert(items[i].kind() != items[j].kind());
            }
            assert forall|i: int, j: int| 0 <= i < j < part.len() implies (
            #[trigger] part[i]).kind() != (#[trigger] part[j]).kind() by {
                assert(part[i] == valid_part(front)[i]);
                if j < valid_part(front).len() {
                    assert(part[j] == valid_part(front)[j]);
                } else {
                    let at = front.index_of(part[i]);
                    assert(front[at] == part[i]);
                    assert(items[at].kind() != items[items.len() - 1].kind());
                }
            }
        }
    } else {
        assert(valid_part(items) =~= items);
    }
}

/// Reading the pairs that stand for options gives the options again, in their
/// order, if none occurs twice and a receiver accepts all values.
pub proof fn options_round_trip(items: Seq<OptionValue>)
    requires
        distinct_kinds(items),
        all_valid(items),
    ensures
        options_of_pairs(pairs_of_options(items)) == items,
{
    only_invalid_options_are_lost(items);
    valid_part_is_valid(items);
}

/// The options that pairs mean are distinct, valid, and all of them named.
pub proof fn options_of_pairs_are_wf(pairs: TextPairs)
    ensures
        distinct_kinds(options_of_pairs(pairs)),
        all_valid(options_of_pairs(pairs)),
        forall|i: int|
            0 <= i < options_of_pairs(pairs).len() ==> named_before(
                pairs,
                pairs.len() as int,
                (#[trigger] options_of_pairs(pairs)[i]).kind(),
            ),
{
    options_of_pairs_are_distinct(pairs, pairs.len() as int);
}

proof fn last_text_exists(pairs: TextPairs, kind: OptionKind)
    ensures
        last_text(pairs, kind) is Some <==> named_before(pairs, pairs.len() as int, kind),
    decreases pairs.len(),
{
    if pairs.len() > 0 {
        let rest = pairs.drop_last();
        last_text_exists(rest, kind);
        if OptionKind::named(pairs.last().0) == Some(kind) {
            assert(OptionKind::named(pairs[pairs.len() - 1].0) == Some(kind));
        } else {
            if named_before(rest, rest.len() as int, kind) {
                let j = choose|j: int|
                    0 <= j < rest.len() && OptionKind::named(#[trigger] rest[j].0) == Some(kind);
                assert(OptionKind::named(pairs[j].0) == Some(kind));
            }
            if named_before(pairs, pairs.len() as int, kind) {
                let j = choose|j: int|
                    0 <= j < pairs.len() && OptionKind::named(#[trigger] pairs[j].0) == Some(kind);
                assert(OptionKind::named(rest[j].0) == Some(kind));
            }
        }
    }
}

proof fn lookup_within(pairs: TextPairs, n: int, kind: OptionKind)
    requires
        0 <= n <= pairs.len(),
    ensures
        lookup(options_named_within(pairs, n), kind) == if named_before(pairs, n, kind) {
            OptionValue::of_text(kind, last_text(pairs, kind).unwrap())
        } else {
            None
        },
    decreases n,
{
    let now = options_named_within(pairs, n);
    options_of_pairs_are_distinct(pairs, n);
    if n > 0 {
        let before = options_named_within(pairs, n - 1);
        options_of_pairs_are_distinct(pairs, n - 1);
        lookup_within(pairs, n - 1, kind);
        position_of_is_first(before, kind);
        position_of_is_first(now, kind);
        if named_before(pairs, n - 1, kind) {
            let j = choose|j: int|
                0 <= j < n - 1 && OptionKind::named(#[trigger] pairs[j].0) == Some(kind);
            assert(OptionKind::named(pairs[j].0) == Some(kind));
        }
        if named_before(pairs, n, kind) && !named_before(pairs, n - 1, kind) {
            assert(OptionKind::named(pairs[n - 1].0) == Some(kind));
        }
        if OptionKind::named(pairs[n - 1].0) == Some(kind) {
            assert(named_before(pairs, n, kind));
        }
        assert forall|i: int| 0 <= i < before.len() implies #[trigger] now[i] == before[i] by {}
        if position_of(before, kind) < before.len() {
            position_of_is(now, kind, position_of(before, kind));
        } else if now.len() > before.len() && now[before.len() as int].kind() == kind {
            position_of_is(now, kind, before.len() as int);
        } else {
            position_of_is(now, kind, now.len() as int);
        }
    } else {
        position_of_is_first(now, kind);
    }
}

/// What pairs say of an option is what the last pair that names it says; a
/// bad value there drops the option, and so does no pair naming it.
pub proof fn last_value_wins(pairs: TextPairs, kind: OptionKind)
    ensures
        lookup(options_of_pairs(pairs), kind) == match last_text(pairs, kind) {
            Some(text) => OptionValue::of_text(kind, text),
            None => None,
        },
{
    lookup_within(pairs, pairs.len() as int, kind);
    last_text_exists(pairs, kind);
}

/// A pair whose name is unknown changes nothing, wherever it stands.
pub proof fn unknown_options_are_dropped(
    pairs: TextPairs,
    at: int,
    name: Seq<char>,
    value: Seq<char>,
)
    requires
        0 <= at <= pairs.len(),
        OptionKind::named(name) is None,
    ensures
        options_of_pairs(pairs.insert(at, (name, value))) == options_of_pairs(pairs),
{
    let more = pairs.insert(at, (name, value));
    assert forall|kind: OptionKind| #[trigger] last_text(more, kind) == last_text(pairs, kind) by {
        unknown_keeps_last_text(pairs, at, name, value, kind);
    }
    unknown_dropped_within(pairs, at, name, value, more.len() as int);
}

proof fn unknown_keeps_last_text(
    pairs: TextPairs,
    at: int,
    name: Seq<char>,
    value: Seq<char>,
    kind: OptionKind,
)
    requires
        0 <= at <= pairs.len(),
        OptionKind::named(name) is None,
    ensures
        last_text(pairs.insert(at, (name, value)), kind) == last_text(pairs, kind),
    decreases pairs.len(),
{
    let more = pairs.insert(at, (name, value));
    if at == pairs.len() {
        assert(more.drop_last() =~= pairs);
    } else {
        assert(more.drop_last() =~= pairs.drop_last().insert(at, (name, value)));
        unknown_keeps_last_text(pairs.drop_last(), at, name, value, kind);
    }
}

proof fn unknown_dropped_within(
    pairs: TextPairs,
    at: int,
    name: Seq<char>,
    value: Seq<char>,
    n: int,
)
    requires
        0 <= at <= pairs.len(),
        OptionKind::named(name) is None,
        0 <= n <= pairs.len() + 1,
        forall|kind: OptionKind|
            #[trigger] last_text(pairs.insert(at, (name, value)), kind) == last_text(pairs, kind),
    ensures
        options_named_within(pairs.insert(at, (name, value)), n) == options_named_within(
            pairs,
            if n <= at {
                n
            } else {
                n - 1
            },
        ),
    decreases n,
{
    let more = pairs.insert(at, (name, value));
    if n > 0 {
        unknown_dropped_within(pairs, at, name, value, n - 1);
        let old_n = if n - 1 <= at {
            n - 1
        } else {
            n - 2
        };
        assert forall|kind: OptionKind| #[trigger] named_before(more, n - 1, kind)
            == named_before(pairs, old_n, kind) by {
            if named_before(more, n - 1, kind) {
                let j = choose|j: int|
                    0 <= j < n - 1 && OptionKind::named(#[trigger] more[j].0) == Some(kind);
                let i = if j < at {
                    j
                } else {
                    j - 1
                };
                assert(pairs[i] == more[j]);
                assert(OptionKind::named(pairs[i].0) == Some(kind));
            }
            if named_before(pairs, old_n, kind) {
                let i = choose|i: int|
                    0 <= i < old_n && OptionKind::named(#[trigger] pairs[i].0) == Some(kind);
                let j = if i < at {
                    i
                } else {
                    i + 1
                };
                assert(pairs[i] == more[j]);
                assert(OptionKind::named(more[j].0) == Some(kind));
            }
        }
    }
}

/// The names of the modes: "netascii" and "octet", in whatever case; "binary"
/// is another name of octet, and no other name is known.
pub proof fn modes_are_named(mode: Mode, name: Seq<char>)
    ensures
        mode is NetAscii ==> mode.wire_name() == "netascii"@,
        mode is Octet ==> mode.wire_name() == "octet"@,
        same_ignoring_case(name, "netascii"@) ==> Mode::named(name) == Some(Mode::NetAscii),
        same_ignoring_case(name, "octet"@) ==> Mode::named(name) == Some(Mode::Octet),
        same_ignoring_case(name, "binary"@) ==> Mode::named(name) == Some(Mode::Octet),
        Mode::named(name) is Some ==> same_ignoring_case(name, "netascii"@) || same_ignoring_case(
            name,
            "octet"@,
        ) || same_ignoring_case(name, "binary"@),
{
    reveal_strlit("netascii");
    reveal_strlit("octet");
    reveal_strlit("binary");
    if same_ignoring_case(name, "netascii"@) {
        assert(name.len() == 8);
    }
}

/// A pair of texts says a value just when its name is one of the four known,
/// in whatever case, and its value a decimal number that the option may hold:
/// 8 to 65464 for "blksize", 1 to 255 for "timeout", any 64-bit number for
/// "tsize", 1 to 65535 for "windowsize".
pub proof fn pairs_say_values(name: Seq<char>, value: Seq<char>, n: nat)
    requires
        n <= u64::MAX,
    ensures
        OptionValue::of_pair(name, value) == Some(OptionValue::BlockSize(n as u16)) && n <= u16::MAX
            <==> same_ignoring_case(name, "blksize"@) && decimal_value(value) == Some(n) && 8 <= n
            <= 65464,
        OptionValue::of_pair(name, value) == Some(OptionValue::Timeout(n as u8)) && n <= u8::MAX
            <==> same_ignoring_case(name, "timeout"@) && decimal_value(value) == Some(n) && 1 <= n
            <= 255,
        OptionValue::of_pair(name, value) == Some(OptionValue::TransferSize(n as u64))
            <==> same_ignoring_case(name, "tsize"@) && decimal_value(value) == Some(n),
        OptionValue::of_pair(name, value) == Some(OptionValue::WindowSize(n as u16)) && n
            <= u16::MAX <==> same_ignoring_case(name, "windowsize"@) && decimal_value(value)
            == Some(n) && 1 <= n <= 65535,
{
    reveal_strlit("blksize");
    reveal_strlit("timeout");
    reveal_strlit("tsize");
    reveal_strlit("windowsize");
    if same_ignoring_case(name, "blksize"@) && same_ignoring_case(name, "timeout"@) {
        assert(ascii_lower(name[0]) == 'b');
        assert(ascii_lower(name[0]) == 't');
    }
}

/// Which option a name stands for, and by which name an option goes out.
pub proof fn options_are_named(kind: OptionKind, name: Seq<char>)
    ensures
        kind is BlockSize ==> kind.wire_name() == "blksize"@,
        kind is Timeout ==> kind.wire_name() == "timeout"@,
        kind is TransferSize ==> kind.wire_name() == "tsize"@,
        kind is WindowSize ==> kind.wire_name() == "windowsize"@,
        OptionKind::named(name) == Some(kind) <==> same_ignoring_case(name, kind.wire_name()),
{
    reveal_strlit("blksize");
    reveal_strlit("timeout");
    reveal_strlit("tsize");
    reveal_strlit("windowsize");
    if same_ignoring_case(name, "blksize"@) && same_ignoring_case(name, "timeout"@) {
        assert(ascii_lower(name[0]) == 'b');
        assert(ascii_lower(name[0]) == 't');
    }
}

/// What a value is of, which number it holds, and whether a receiver accepts
/// it.
pub proof fn values_hold_numbers(b: u16, t: u8, s: u64, w: u16)
    ensures
        OptionValue::BlockSize(b).kind() == OptionKind::BlockSize,
        OptionValue::Timeout(t).kind() == OptionKind::Timeout,
        OptionValue::TransferSize(s).kind() == OptionKind::TransferSize,
        OptionValue::WindowSize(w).kind() == OptionKind::WindowSize,
        OptionValue::BlockSize(b).number() == b,
        OptionValue::Timeout(t).number() == t,
        OptionValue::TransferSize(s).number() == s,
        OptionValue::WindowSize(w).number() == w,
        OptionValue::BlockSize(b).valid() <==> 8 <= b <= 65464,
        OptionValue::Timeout(t).valid() <==> t > 0,
        OptionValue::TransferSize(s).valid(),
        OptionValue::WindowSize(w).valid() <==> w > 0,
{
}

/// An option goes out as its name and the decimal notation of its number, one
/// pair for each, in their order.
pub proof fn options_go_out_as_pairs(items: Seq<OptionValue>)
    ensures
        pairs_of_options(items).len() == items.len(),
        forall|i: int|
            0 <= i < items.len() ==> #[trigger] pairs_of_options(items)[i] == match items[i] {
                OptionValue::BlockSize(v) => ("blksize"@, decimal_text(v as nat)),
                OptionValue::Timeout(v) => ("timeout"@, decimal_text(v as nat)),
                OptionValue::TransferSize(v) => ("tsize"@, decimal_text(v as nat)),
                OptionValue::WindowSize(v) => ("windowsize"@, decimal_text(v as nat)),
            },
{
}

/// The value of an option among several is the first of its kind, which
/// stands at `at`; with none, where `at` is the length, it has no value.
pub proof fn the_first_value_counts(items: Seq<OptionValue>, at: int)
    requires
        0 <= at <= items.len(),
    ensures
        (at < items.len() ==> items[at] is BlockSize) && (forall|i: int|
            0 <= i < at ==> !(#[trigger] items[i] is BlockSize)) ==> block_size_in(items) == (if at
            < items.len() {
            Some(items[at]->BlockSize_0)
        } else {
            None
        }),
        (at < items.len() ==> items[at] is Timeout) && (forall|i: int|
            0 <= i < at ==> !(#[trigger] items[i] is Timeout)) ==> timeout_in(items) == (if at
            < items.len() {
            Some(items[at]->Timeout_0)
        } else {
            None
        }),
        (at < items.len() ==> items[at] is TransferSize) && (forall|i: int|
            0 <= i < at ==> !(#[trigger] items[i] is TransferSize)) ==> transfer_size_in(items) == (
        if at < items.len() {
            Some(items[at]->TransferSize_0)
        } else {
            None
        }),
        (at < items.len() ==> items[at] is WindowSize) && (forall|i: int|
            0 <= i < at ==> !(#[trigger] items[i] is WindowSize)) ==> window_size_in(items) == (
        if at < items.len() {
            Some(items[at]->WindowSize_0)
        } else {
            None
        }),
{
    position_of_is_first(items, OptionKind::BlockSize);
    position_of_is_first(items, OptionKind::Timeout);
    position_of_is_first(items, OptionKind::TransferSize);
    position_of_is_first(items, OptionKind::WindowSize);
}

/// Inserting a value replaces the first of its kind, which stands at `at`, in
/// its place; with none, where `at` is the length, it goes to the end.
pub proof fn insert_keeps_the_order(items: Seq<OptionValue>, value: OptionValue, at: int)
    requires
        0 <= at <= items.len(),
        at < items.len() ==> items[at].kind() == value.kind(),
        forall|i: int| 0 <= i < at ==> (#[trigger] items[i]).kind() != value.kind(),
    ensures
        at < items.len() ==> inserted(items, value) == items.take(at) + seq![value] + items.skip(
            at + 1,
        ),
        at == items.len() ==> inserted(items, value) == items.push(value),
{
    position_of_is(items, value.kind(), at);
    if at < items.len() {
        assert(items.update(at, value) =~= items.take(at) + seq![value] + items.skip(at + 1));
    }
}

/// What pairs say of an option is what the last pair says that names it,
/// which stands at `at`; with none, where `at` is negative, nothing is said.
pub proof fn the_last_pair_counts(pairs: TextPairs, kind: OptionKind, at: int)
    requires
        -1 <= at < pairs.len(),
        at >= 0 ==> same_ignoring_case(pairs[at].0, kind.wire_name()),
        forall|i: int|
            at < i < pairs.len() ==> !same_ignoring_case(
                #[trigger] pairs[i].0,
                kind.wire_name(),
            ),
    ensures
        lookup(options_of_pairs(pairs), kind) == (if at >= 0 {
            OptionValue::of_pair(pairs[at].0, pairs[at].1)
        } else {
            None
        }),
{
    last_value_wins(pairs, kind);
    assert forall|i: int| at < i < pairs.len() implies OptionKind::named(#[trigger] pairs[i].0)
        != Some(kind) by {
        options_are_named(kind, pairs[i].0);
    }
    if at >= 0 {
        options_are_named(kind, pairs[at].0);
        last_text_is(pairs, kind, at);
    } else {
        last_text_exists(pairs, kind);
    }
}

/// Options that pairs say keep the order in which they are first named: the
/// option at `a` is named before any pair that names the one behind it at `b`.
pub proof fn options_keep_the_order_of_their_names(pairs: TextPairs, a: int, b: int, y: int)
    requires
        0 <= a < b < options_of_pairs(pairs).len(),
        0 <= y < pairs.len(),
        OptionKind::named(pairs[y].0) == Some(options_of_pairs(pairs)[b].kind()),
    ensures
        exists|x: int|
            0 <= x < y && OptionKind::named(#[trigger] pairs[x].0) == Some(
                options_of_pairs(pairs)[a].kind(),
            ),
{
    order_within(pairs, pairs.len() as int, a, b, y);
}

proof fn order_within(pairs: TextPairs, n: int, a: int, b: int, y: int)
    requires
        0 <= n <= pairs.len(),
        0 <= a < b < options_named_within(pairs, n).len(),
        0 <= y < pairs.len(),
        OptionKind::named(pairs[y].0) == Some(options_named_within(pairs, n)[b].kind()),
    ensures
        named_before(pairs, y, options_named_within(pairs, n)[a].kind()),
    decreases n,
{
    let now = options_named_within(pairs, n);
    let before = options_named_within(pairs, n - 1);
    options_of_pairs_are_distinct(pairs, n - 1);
    if b < before.len() {
        order_within(pairs, n - 1, a, b, y);
    } else {
        assert(now[a] == before[a]);
        let kind = now[b].kind();
        if y < n - 1 {
            assert(named_before(pairs, n - 1, kind));
        }
        let x = choose|x: int|
            0 <= x < n - 1 && OptionKind::named(#[trigger] pairs[x].0) == Some(now[a].kind());
        assert(0 <= x < y && OptionKind::named(pairs[x].0) == Some(now[a].kind()));
    }
}

/// The texts of pairs are those of each pair, in their order.
pub proof fn texts_of_pairs_are_seen_whole(pairs: Seq<(String, String)>)
    ensures
        pair_texts(pairs).len() == pairs.len(),
        forall|i: int|
            0 <= i < pairs.len() ==> #[trigger] pair_texts(pairs)[i] == (pairs[i].0@, pairs[i].1@),
{
}

/// What is valid among options is every valid one of them, in their order:
/// one more value at the end is kept just when it is valid.
pub proof fn valid_values_stay(items: Seq<OptionValue>, value: OptionValue)
    ensures
        valid_part(Seq::empty()) == Seq::<OptionValue>::empty(),
        value.valid() ==> valid_part(items.push(value)) == valid_part(items).push(value),
        !value.valid() ==> valid_part(items.push(value)) == valid_part(items),
{
    assert(items.push(value).drop_last() =~= items);
}

} // verus!
