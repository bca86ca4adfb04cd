//! The data model: player identities, the count records of the four kinds,
//! and the aggregate of all known players.

use crate::error::ValidationError;
use crate::ordered_map::{
    entry_or_insert, get_index, has_key, len, map_entries, with_capacity, Entry, PlayerMap,
};
use prost::bytes::Buf;
use std::str::Utf8Error;
use vstd::prelude::*;
use vstd::string::*;
use vstd::utf8::*;

verus! {

/// Why a text is no player identity, `None` where it is one: 36 characters,
/// all of them ASCII. The encoding is looked at first.
pub open spec fn validation_failure(raw: Seq<char>) -> Option<ValidationError> {
    if !is_ascii_chars(raw) {
        Some(ValidationError::InvalidEncoding)
    } else if raw.len() != 36 {
        Some(ValidationError::InvalidLength)
    } else {
        None
    }
}

/// The text that bytes spell when each byte is read as one character.
pub(crate) open spec fn text_of(bytes: Seq<u8>) -> Seq<char> {
    Seq::new(bytes.len(), |i: int| bytes[i] as char)
}

/// Whether every byte of a key is ASCII.
pub(crate) open spec fn ascii_key(key: [u8; 36]) -> bool {
    forall|i: int| 0 <= i < 36 ==> key@[i] < 128
}

/// `std::str::Utf8Error`, carried through unread.
#[verifier::external_type_specification]
#[verifier::external_body]
pub struct ExUtf8Error(Utf8Error);

/// `std::str::from_utf8`. Taken on trust: the call succeeds exactly when the
/// bytes are valid UTF-8, and the string slice it then returns is made of the
/// bytes given.
#[verifier::external_body]
fn str_from_utf8(bytes: &[u8]) -> (r: Result<&str, Utf8Error>)
    ensures
        valid_utf8(bytes@) ==> r is Ok && r->Ok_0.spec_bytes() == bytes@,
        !valid_utf8(bytes@) ==> r is Err,
{
    std::str::from_utf8(bytes)
}

/// `prost::bytes::Buf::copy_to_slice`, called on a byte slice. Taken on
/// trust: the destination is filled with the first bytes of the source, as
/// many as the destination holds. The outside function panics where the
/// source is shorter than the destination.
#[verifier::external_body]
fn copy_to_slice(src: &[u8], dst: &mut [u8; 36])
    requires
        src@.len() >= 36,
    ensures
        final(dst)@ == src@.subrange(0, 36),
{
    let mut source = src;
    source.copy_to_slice(dst.as_mut_slice());
}

/// A validated player identity: 36 ASCII characters, kept as bytes.
#[derive(Debug, Clone, Copy, PartialEq, Eq, Hash)]
pub struct PlayerUuidString([u8; 36]);

impl View for PlayerUuidString {
    type V = Seq<char>;

    /// The identity's text.
    closed spec fn view(&self) -> Seq<char> {
        text_of(self.0@)
    }
}

impl PlayerUuidString {
    #[verifier::type_invariant]
    spec fn holds_ascii(self) -> bool {
        ascii_key(self.0)
    }

    /// The identity as a string slice. An identity always has one: the error
    /// is never returned.
    pub fn as_str(&self) -> (r: Result<&str, ValidationError>)
        ensures
            r matches Ok(text) && text@ == self@,
            self@.len() == 36,
            is_ascii_chars(self@),
    {
        proof {
            use_type_invariant(self);
            is_ascii_chars_encode_utf8(self@);
            assert(encode_utf8(self@) =~= self.0@);
            encode_utf8_valid_utf8(self@);
        }
        match str_from_utf8(self.0.as_slice()) {
            Ok(text) => {
                proof {
                    encode_utf8_decode_utf8(text@);
                    encode_utf8_decode_utf8(self@);
                }
                Ok(text)
            },
            Err(_) => Err(ValidationError::InvalidEncoding),
        }
    }

    /// Validates a raw string as a player identity: the text is checked for
    /// its encoding first, then for its length.
    pub fn from_string(str: &String) -> (r: Result<Self, ValidationError>)
        ensures
            match validation_failure(str@) {
                Some(e) => r == Err::<Self, _>(e),
                None => r is Ok && r->Ok_0@ == str@,
            },
    {
        let text = str.as_str();
        if !text.is_ascii() {
            Err(ValidationError::InvalidEncoding)
        } else {
            proof {
                is_ascii_spec_bytes(text);
            }
            let bytes = text.as_bytes();
            if bytes.len() != 36 {
                Err(ValidationError::InvalidLength)
            } else {
                let mut result: [u8; 36] = [0;36];
                copy_to_slice(bytes, &mut result);
                assert(text_of(result@) =~= str@) by {
                    assert forall|i: int| 0 <= i < 36 implies text_of(result@)[i] == str@[i] by {
                        assert(result@[i] == str@[i] as u8);
                    }
                }
                Ok(PlayerUuidString(result))
            }
        }
    }

    /// The identity's bytes, by which the aggregate is keyed.
    pub(crate) fn key(&self) -> (key: [u8; 36])
        ensures
            text_of(key@) == self@,
            ascii_key(key),
    {
        proof {
            use_type_invariant(self);
        }
        self.0
    }

    /// The identity that a key of the aggregate stands for.
    pub(crate) fn from_key(key: [u8; 36]) -> (id: Self)
        requires
            ascii_key(key),
        ensures
            id@ == text_of(key@),
    {
        PlayerUuidString(key)
    }
}

/// Two keys that spell the same text are the same key.
proof fn lemma_text_of_key_injective(a: [u8; 36], b: [u8; 36])
    requires
        text_of(a@) == text_of(b@),
    ensures
        a == b,
{
    assert forall|i: int| 0 <= i < 36 implies a@[i] == b@[i] by {
        assert(text_of(a@)[i] == a@[i] as char);
        assert(text_of(b@)[i] == b@[i] as char);
    }
    assert(a@ =~= b@);
}

/// A player, known by identity alone.
#[derive(Debug, Clone, Copy, PartialEq, Eq, Hash)]
pub struct Player {
    pub uuid: PlayerUuidString,
}

/// The blocks that a player broke.
#[derive(Debug, Clone, Copy)]
pub struct PlayerBreakCount {
    pub player: Player,
    pub break_count: u64,
}

/// The blocks that a player placed.
#[derive(Debug, Clone, Copy)]
pub struct PlayerBuildCount {
    pub player: Player,
    pub build_count: u64,
}

/// The ticks that a player spent in play.
#[derive(Debug, Clone, Copy)]
pub struct PlayerPlayTicks {
    pub player: Player,
    pub play_ticks: u64,
}

/// The votes that a player cast.
#[derive(Debug, Clone, Copy)]
pub struct PlayerVoteCount {
    pub player: Player,
    pub vote_count: u64,
}

/// The four kinds of count, in the order in which they are merged and
/// rendered.
#[derive(Debug, Clone, Copy, PartialEq, Eq, Structural)]
pub enum CountKind {
    BreakCount,
    BuildCount,
    PlayTicks,
    VoteCount,
}

/// The four counts kept for one player. A count that no source reported is 0.
#[derive(Debug, Clone, Copy, PartialEq, Eq, Structural)]
pub struct AggregatedPlayerData {
    pub break_count: u64,
    pub build_count: u64,
    pub play_ticks: u64,
    pub vote_count: u64,
}

impl AggregatedPlayerData {
    /// The aggregate of a player of whom nothing was reported.
    pub open spec fn zero() -> Self {
        AggregatedPlayerData { break_count: 0, build_count: 0, play_ticks: 0, vote_count: 0 }
    }

    /// The count of one kind.
    pub open spec fn count(self, kind: CountKind) -> u64 {
        match kind {
            CountKind::BreakCount => self.break_count,
            CountKind::BuildCount => self.build_count,
            CountKind::PlayTicks => self.play_ticks,
            CountKind::VoteCount => self.vote_count,
        }
    }

    /// The aggregate with the count of one kind replaced and the other three
    /// kept.
    pub open spec fn with_count(self, kind: CountKind, value: u64) -> Self {
        match kind {
            CountKind::BreakCount => AggregatedPlayerData { break_count: value, ..self },
            CountKind::BuildCount => AggregatedPlayerData { build_count: value, ..self },
            CountKind::PlayTicks => AggregatedPlayerData { play_ticks: value, ..self },
            CountKind::VoteCount => AggregatedPlayerData { vote_count: value, ..self },
        }
    }
}

impl Default for AggregatedPlayerData {
    fn default() -> (r: Self)
        ensures
            r == Self::zero(),
    {
        AggregatedPlayerData { break_count: 0, build_count: 0, play_ticks: 0, vote_count: 0 }
    }
}

/// One row of the aggregate: an identity's text and the player's counts.
pub type Row = (Seq<char>, AggregatedPlayerData);

/// Whether some row is that of the identity.
pub open spec fn has_row(rows: Seq<Row>, id: Seq<char>) -> bool {
    exists|i: int| 0 <= i < rows.len() && (#[trigger] rows[i]).0 == id
}

/// No identity has two rows.
pub open spec fn distinct_ids(rows: Seq<Row>) -> bool {
    forall|i: int, j: int|
        0 <= i < j < rows.len() ==> (#[trigger] rows[i]).0 != (#[trigger] rows[j]).0
}

/// The rows after one count was recorded: the identity's row has the count of
/// that kind replaced and stays in its place; an identity without a row gets
/// one behind the others, with the other three counts 0.
pub open spec fn record_count(rows: Seq<Row>, id: Seq<char>, kind: CountKind, value: u64) -> Seq<
    Row,
> {
    if has_row(rows, id) {
        Seq::new(
            rows.len(),
            |i: int|
                if rows[i].0 == id {
                    (id, rows[i].1.with_count(kind, value))
                } else {
                    rows[i]
                },
        )
    } else {
        rows.push((id, AggregatedPlayerData::zero().with_count(kind, value)))
    }
}

/// The rows that the entries of the map stand for.
pub(crate) open spec fn rows_of(entries: Seq<Entry>) -> Seq<Row> {
    Seq::new(entries.len(), |i: int| (text_of(entries[i].0@), entries[i].1))
}

/// What is kept true of the map: every key is ASCII and no key occurs twice.
pub(crate) open spec fn well_formed(entries: Seq<Entry>) -> bool {
    &&& forall|i: int| 0 <= i < entries.len() ==> ascii_key(#[trigger] entries[i].0)
    &&& forall|i: int, j: int|
        0 <= i < j < entries.len() ==> (#[trigger] entries[i]).0 != (#[trigger] entries[j]).0
}

/// The largest number of players for which storage is set aside ahead of
/// time.
pub const MAX_PRESIZED_ENTRIES: usize = usize::MAX / 256;

/// The aggregates of all known players, in the order in which the players
/// were first seen.
#[derive(Debug)]
pub struct KnownAggregatedPlayerData(PlayerMap);

impl View for KnownAggregatedPlayerData {
    type V = Seq<Row>;

    /// The rows, first seen first.
    closed spec fn view(&self) -> Seq<Row> {
        rows_of(map_entries(self.0))
    }
}

impl KnownAggregatedPlayerData {
    #[verifier::type_invariant]
    spec fn keeps_map_well_formed(self) -> bool {
        well_formed(map_entries(self.0))
    }

    /// An empty aggregate with storage for `n` players set aside, or for
    /// `MAX_PRESIZED_ENTRIES` where `n` is more. The number is a hint: the
    /// aggregate grows past it.
    pub fn with_capacity(n: usize) -> (data: Self)
        ensures
            data@ == Seq::<Row>::empty(),
    {
        let hint = if n <= MAX_PRESIZED_ENTRIES {
            n
        } else {
            MAX_PRESIZED_ENTRIES
        };
        KnownAggregatedPlayerData(with_capacity(hint))
    }

    /// The number of players. No player is counted twice.
    pub fn len(&self) -> (n: usize)
        ensures
            n == self@.len(),
            distinct_ids(self@),
    {
        proof {
            use_type_invariant(self);
            lemma_rows_distinct(map_entries(self.0));
        }
        len(&self.0)
    }

    /// The player and the counts at a position, `None` past the end.
    pub fn get_index(&self, index: usize) -> (r: Option<(Player, AggregatedPlayerData)>)
        ensures
            index < self@.len() ==> r is Some && r->Some_0.0.uuid@ == self@[index as int].0
                && r->Some_0.1 == self@[index as int].1,
            index >= self@.len() ==> r is None,
    {
        proof {
            use_type_invariant(self);
        }
        match get_index(&self.0, index) {
            Some((key, data)) => Some((Player { uuid: PlayerUuidString::from_key(*key) }, *data)),
            None => None,
        }
    }

    /// Records one count of a player: the step of the merge.
    pub fn record(self, player: &Player, kind: CountKind, value: u64) -> (data: Self)
        ensures
            data@ == record_count(self@, player.uuid@, kind, value),
    {
        proof {
            use_type_invariant(&self);
        }
        let key = player.uuid.key();
        let mut map = self.0;
        let ghost before = map_entries(map);
        let slot = entry_or_insert(&mut map, key, AggregatedPlayerData::default());
        match kind {
            CountKind::BreakCount => {
                slot.break_count = value;
            },
            CountKind::BuildCount => {
                slot.build_count = value;
            },
            CountKind::PlayTicks => {
                slot.play_ticks = value;
            },
            CountKind::VoteCount => {
                slot.vote_count = value;
            },
        }
        proof {
            lemma_record_step(before, map_entries(map), key, kind, value);
        }
        KnownAggregatedPlayerData(map)
    }
}

impl Default for KnownAggregatedPlayerData {
    fn default() -> (data: Self)
        ensures
            data@ == Seq::<Row>::empty(),
    {
        KnownAggregatedPlayerData::with_capacity(0)
    }
}

/// Entries with distinct keys stand for rows with distinct identities.
proof fn lemma_rows_distinct(entries: Seq<Entry>)
    requires
        well_formed(entries),
    ensures
        distinct_ids(rows_of(entries)),
{
    let rows = rows_of(entries);
    assert forall|i: int, j: int| 0 <= i < j < rows.len() implies (#[trigger] rows[i]).0 != (
    #[trigger] rows[j]).0 by {
        if rows[i].0 == rows[j].0 {
            lemma_text_of_key_injective(entries[i].0, entries[j].0);
        }
    }
}

/// What the map's entry slot for a key, followed by a write of one count to
/// it, does to the rows.
proof fn lemma_record_step(
    before: Seq<Entry>,
    after: Seq<Entry>,
    key: [u8; 36],
    kind: CountKind,
    value: u64,
)
    requires
        well_formed(before),
        ascii_key(key),
        has_key(before, key) ==> exists|at: int|
            0 <= at < before.len() && (#[trigger] before[at]).0 == key && after == before.update(
                at,
                (key, before[at].1.with_count(kind, value)),
            ),
        !has_key(before, key) ==> after == before.push(
            (key, AggregatedPlayerData::zero().with_count(kind, value)),
        ),
    ensures
        well_formed(after),
        rows_of(after) == record_count(rows_of(before), text_of(key@), kind, value),
{
    let id = text_of(key@);
    let rows = rows_of(before);
    if has_key(before, key) {
        let at = choose|at: int|
            0 <= at < before.len() && (#[trigger] before[at]).0 == key && after == before.update(
                at,
                (key, before[at].1.with_count(kind, value)),
            );
        assert(rows[at].0 == id);
        assert forall|i: int| 0 <= i < rows.len() implies #[trigger] rows_of(after)[i]
            == record_count(rows, id, kind, value)[i] by {
            if rows[i].0 == id {
                lemma_text_of_key_injective(before[i].0, key);
            }
        }
        assert(rows_of(after) =~= record_count(rows, id, kind, value));
    } else {
        if has_row(rows, id) {
            let i = choose|i: int| 0 <= i < rows.len() && (#[trigger] rows[i]).0 == id;
            lemma_text_of_key_injective(before[i].0, key);
        }
        assert(rows_of(after) =~= record_count(rows, id, kind, value));
    }
}

} // verus!
