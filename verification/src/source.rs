//! The records as the data source hands them out, and their conversion to
//! records of validated players.

use crate::domain::{
    validation_failure, Player, PlayerBreakCount, PlayerBuildCount, PlayerPlayTicks,
    PlayerUuidString, PlayerVoteCount,
};
use crate::error::{AggregationError, SourceError};
use vstd::prelude::*;

verus! {

/// A player as the source names one: by a raw identity string.
#[derive(Debug)]
pub struct RawPlayer {
    pub uuid: String,
}

/// A break count of the source. The source may leave the player out.
#[derive(Debug)]
pub struct RawPlayerBreakCount {
    pub player: Option<RawPlayer>,
    pub break_count: u64,
}

/// A build count of the source.
#[derive(Debug)]
pub struct RawPlayerBuildCount {
    pub player: Option<RawPlayer>,
    pub build_count: u64,
}

/// A play-ticks count of the source.
#[derive(Debug)]
pub struct RawPlayerPlayTicks {
    pub player: Option<RawPlayer>,
    pub play_ticks: u64,
}

/// A vote count of the source.
#[derive(Debug)]
pub struct RawPlayerVoteCount {
    pub player: Option<RawPlayer>,
    pub vote_count: u64,
}

/// Why the player reference of a record cannot be used, `None` where it can:
/// it is missing, or its identity string is not valid.
pub open spec fn player_failure(player: Option<RawPlayer>) -> Option<AggregationError> {
    match player {
        None => Some(AggregationError::Source(SourceError::MissingPlayerReference)),
        Some(p) => match validation_failure(p.uuid@) {
            Some(e) => Some(AggregationError::Validation(e)),
            None => None,
        },
    }
}

/// Whether a conversion ended as the player reference demands: with its
/// failure, or with the player of that identity.
pub open spec fn converts_to(
    player: Option<RawPlayer>,
    outcome: Result<Player, AggregationError>,
) -> bool {
    match player_failure(player) {
        Some(e) => outcome is Err && outcome->Err_0 == e,
        None => outcome is Ok && outcome->Ok_0.uuid@ == player->Some_0.uuid@,
    }
}

/// The player that a raw player names.
pub fn into_domain_player(p: &RawPlayer) -> (r: Result<Player, AggregationError>)
    ensures
        converts_to(Some(*p), r),
{
    match PlayerUuidString::from_string(&p.uuid) {
        Ok(uuid) => Ok(Player { uuid }),
        Err(e) => Err(AggregationError::Validation(e)),
    }
}

/// The player of a record, which has to be there.
pub fn extract_domain_player(player: Option<RawPlayer>) -> (r: Result<Player, AggregationError>)
    ensures
        converts_to(player, r),
{
    match player {
        None => Err(AggregationError::Source(SourceError::MissingPlayerReference)),
        Some(p) => into_domain_player(&p),
    }
}

/// The failure that the conversion of a sequence of records ends with: that
/// of the first player reference that cannot be used. `None` where all can.
pub open spec fn conversion_failure(players: Seq<Option<RawPlayer>>) -> Option<AggregationError>
    decreases players.len(),
{
    if players.len() == 0 {
        None
    } else {
        match conversion_failure(players.drop_last()) {
            Some(e) => Some(e),
            None => player_failure(players.last()),
        }
    }
}

/// A failure among the first records is the failure of the whole sequence.
pub proof fn lemma_failure_stays(players: Seq<Option<RawPlayer>>, n: int)
    requires
        0 <= n <= players.len(),
        conversion_failure(players.take(n)) is Some,
    ensures
        conversion_failure(players) == conversion_failure(players.take(n)),
    decreases players.len() - n,
{
    if n < players.len() {
        assert(players.take(n + 1).drop_last() =~= players.take(n));
        lemma_failure_stays(players, n + 1);
    } else {
        assert(players.take(n) =~= players);
    }
}

/// The conversion fails with the failure of the first record whose player
/// reference cannot be used, and succeeds where there is no such record.
pub proof fn law_first_failure_is_reported(players: Seq<Option<RawPlayer>>)
    ensures
        conversion_failure(players) is None <==> forall|k: int|
            0 <= k < players.len() ==> player_failure(#[trigger] players[k]) is None,
        forall|i: int|
            0 <= i < players.len() && player_failure(#[trigger] players[i]) is Some && (forall|
                k: int,
            |
                0 <= k < i ==> player_failure(#[trigger] players[k]) is None)
                ==> conversion_failure(players) == player_failure(players[i]),
    decreases players.len(),
{
    if players.len() > 0 {
        let earlier = players.drop_last();
        law_first_failure_is_reported(earlier);
        assert forall|k: int| 0 <= k < earlier.len() implies earlier[k] == players[k] by {}
        if conversion_failure(earlier) is None {
            assert forall|k: int| 0 <= k < earlier.len() implies player_failure(
                #[trigger] players[k],
            ) is None by {
                assert(player_failure(earlier[k]) is None);
            }
        } else {
            let k = choose|k: int|
                0 <= k < earlier.len() && !(player_failure(#[trigger] earlier[k]) is None);
            assert(player_failure(players[k]) is Some);
        }
        assert forall|i: int|
            0 <= i < players.len() && player_failure(#[trigger] players[i]) is Some && (forall|
                k: int,
            |
                0 <= k < i ==> player_failure(#[trigger] players[k]) is None)
                implies conversion_failure(players) == player_failure(players[i]) by {
            if i < earlier.len() {
                assert(player_failure(earlier[i]) is Some);
                assert forall|k: int| 0 <= k < i implies player_failure(
                    #[trigger] earlier[k],
                ) is None by {
                    assert(player_failure(players[k]) is None);
                }
            } else {
                assert forall|k: int| 0 <= k < earlier.len() implies player_failure(
                    #[trigger] earlier[k],
                ) is None by {
                    assert(player_failure(players[k]) is None);
                }
            }
        }
    }
}

/// Converts one break count.
pub fn try_into_domain_player_break_count(value: RawPlayerBreakCount) -> (r: Result<
    PlayerBreakCount,
    AggregationError,
>)
    ensures
        match player_failure(value.player) {
            Some(e) => r is Err && r->Err_0 == e,
            None => r is Ok && r->Ok_0.player.uuid@ == value.player->Some_0.uuid@
                && r->Ok_0.break_count == value.break_count,
        },
{
    let break_count = value.break_count;
    match extract_domain_player(value.player) {
        Ok(player) => Ok(PlayerBreakCount { player, break_count }),
        Err(e) => Err(e),
    }
}

/// Converts one build count.
pub fn try_into_domain_player_build_count(value: RawPlayerBuildCount) -> (r: Result<
    PlayerBuildCount,
    AggregationError,
>)
    ensures
        match player_failure(value.player) {
            Some(e) => r is Err && r->Err_0 == e,
            None => r is Ok && r->Ok_0.player.uuid@ == value.player->Some_0.uuid@
                && r->Ok_0.build_count == value.build_count,
        },
{
    let build_count = value.build_count;
    match extract_domain_player(value.player) {
        Ok(player) => Ok(PlayerBuildCount { player, build_count }),
        Err(e) => Err(e),
    }
}

/// Converts one play-ticks count.
pub fn try_into_domain_player_play_ticks(value: RawPlayerPlayTicks) -> (r: Result<
    PlayerPlayTicks,
    AggregationError,
>)
    ensures
        match player_failure(value.player) {
            Some(e) => r is Err && r->Err_0 == e,
            None => r is Ok && r->Ok_0.player.uuid@ == value.player->Some_0.uuid@
                && r->Ok_0.play_ticks == value.play_ticks,
        },
{
    let play_ticks = value.play_ticks;
    match extract_domain_player(value.player) {
        Ok(player) => Ok(PlayerPlayTicks { player, play_ticks }),
        Err(e) => Err(e),
    }
}

/// Converts one vote count.
pub fn try_into_domain_player_vote_count(value: RawPlayerVoteCount) -> (r: Result<
    PlayerVoteCount,
    AggregationError,
>)
    ensures
        match player_failure(value.player) {
            Some(e) => r is Err && r->Err_0 == e,
            None => r is Ok && r->Ok_0.player.uuid@ == value.player->Some_0.uuid@
                && r->Ok_0.vote_count == value.vote_count,
        },
{
    let vote_count = value.vote_count;
    match extract_domain_player(value.player) {
        Ok(player) => Ok(PlayerVoteCount { player, vote_count }),
        Err(e) => Err(e),
    }
}

/// The player references of break counts, in their order.
pub open spec fn players_of_break_counts(results: Seq<RawPlayerBreakCount>) -> Seq<
    Option<RawPlayer>,
> {
    Seq::new(results.len(), |i: int| results[i].player)
}

/// Converts the break counts of one fetch, in their order. The first
/// record that cannot be converted fails the whole fetch.
pub fn get_all_break_counts(results: Vec<RawPlayerBreakCount>) -> (r: Result<
    Vec<PlayerBreakCount>,
    AggregationError,
>)
    ensures
        match conversion_failure(players_of_break_counts(results@)) {
            Some(e) => r is Err && r->Err_0 == e,
            None => {
                &&& r is Ok
                &&& r->Ok_0@.len() == results@.len()
                &&& forall|i: int|
                    0 <= i < results@.len() ==> {
                        &&& (#[trigger] r->Ok_0@[i]).player.uuid@
                            == results@[i].player->Some_0.uuid@
                        &&& r->Ok_0@[i].break_count == results@[i].break_count
                    }
            },
        },
{
    let ghost players = players_of_break_counts(results@);
    let mut converted: Vec<PlayerBreakCount> = Vec::with_capacity(results.len());
    for value in it: results
        invariant
            it.seq() == results@,
            players == players_of_break_counts(results@),
            converted@.len() == it.index(),
            conversion_failure(players.take(it.index() as int)) is None,
            forall|i: int|
                0 <= i < it.index() ==> {
                    &&& (#[trigger] converted@[i]).player.uuid@
                        == results@[i].player->Some_0.uuid@
                    &&& converted@[i].break_count == results@[i].break_count
                },
    {
        proof {
            let done = it.index() as int;
            assert(players.take(done + 1).drop_last() =~= players.take(done));
            if player_failure(players[done]) is Some {
                lemma_failure_stays(players, done + 1);
            }
        }
        match try_into_domain_player_break_count(value) {
            Ok(record) => {
                converted.push(record);
            },
            Err(e) => {
                return Err(e);
            },
        }
    }
    proof {
        assert(players.take(players.len() as int) =~= players);
    }
    Ok(converted)
}

/// The player references of build counts, in their order.
pub open spec fn players_of_build_counts(results: Seq<RawPlayerBuildCount>) -> Seq<
    Option<RawPlayer>,
> {
    Seq::new(results.len(), |i: int| results[i].player)
}

/// Converts the build counts of one fetch, in their order. The first
/// record that cannot be converted fails the whole fetch.
pub fn get_all_build_counts(results: Vec<RawPlayerBuildCount>) -> (r: Result<
    Vec<PlayerBuildCount>,
    AggregationError,
>)
    ensures
        match conversion_failure(players_of_build_counts(results@)) {
            Some(e) => r is Err && r->Err_0 == e,
            None => {
                &&& r is Ok
                &&& r->Ok_0@.len() == results@.len()
                &&& forall|i: int|
                    0 <= i < results@.len() ==> {
                        &&& (#[trigger] r->Ok_0@[i]).player.uuid@
                            == results@[i].player->Some_0.uuid@
                        &&& r->Ok_0@[i].build_count == results@[i].build_count
                    }
            },
        },
{
    let ghost players = players_of_build_counts(results@);
    let mut converted: Vec<PlayerBuildCount> = Vec::with_capacity(results.len());
    for value in it: results
        invariant
            it.seq() == results@,
            players == players_of_build_counts(results@),
            converted@.len() == it.index(),
            conversion_failure(players.take(it.index() as int)) is None,
            forall|i: int|
                0 <= i < it.index() ==> {
                    &&& (#[trigger] converted@[i]).player.uuid@
                        == results@[i].player->Some_0.uuid@
                    &&& converted@[i].build_count == results@[i].build_count
                },
    {
        proof {
            let done = it.index() as int;
            assert(players.take(done + 1).drop_last() =~= players.take(done));
            if player_failure(players[done]) is Some {
                lemma_failure_stays(players, done + 1);
            }
        }
        match try_into_domain_player_build_count(value) {
            Ok(record) => {
                converted.push(record);
            },
            Err(e) => {
                return Err(e);
            },
        }
    }
    proof {
        assert(players.take(players.len() as int) =~= players);
    }
    Ok(converted)
}

/// The player references of play-ticks counts, in their order.
pub open spec fn players_of_play_ticks(results: Seq<RawPlayerPlayTicks>) -> Seq<
    Option<RawPlayer>,
> {
    Seq::new(results.len(), |i: int| results[i].player)
}

/// Converts the play-ticks counts of one fetch, in their order. The first
/// record that cannot be converted fails the whole fetch.
pub fn get_all_play_ticks(results: Vec<RawPlayerPlayTicks>) -> (r: Result<
    Vec<PlayerPlayTicks>,
    AggregationError,
>)
    ensures
        match conversion_failure(players_of_play_ticks(results@)) {
            Some(e) => r is Err && r->Err_0 == e,
            None => {
                &&& r is Ok
                &&& r->Ok_0@.len() == results@.len()
                &&& forall|i: int|
                    0 <= i < results@.len() ==> {
                        &&& (#[trigger] r->Ok_0@[i]).player.uuid@
                            == results@[i].player->Some_0.uuid@
                        &&& r->Ok_0@[i].play_ticks == results@[i].play_ticks
                    }
            },
        },
{
    let ghost players = players_of_play_ticks(results@);
    let mut converted: Vec<PlayerPlayTicks> = Vec::with_capacity(results.len());
    for value in it: results
        invariant
            it.seq() == results@,
            players == players_of_play_ticks(results@),
            converted@.len() == it.index(),
            conversion_failure(players.take(it.index() as int)) is None,
            forall|i: int|
                0 <= i < it.index() ==> {
                    &&& (#[trigger] converted@[i]).player.uuid@
                        == results@[i].player->Some_0.uuid@
                    &&& converted@[i].play_ticks == results@[i].play_ticks
                },
    {
        proof {
            let done = it.index() as int;
            assert(players.take(done + 1).drop_last() =~= players.take(done));
            if player_failure(players[done]) is Some {
                lemma_failure_stays(players, done + 1);
            }
        }
        match try_into_domain_player_play_ticks(value) {
            Ok(record) => {
                converted.push(record);
            },
            Err(e) => {
                return Err(e);
            },
        }
    }
    proof {
        assert(players.take(players.len() as int) =~= players);
    }
    Ok(converted)
}

/// The player references of vote counts, in their order.
pub open spec fn players_of_vote_counts(results: Seq<RawPlayerVoteCount>) -> Seq<
    Option<RawPlayer>,
> {
    Seq::new(results.len(), |i: int| results[i].player)
}

/// Converts the vote counts of one fetch, in their order. The first
/// record that cannot be converted fails the whole fetch.
pub fn get_all_vote_counts(results: Vec<RawPlayerVoteCount>) -> (r: Result<
    Vec<PlayerVoteCount>,
    AggregationError,
>)
    ensures
        match conversion_failure(players_of_vote_counts(results@)) {
            Some(e) => r is Err && r->Err_0 == e,
            None => {
                &&& r is Ok
                &&& r->Ok_0@.len() == results@.len()
                &&& forall|i: int|
                    0 <= i < results@.len() ==> {
                        &&& (#[trigger] r->Ok_0@[i]).player.uuid@
                            == results@[i].player->Some_0.uuid@
                        &&& r->Ok_0@[i].vote_count == results@[i].vote_count
                    }
            },
        },
{
    let ghost players = players_of_vote_counts(results@);
    let mut converted: Vec<PlayerVoteCount> = Vec::with_capacity(results.len());
    for value in it: results
        invariant
            it.seq() == results@,
            players == players_of_vote_counts(results@),
            converted@.len() == it.index(),
            conversion_failure(players.take(it.index() as int)) is None,
            forall|i: int|
                0 <= i < it.index() ==> {
                    &&& (#[trigger] converted@[i]).player.uuid@
                        == results@[i].player->Some_0.uuid@
                    &&& converted@[i].vote_count == results@[i].vote_count
                },
    {
        proof {
            let done = it.index() as int;
            assert(players.take(done + 1).drop_last() =~= players.take(done));
            if player_failure(players[done]) is Some {
                lemma_failure_stays(players, done + 1);
            }
        }
        match try_into_domain_player_vote_count(value) {
            Ok(record) => {
                converted.push(record);
            },
            Err(e) => {
                return Err(e);
            },
        }
    }
    proof {
        assert(players.take(players.len() as int) =~= players);
    }
    Ok(converted)
}

} // verus!
