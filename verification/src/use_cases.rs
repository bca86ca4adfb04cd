//! The merge of the four count sequences of one request into one aggregate
//! per player.

use crate::domain::{
    distinct_ids, has_row, record_count, AggregatedPlayerData, CountKind,
    KnownAggregatedPlayerData, PlayerBreakCount, PlayerBuildCount, PlayerPlayTicks,
    PlayerVoteCount, Row,
};
use crate::error::AggregationError;
use vstd::prelude::*;

verus! {

/// One reported count: the identity's text and the number.
pub type Count = (Seq<char>, u64);

/// The counts that break-count records report.
pub open spec fn break_counts_of(records: Seq<PlayerBreakCount>) -> Seq<Count> {
    Seq::new(records.len(), |i: int| (records[i].player.uuid@, records[i].break_count))
}

/// The counts that build-count records report.
pub open spec fn build_counts_of(records: Seq<PlayerBuildCount>) -> Seq<Count> {
    Seq::new(records.len(), |i: int| (records[i].player.uuid@, records[i].build_count))
}

/// The counts that play-ticks records report.
pub open spec fn play_ticks_of(records: Seq<PlayerPlayTicks>) -> Seq<Count> {
    Seq::new(records.len(), |i: int| (records[i].player.uuid@, records[i].play_ticks))
}

/// The counts that vote-count records report.
pub open spec fn vote_counts_of(records: Seq<PlayerVoteCount>) -> Seq<Count> {
    Seq::new(records.len(), |i: int| (records[i].player.uuid@, records[i].vote_count))
}

/// The identities of the counts, in their order.
pub open spec fn ids_of(counts: Seq<Count>) -> Seq<Seq<char>> {
    Seq::new(counts.len(), |i: int| counts[i].0)
}

/// The count that was reported last for the identity, 0 where none was.
pub open spec fn last_count(counts: Seq<Count>, id: Seq<char>) -> u64
    decreases counts.len(),
{
    if counts.len() == 0 {
        0
    } else if counts.last().0 == id {
        counts.last().1
    } else {
        last_count(counts.drop_last(), id)
    }
}

/// The identities without repetition, each at the place of its first
/// occurrence.
pub open spec fn first_seen(ids: Seq<Seq<char>>) -> Seq<Seq<char>>
    decreases ids.len(),
{
    if ids.len() == 0 {
        Seq::empty()
    } else {
        let earlier = first_seen(ids.drop_last());
        if earlier.contains(ids.last()) {
            earlier
        } else {
            earlier.push(ids.last())
        }
    }
}

/// The counts of one request, kind by kind, each sequence in the order in
/// which its source reported it.
pub struct ReportedCounts {
    pub break_counts: Seq<Count>,
    pub build_counts: Seq<Count>,
    pub play_ticks: Seq<Count>,
    pub vote_counts: Seq<Count>,
}

impl ReportedCounts {
    /// The counts that four sequences of records report.
    pub open spec fn of_records(
        break_counts: Seq<PlayerBreakCount>,
        build_counts: Seq<PlayerBuildCount>,
        play_ticks: Seq<PlayerPlayTicks>,
        vote_counts: Seq<PlayerVoteCount>,
    ) -> Self {
        ReportedCounts {
            break_counts: break_counts_of(break_counts),
            build_counts: build_counts_of(build_counts),
            play_ticks: play_ticks_of(play_ticks),
            vote_counts: vote_counts_of(vote_counts),
        }
    }

    /// The sequence of one kind.
    pub open spec fn of_kind(self, kind: CountKind) -> Seq<Count> {
        match kind {
            CountKind::BreakCount => self.break_counts,
            CountKind::BuildCount => self.build_counts,
            CountKind::PlayTicks => self.play_ticks,
            CountKind::VoteCount => self.vote_counts,
        }
    }

    /// The identities of all four sequences: those of the break counts first,
    /// then those of the build counts, the play ticks and the vote counts.
    pub open spec fn all_ids(self) -> Seq<Seq<char>> {
        ids_of(self.break_counts) + ids_of(self.build_counts) + ids_of(self.play_ticks) + ids_of(
            self.vote_counts,
        )
    }

    /// The counts with one more at the end of the sequence of a kind.
    pub open spec fn with_next(self, kind: CountKind, next: Count) -> Self {
        match kind {
            CountKind::BreakCount => ReportedCounts {
                break_counts: self.break_counts.push(next),
                ..self
            },
            CountKind::BuildCount => ReportedCounts {
                build_counts: self.build_counts.push(next),
                ..self
            },
            CountKind::PlayTicks => ReportedCounts {
                play_ticks: self.play_ticks.push(next),
                ..self
            },
            CountKind::VoteCount => ReportedCounts {
                vote_counts: self.vote_counts.push(next),
                ..self
            },
        }
    }

    /// Whether the sequences of the kinds that are merged after `kind` are
    /// empty.
    pub open spec fn nothing_after(self, kind: CountKind) -> bool {
        match kind {
            CountKind::BreakCount => self.build_counts.len() == 0 && self.play_ticks.len() == 0
                && self.vote_counts.len() == 0,
            CountKind::BuildCount => self.play_ticks.len() == 0 && self.vote_counts.len() == 0,
            CountKind::PlayTicks => self.vote_counts.len() == 0,
            CountKind::VoteCount => true,
        }
    }
}

/// The aggregate of the counts of one request: one row for each identity
/// that occurs in any of the four sequences, in the order of first
/// occurrence, holding for each kind the count reported last for the
/// identity, or 0.
pub open spec fn aggregate(reported: ReportedCounts) -> Seq<Row> {
    let ids = first_seen(reported.all_ids());
    Seq::new(
        ids.len(),
        |i: int|
            (
                ids[i],
                AggregatedPlayerData {
                    break_count: last_count(reported.break_counts, ids[i]),
                    build_count: last_count(reported.build_counts, ids[i]),
                    play_ticks: last_count(reported.play_ticks, ids[i]),
                    vote_count: last_count(reported.vote_counts, ids[i]),
                },
            ),
    )
}

/// The counts in the row of an identity, where it has one.
pub open spec fn row_of(rows: Seq<Row>, id: Seq<char>) -> AggregatedPlayerData {
    rows[choose|i: int| 0 <= i < rows.len() && (#[trigger] rows[i]).0 == id].1
}

/// An identity is among those first seen exactly when it occurs at all.
pub proof fn lemma_first_seen_contains(ids: Seq<Seq<char>>, id: Seq<char>)
    ensures
        first_seen(ids).contains(id) <==> ids.contains(id),
    decreases ids.len(),
{
    if ids.len() > 0 {
        let earlier = first_seen(ids.drop_last());
        lemma_first_seen_contains(ids.drop_last(), id);
        lemma_first_seen_contains(ids.drop_last(), ids.last());
        if ids.contains(id) {
            let k = choose|k: int| 0 <= k < ids.len() && ids[k] == id;
            if k < ids.len() - 1 {
                assert(ids.drop_last()[k] == id);
                if !earlier.contains(ids.last()) {
                    let at = choose|at: int| 0 <= at < earlier.len() && earlier[at] == id;
                    assert(earlier.push(ids.last())[at] == id);
                }
            } else if !earlier.contains(ids.last()) {
                assert(earlier.push(ids.last())[earlier.len() as int] == id);
            }
        }
        if first_seen(ids).contains(id) {
            let at = choose|at: int| 0 <= at < first_seen(ids).len() && first_seen(ids)[at] == id;
            if earlier.contains(ids.last()) || at < earlier.len() {
                assert(earlier[at] == id);
                let k = choose|k: int| 0 <= k < ids.drop_last().len() && ids.drop_last()[k] == id;
                assert(ids[k] == id);
            } else {
                assert(ids[ids.len() - 1] == id);
            }
        }
    }
}

/// No identity stands twice among those first seen.
pub proof fn lemma_first_seen_distinct(ids: Seq<Seq<char>>)
    ensures
        forall|i: int, j: int|
            0 <= i < j < first_seen(ids).len() ==> first_seen(ids)[i] != first_seen(ids)[j],
    decreases ids.len(),
{
    if ids.len() > 0 {
        let earlier = first_seen(ids.drop_last());
        lemma_first_seen_distinct(ids.drop_last());
        assert forall|i: int, j: int| 0 <= i < j < first_seen(ids).len() implies first_seen(
            ids,
        )[i] != first_seen(ids)[j] by {
            if j == earlier.len() {
                assert(!earlier.contains(ids.last()));
                assert(earlier[i] != ids.last());
            }
        }
    }
}

/// An identity of which no count was reported has 0 as its last count.
pub proof fn lemma_last_count_absent(counts: Seq<Count>, id: Seq<char>)
    requires
        !ids_of(counts).contains(id),
    ensures
        last_count(counts, id) == 0,
    decreases counts.len(),
{
    if counts.len() > 0 {
        assert(ids_of(counts)[counts.len() - 1] == counts.last().0);
        assert forall|k: int| 0 <= k < counts.drop_last().len() implies ids_of(
            counts.drop_last(),
        )[k] != id by {
            assert(ids_of(counts)[k] == counts[k].0);
        }
        lemma_last_count_absent(counts.drop_last(), id);
    }
}

/// The last count of an identity is the number of the last record that names
/// it.
pub proof fn lemma_last_count_is_of_last_record(counts: Seq<Count>, id: Seq<char>, j: int)
    requires
        0 <= j < counts.len(),
        counts[j].0 == id,
        forall|k: int| j < k < counts.len() ==> counts[k].0 != id,
    ensures
        last_count(counts, id) == counts[j].1,
    decreases counts.len(),
{
    if j < counts.len() - 1 {
        lemma_last_count_is_of_last_record(counts.drop_last(), id, j);
    }
}

/// The identity of a record of any kind is among the identities of the four
/// sequences, and an identity among those is that of a record of some kind.
pub proof fn lemma_all_ids(reported: ReportedCounts, id: Seq<char>)
    ensures
        reported.all_ids().contains(id) <==> exists|kind: CountKind|
            ids_of(#[trigger] reported.of_kind(kind)).contains(id),
{
    let all = reported.all_ids();
    let b = ids_of(reported.break_counts);
    let u = ids_of(reported.build_counts);
    let t = ids_of(reported.play_ticks);
    let v = ids_of(reported.vote_counts);
    if all.contains(id) {
        let k = choose|k: int| 0 <= k < all.len() && all[k] == id;
        if k < b.len() {
            assert(b[k] == id);
            assert(ids_of(reported.of_kind(CountKind::BreakCount)).contains(id));
        } else if k < b.len() + u.len() {
            assert(u[k - b.len()] == id);
            assert(ids_of(reported.of_kind(CountKind::BuildCount)).contains(id));
        } else if k < b.len() + u.len() + t.len() {
            assert(t[k - b.len() - u.len()] == id);
            assert(ids_of(reported.of_kind(CountKind::PlayTicks)).contains(id));
        } else {
            assert(v[k - b.len() - u.len() - t.len()] == id);
            assert(ids_of(reported.of_kind(CountKind::VoteCount)).contains(id));
        }
    }
    if exists|kind: CountKind| ids_of(#[trigger] reported.of_kind(kind)).contains(id) {
        let kind = choose|kind: CountKind| ids_of(#[trigger] reported.of_kind(kind)).contains(id);
        let named = ids_of(reported.of_kind(kind));
        let j = choose|j: int| 0 <= j < named.len() && named[j] == id;
        match kind {
            CountKind::BreakCount => {
                assert(all[j] == id);
            },
            CountKind::BuildCount => {
                assert(all[b.len() + j] == id);
            },
            CountKind::PlayTicks => {
                assert(all[b.len() + u.len() + j] == id);
            },
            CountKind::VoteCount => {
                assert(all[b.len() + u.len() + t.len() + j] == id);
            },
        }
    }
}

/// Recording one more count of the kind being merged gives the aggregate of
/// the counts with that one added to the sequence of its kind.
pub proof fn lemma_aggregate_step(reported: ReportedCounts, kind: CountKind, next: Count)
    requires
        reported.nothing_after(kind),
    ensures
        record_count(aggregate(reported), next.0, kind, next.1) == aggregate(
            reported.with_next(kind, next),
        ),
{
    let grown = reported.with_next(kind, next);
    let rows = aggregate(reported);
    let ids = first_seen(reported.all_ids());
    let id = next.0;

    assert(grown.all_ids().drop_last() =~= reported.all_ids());
    assert(grown.of_kind(kind).drop_last() =~= reported.of_kind(kind));
    lemma_first_seen_contains(reported.all_ids(), id);

    if ids.contains(id) {
        let at = choose|at: int| 0 <= at < ids.len() && ids[at] == id;
        assert(rows[at].0 == id);
        assert(aggregate(grown) =~= record_count(rows, id, kind, next.1));
    } else {
        lemma_all_ids(reported, id);
        lemma_last_count_absent(reported.of_kind(CountKind::BreakCount), id);
        lemma_last_count_absent(reported.of_kind(CountKind::BuildCount), id);
        lemma_last_count_absent(reported.of_kind(CountKind::PlayTicks), id);
        lemma_last_count_absent(reported.of_kind(CountKind::VoteCount), id);
        assert(aggregate(grown) =~= record_count(rows, id, kind, next.1));
    }
}

/// Merges the four count sequences of one request: break counts first, then
/// build counts, play ticks and vote counts, each in the order given.
pub fn merge_counts(
    break_counts: &Vec<PlayerBreakCount>,
    build_counts: &Vec<PlayerBuildCount>,
    play_ticks: &Vec<PlayerPlayTicks>,
    vote_counts: &Vec<PlayerVoteCount>,
) -> (data: KnownAggregatedPlayerData)
    ensures
        data@ == aggregate(
            ReportedCounts::of_records(break_counts@, build_counts@, play_ticks@, vote_counts@),
        ),
{
    let ghost none = Seq::<Count>::empty();
    let ghost b = break_counts_of(break_counts@);
    let ghost u = build_counts_of(build_counts@);
    let ghost t = play_ticks_of(play_ticks@);
    let ghost v = vote_counts_of(vote_counts@);
    let ghost mut merged = ReportedCounts {
        break_counts: none,
        build_counts: none,
        play_ticks: none,
        vote_counts: none,
    };

    let mut data = KnownAggregatedPlayerData::with_capacity(break_counts.len());
    proof {
        assert(merged.all_ids() =~= Seq::<Seq<char>>::empty());
        assert(b.take(0) =~= none);
    }

    let mut i: usize = 0;
    while i < break_counts.len()
        invariant
            i <= break_counts.len(),
            b == break_counts_of(break_counts@),
            merged == (ReportedCounts {
                break_counts: b.take(i as int),
                build_counts: none,
                play_ticks: none,
                vote_counts: none,
            }),
            none.len() == 0,
            data@ == aggregate(merged),
        decreases break_counts.len() - i,
    {
        let record = &break_counts[i];
        proof {
            lemma_aggregate_step(merged, CountKind::BreakCount, b[i as int]);
            assert(b.take(i + 1) =~= b.take(i as int).push(b[i as int]));
            merged = merged.with_next(CountKind::BreakCount, b[i as int]);
        }
        data = data.record(&record.player, CountKind::BreakCount, record.break_count);
        i += 1;
    }
    proof {
        assert(b.take(i as int) =~= b);
        assert(u.take(0) =~= none);
    }

    let mut i: usize = 0;
    while i < build_counts.len()
        invariant
            i <= build_counts.len(),
            u == build_counts_of(build_counts@),
            merged == (ReportedCounts {
                break_counts: b,
                build_counts: u.take(i as int),
                play_ticks: none,
                vote_counts: none,
            }),
            none.len() == 0,
            data@ == aggregate(merged),
        decreases build_counts.len() - i,
    {
        let record = &build_counts[i];
        proof {
            lemma_aggregate_step(merged, CountKind::BuildCount, u[i as int]);
            assert(u.take(i + 1) =~= u.take(i as int).push(u[i as int]));
            merged = merged.with_next(CountKind::BuildCount, u[i as int]);
        }
        data = data.record(&record.player, CountKind::BuildCount, record.build_count);
        i += 1;
    }
    proof {
        assert(u.take(i as int) =~= u);
        assert(t.take(0) =~= none);
    }

    let mut i: usize = 0;
    while i < play_ticks.len()
        invariant
            i <= play_ticks.len(),
            t == play_ticks_of(play_ticks@),
            merged == (ReportedCounts {
                break_counts: b,
                build_counts: u,
                play_ticks: t.take(i as int),
                vote_counts: none,
            }),
            none.len() == 0,
            data@ == aggregate(merged),
        decreases play_ticks.len() - i,
    {
        let record = &play_ticks[i];
        proof {
            lemma_aggregate_step(merged, CountKind::PlayTicks, t[i as int]);
            assert(t.take(i + 1) =~= t.take(i as int).push(t[i as int]));
            merged = merged.with_next(CountKind::PlayTicks, t[i as int]);
        }
        data = data.record(&record.player, CountKind::PlayTicks, record.play_ticks);
        i += 1;
    }
    proof {
        assert(t.take(i as int) =~= t);
        assert(v.take(0) =~= none);
    }

    let mut i: usize = 0;
    while i < vote_counts.len()
        invariant
            i <= vote_counts.len(),
            v == vote_counts_of(vote_counts@),
            merged == (ReportedCounts {
                break_counts: b,
                build_counts: u,
                play_ticks: t,
                vote_counts: v.take(i as int),
            }),
            data@ == aggregate(merged),
        decreases vote_counts.len() - i,
    {
        let record = &vote_counts[i];
        proof {
            lemma_aggregate_step(merged, CountKind::VoteCount, v[i as int]);
            assert(v.take(i + 1) =~= v.take(i as int).push(v[i as int]));
            merged = merged.with_next(CountKind::VoteCount, v[i as int]);
        }
        data = data.record(&record.player, CountKind::VoteCount, record.vote_count);
        i += 1;
    }
    proof {
        assert(v.take(i as int) =~= v);
    }
    data
}

/// The aggregation of one request, over what the four fetches returned.
#[derive(Debug)]
pub struct GetAllPlayerDataUseCase {
    pub break_counts: Result<Vec<PlayerBreakCount>, AggregationError>,
    pub build_counts: Result<Vec<PlayerBuildCount>, AggregationError>,
    pub play_ticks: Result<Vec<PlayerPlayTicks>, AggregationError>,
    pub vote_counts: Result<Vec<PlayerVoteCount>, AggregationError>,
}

impl GetAllPlayerDataUseCase {
    /// The failure that the request ends with: that of the first fetch that
    /// failed, in the order break counts, build counts, play ticks, vote
    /// counts. `None` where all four succeeded.
    pub open spec fn failure(&self) -> Option<AggregationError> {
        if self.break_counts is Err {
            Some(self.break_counts->Err_0)
        } else if self.build_counts is Err {
            Some(self.build_counts->Err_0)
        } else if self.play_ticks is Err {
            Some(self.play_ticks->Err_0)
        } else if self.vote_counts is Err {
            Some(self.vote_counts->Err_0)
        } else {
            None
        }
    }

    /// The counts that the four fetches reported, where all four succeeded.
    pub open spec fn reported(&self) -> ReportedCounts {
        ReportedCounts::of_records(
            self.break_counts->Ok_0@,
            self.build_counts->Ok_0@,
            self.play_ticks->Ok_0@,
            self.vote_counts->Ok_0@,
        )
    }

    /// Merges what was fetched. One failed fetch fails the request, whatever
    /// the other three returned; no part of an aggregate is handed out then.
    pub fn get_all_known_aggregated_player_data(&self) -> (r: Result<
        KnownAggregatedPlayerData,
        AggregationError,
    >)
        ensures
            self.failure() is Some ==> r is Err && r->Err_0 == self.failure()->Some_0,
            self.failure() is None ==> r is Ok && r->Ok_0@ == aggregate(self.reported()),
    {
        match &self.break_counts {
            Err(e) => Err(*e),
            Ok(break_counts) => match &self.build_counts {
                Err(e) => Err(*e),
                Ok(build_counts) => match &self.play_ticks {
                    Err(e) => Err(*e),
                    Ok(play_ticks) => match &self.vote_counts {
                        Err(e) => Err(*e),
                        Ok(vote_counts) => Ok(
                            merge_counts(break_counts, build_counts, play_ticks, vote_counts),
                        ),
                    },
                },
            },
        }
    }
}

/// Merging is a function of the counts: whatever was merged from the same
/// counts in the same order has the same rows, in the same order.
pub proof fn law_merge_is_deterministic(first: Seq<Row>, second: Seq<Row>, reported: ReportedCounts)
    requires
        first == aggregate(reported),
        second == aggregate(reported),
    ensures
        first == second,
{
}

/// The aggregate has a row for an identity exactly when a record of some
/// kind names it, and never two rows for one identity.
pub proof fn law_one_row_per_identity(reported: ReportedCounts, id: Seq<char>)
    ensures
        has_row(aggregate(reported), id) <==> exists|kind: CountKind|
            ids_of(#[trigger] reported.of_kind(kind)).contains(id),
        distinct_ids(aggregate(reported)),
{
    let ids = first_seen(reported.all_ids());
    let rows = aggregate(reported);
    lemma_all_ids(reported, id);
    lemma_first_seen_contains(reported.all_ids(), id);
    lemma_first_seen_distinct(reported.all_ids());
    if has_row(rows, id) {
        let at = choose|at: int| 0 <= at < rows.len() && (#[trigger] rows[at]).0 == id;
        assert(ids[at] == id);
    }
    if ids.contains(id) {
        let at = choose|at: int| 0 <= at < ids.len() && ids[at] == id;
        assert(rows[at].0 == id);
    }
    assert forall|i: int, j: int| 0 <= i < j < rows.len() implies (#[trigger] rows[i]).0 != (
    #[trigger] rows[j]).0 by {
        assert(ids[i] != ids[j]);
    }
}

/// The rows stand in the order in which their identities were first named:
/// through the break counts, then the build counts, the play ticks and the
/// vote counts.
pub proof fn law_rows_in_first_seen_order(reported: ReportedCounts)
    ensures
        aggregate(reported).len() == first_seen(reported.all_ids()).len(),
        forall|i: int|
            0 <= i < aggregate(reported).len() ==> (#[trigger] aggregate(reported)[i]).0
                == first_seen(reported.all_ids())[i],
{
}

/// In the row of an identity, the count of each kind is the number of the
/// last record of that kind that names the identity.
pub proof fn law_count_is_of_last_record(reported: ReportedCounts, kind: CountKind, j: int)
    requires
        0 <= j < reported.of_kind(kind).len(),
        forall|k: int|
            j < k < reported.of_kind(kind).len() ==> reported.of_kind(kind)[k].0
                != reported.of_kind(kind)[j].0,
    ensures
        has_row(aggregate(reported), reported.of_kind(kind)[j].0),
        row_of(aggregate(reported), reported.of_kind(kind)[j].0).count(kind) == reported.of_kind(
            kind,
        )[j].1,
{
    let counts = reported.of_kind(kind);
    let id = counts[j].0;
    assert(ids_of(counts)[j] == id);
    law_one_row_per_identity(reported, id);
    lemma_last_count_is_of_last_record(counts, id, j);
}

/// Last write wins: where a sequence names an identity twice, the count of
/// that kind in the identity's row is the number of the later record, the
/// last that names it.
pub proof fn law_last_write_wins(reported: ReportedCounts, kind: CountKind, i: int, j: int)
    requires
        0 <= i < j < reported.of_kind(kind).len(),
        reported.of_kind(kind)[i].0 == reported.of_kind(kind)[j].0,
        forall|k: int|
            j < k < reported.of_kind(kind).len() ==> reported.of_kind(kind)[k].0
                != reported.of_kind(kind)[j].0,
    ensures
        has_row(aggregate(reported), reported.of_kind(kind)[j].0),
        row_of(aggregate(reported), reported.of_kind(kind)[j].0).count(kind) == reported.of_kind(
            kind,
        )[j].1,
{
    law_count_is_of_last_record(reported, kind, j);
}

/// Missing counts are 0: an identity that only the sequence of one kind names
/// has a row whose counts of the other three kinds are 0, and whose count of
/// that kind is the last that was reported for it. So the row has exactly one
/// count that is not 0, unless 0 is what was reported last.
pub proof fn law_missing_counts_are_zero(reported: ReportedCounts, kind: CountKind, id: Seq<char>)
    requires
        forall|other: CountKind|
            ids_of(#[trigger] reported.of_kind(other)).contains(id) <==> other == kind,
    ensures
        has_row(aggregate(reported), id),
        forall|other: CountKind|
            other != kind ==> #[trigger] row_of(aggregate(reported), id).count(other) == 0,
        row_of(aggregate(reported), id).count(kind) == last_count(reported.of_kind(kind), id),
        last_count(reported.of_kind(kind), id) != 0 ==> forall|other: CountKind|
            #[trigger] row_of(aggregate(reported), id).count(other) != 0 <==> other == kind,
{
    let rows = aggregate(reported);
    assert(ids_of(reported.of_kind(kind)).contains(id));
    law_one_row_per_identity(reported, id);
    assert forall|other: CountKind| other != kind implies #[trigger] row_of(rows, id).count(
        other,
    ) == 0 by {
        lemma_last_count_absent(reported.of_kind(other), id);
    }
}

} // verus!
