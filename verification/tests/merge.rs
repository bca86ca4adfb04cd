use player_metrics::domain::{
    AggregatedPlayerData, CountKind, KnownAggregatedPlayerData, Player, PlayerBreakCount,
    PlayerBuildCount, PlayerPlayTicks, PlayerUuidString, PlayerVoteCount,
};
use player_metrics::error::{AggregationError, SourceError, ValidationError};
use player_metrics::use_cases::{merge_counts, GetAllPlayerDataUseCase};

const ALICE: &str = "aaaaaaaa-aaaa-aaaa-aaaa-aaaaaaaaaaaa";
const BOB: &str = "bbbbbbbb-bbbb-bbbb-bbbb-bbbbbbbbbbbb";
const CAROL: &str = "cccccccc-cccc-cccc-cccc-cccccccccccc";
const DAVE: &str = "dddddddd-dddd-dddd-dddd-dddddddddddd";

fn player(uuid: &str) -> Player {
    Player { uuid: PlayerUuidString::from_string(&uuid.to_string()).unwrap() }
}

fn breaks(uuid: &str, n: u64) -> PlayerBreakCount {
    PlayerBreakCount { player: player(uuid), break_count: n }
}

fn builds(uuid: &str, n: u64) -> PlayerBuildCount {
    PlayerBuildCount { player: player(uuid), build_count: n }
}

fn ticks(uuid: &str, n: u64) -> PlayerPlayTicks {
    PlayerPlayTicks { player: player(uuid), play_ticks: n }
}

fn votes(uuid: &str, n: u64) -> PlayerVoteCount {
    PlayerVoteCount { player: player(uuid), vote_count: n }
}

fn rows(data: &KnownAggregatedPlayerData) -> Vec<(String, [u64; 4])> {
    let mut out = Vec::new();
    let mut i = 0;
    while let Some((p, d)) = data.get_index(i) {
        out.push((
            p.uuid.as_str().unwrap().to_string(),
            [d.break_count, d.build_count, d.play_ticks, d.vote_count],
        ));
        i += 1;
    }
    assert_eq!(out.len(), data.len());
    out
}

fn row(uuid: &str, counts: [u64; 4]) -> (String, [u64; 4]) {
    (uuid.to_string(), counts)
}

#[test]
fn empty_sequences_give_empty_aggregate() {
    let data = merge_counts(&Vec::new(), &Vec::new(), &Vec::new(), &Vec::new());
    assert_eq!(data.len(), 0);
    assert!(data.get_index(0).is_none());
}

#[test]
fn default_aggregate_is_empty() {
    let data = KnownAggregatedPlayerData::default();
    assert_eq!(data.len(), 0);
    assert!(data.get_index(0).is_none());
    assert_eq!(
        AggregatedPlayerData::default(),
        AggregatedPlayerData { break_count: 0, build_count: 0, play_ticks: 0, vote_count: 0 }
    );
}

#[test]
fn one_break_count_gives_one_row() {
    let data = merge_counts(
        &vec![breaks("11111111-1111-1111-1111-111111111111", 5)],
        &Vec::new(),
        &Vec::new(),
        &Vec::new(),
    );
    assert_eq!(rows(&data), vec![row("11111111-1111-1111-1111-111111111111", [5, 0, 0, 0])]);
}

#[test]
fn all_four_kinds_meet_in_one_row() {
    let data = merge_counts(
        &vec![breaks(ALICE, 1)],
        &vec![builds(ALICE, 2)],
        &vec![ticks(ALICE, 3)],
        &vec![votes(ALICE, 4)],
    );
    assert_eq!(rows(&data), vec![row(ALICE, [1, 2, 3, 4])]);
}

#[test]
fn last_write_wins_within_a_kind() {
    let data = merge_counts(
        &vec![breaks(ALICE, 1), breaks(BOB, 7), breaks(ALICE, 9)],
        &vec![builds(BOB, 3), builds(BOB, 2)],
        &vec![ticks(ALICE, 10), ticks(ALICE, 20), ticks(ALICE, 15)],
        &vec![votes(BOB, 5), votes(BOB, 0)],
    );
    assert_eq!(rows(&data), vec![row(ALICE, [9, 0, 15, 0]), row(BOB, [7, 2, 0, 0])]);
}

#[test]
fn counts_are_not_added_up() {
    let data = merge_counts(
        &vec![breaks(ALICE, 100), breaks(ALICE, 1)],
        &Vec::new(),
        &Vec::new(),
        &Vec::new(),
    );
    assert_eq!(rows(&data), vec![row(ALICE, [1, 0, 0, 0])]);
}

#[test]
fn identity_of_one_sequence_has_other_counts_zero() {
    let data = merge_counts(
        &vec![breaks(ALICE, 11)],
        &vec![builds(BOB, 22)],
        &vec![ticks(CAROL, 33)],
        &vec![votes(DAVE, 44)],
    );
    assert_eq!(
        rows(&data),
        vec![
            row(ALICE, [11, 0, 0, 0]),
            row(BOB, [0, 22, 0, 0]),
            row(CAROL, [0, 0, 33, 0]),
            row(DAVE, [0, 0, 0, 44]),
        ]
    );
}

#[test]
fn reported_zero_leaves_a_row_of_zeros() {
    let data = merge_counts(&Vec::new(), &vec![builds(BOB, 0)], &Vec::new(), &Vec::new());
    assert_eq!(rows(&data), vec![row(BOB, [0, 0, 0, 0])]);
}

#[test]
fn rows_stand_in_first_seen_order() {
    let data = merge_counts(
        &vec![breaks(CAROL, 1), breaks(ALICE, 2)],
        &vec![builds(BOB, 3), builds(CAROL, 4)],
        &vec![ticks(DAVE, 5), ticks(ALICE, 6)],
        &vec![votes(BOB, 7)],
    );
    assert_eq!(
        rows(&data),
        vec![
            row(CAROL, [1, 4, 0, 0]),
            row(ALICE, [2, 0, 6, 0]),
            row(BOB, [0, 3, 0, 7]),
            row(DAVE, [0, 0, 5, 0]),
        ]
    );
}

#[test]
fn aggregate_grows_past_the_break_counts() {
    let build_counts: Vec<PlayerBuildCount> =
        (0..500u64).map(|i| builds(&format!("{:036}", i), i)).collect();
    let data = merge_counts(&vec![breaks(ALICE, 1)], &build_counts, &Vec::new(), &Vec::new());
    assert_eq!(data.len(), 501);
    let (first, counts) = data.get_index(0).unwrap();
    assert_eq!(first.uuid.as_str().unwrap(), ALICE);
    assert_eq!(counts.break_count, 1);
    let (last, counts) = data.get_index(500).unwrap();
    assert_eq!(last.uuid.as_str().unwrap(), format!("{:036}", 499));
    assert_eq!(counts.build_count, 499);
    assert!(data.get_index(501).is_none());
}

#[test]
fn merging_twice_gives_the_same_rows() {
    let b = vec![breaks(ALICE, 1), breaks(BOB, 2), breaks(ALICE, 3)];
    let u = vec![builds(CAROL, 4)];
    let t = vec![ticks(BOB, 5)];
    let v = vec![votes(DAVE, 6), votes(ALICE, 7)];
    let first = merge_counts(&b, &u, &t, &v);
    let second = merge_counts(&b, &u, &t, &v);
    assert_eq!(rows(&first), rows(&second));
    assert_eq!(
        rows(&first),
        vec![
            row(ALICE, [3, 0, 0, 7]),
            row(BOB, [2, 0, 5, 0]),
            row(CAROL, [0, 4, 0, 0]),
            row(DAVE, [0, 0, 0, 6]),
        ]
    );
}

#[test]
fn record_adds_a_row_for_a_new_player() {
    let data = KnownAggregatedPlayerData::with_capacity(0);
    let data = data.record(&player(ALICE), CountKind::PlayTicks, 12);
    assert_eq!(rows(&data), vec![row(ALICE, [0, 0, 12, 0])]);
}

#[test]
fn record_replaces_one_count_and_keeps_the_place() {
    let data = KnownAggregatedPlayerData::with_capacity(2)
        .record(&player(ALICE), CountKind::BreakCount, 1)
        .record(&player(BOB), CountKind::BuildCount, 2)
        .record(&player(ALICE), CountKind::VoteCount, 3)
        .record(&player(ALICE), CountKind::BreakCount, 4);
    assert_eq!(rows(&data), vec![row(ALICE, [4, 0, 0, 3]), row(BOB, [0, 2, 0, 0])]);
}

#[test]
fn use_case_merges_four_successful_fetches() {
    let use_case = GetAllPlayerDataUseCase {
        break_counts: Ok(vec![breaks(ALICE, 1)]),
        build_counts: Ok(vec![builds(BOB, 2)]),
        play_ticks: Ok(vec![ticks(ALICE, 3)]),
        vote_counts: Ok(Vec::new()),
    };
    let data = use_case.get_all_known_aggregated_player_data().unwrap();
    assert_eq!(rows(&data), vec![row(ALICE, [1, 0, 3, 0]), row(BOB, [0, 2, 0, 0])]);
}

#[test]
fn one_failed_fetch_fails_the_request() {
    let unavailable = AggregationError::Source(SourceError::Unavailable);
    let use_case = GetAllPlayerDataUseCase {
        break_counts: Ok(vec![breaks(ALICE, 1)]),
        build_counts: Ok(vec![builds(BOB, 2)]),
        play_ticks: Err(unavailable),
        vote_counts: Ok(vec![votes(CAROL, 3)]),
    };
    assert_eq!(use_case.get_all_known_aggregated_player_data().unwrap_err(), unavailable);
}

#[test]
fn each_fetch_can_fail_the_request() {
    let protocol = AggregationError::Source(SourceError::ProtocolError);
    let failed_break = GetAllPlayerDataUseCase {
        break_counts: Err(protocol),
        build_counts: Ok(Vec::new()),
        play_ticks: Ok(Vec::new()),
        vote_counts: Ok(Vec::new()),
    };
    assert_eq!(failed_break.get_all_known_aggregated_player_data().unwrap_err(), protocol);
    let failed_build = GetAllPlayerDataUseCase {
        break_counts: Ok(Vec::new()),
        build_counts: Err(protocol),
        play_ticks: Ok(Vec::new()),
        vote_counts: Ok(Vec::new()),
    };
    assert_eq!(failed_build.get_all_known_aggregated_player_data().unwrap_err(), protocol);
    let failed_votes = GetAllPlayerDataUseCase {
        break_counts: Ok(Vec::new()),
        build_counts: Ok(Vec::new()),
        play_ticks: Ok(Vec::new()),
        vote_counts: Err(protocol),
    };
    assert_eq!(failed_votes.get_all_known_aggregated_player_data().unwrap_err(), protocol);
}

#[test]
fn reported_failure_is_one_of_the_failures() {
    let missing = AggregationError::Source(SourceError::MissingPlayerReference);
    let invalid = AggregationError::Validation(ValidationError::InvalidLength);
    let use_case = GetAllPlayerDataUseCase {
        break_counts: Ok(vec![breaks(ALICE, 1)]),
        build_counts: Err(missing),
        play_ticks: Ok(Vec::new()),
        vote_counts: Err(invalid),
    };
    assert_eq!(use_case.get_all_known_aggregated_player_data().unwrap_err(), missing);
}
