use player_metrics::error::{AggregationError, SourceError, ValidationError};
use player_metrics::source::{
    extract_domain_player, into_domain_player, get_all_play_ticks,
    get_all_break_counts, get_all_build_counts,
    try_into_domain_player_break_count, try_into_domain_player_build_count,
    try_into_domain_player_play_ticks, try_into_domain_player_vote_count,
    get_all_vote_counts, RawPlayer, RawPlayerBreakCount, RawPlayerBuildCount,
    RawPlayerPlayTicks, RawPlayerVoteCount,
};

const ALICE: &str = "aaaaaaaa-aaaa-aaaa-aaaa-aaaaaaaaaaaa";
const BOB: &str = "bbbbbbbb-bbbb-bbbb-bbbb-bbbbbbbbbbbb";

fn raw(uuid: &str) -> Option<RawPlayer> {
    Some(RawPlayer { uuid: uuid.to_string() })
}

#[test]
fn raw_player_with_valid_identity_converts() {
    let player = into_domain_player(&RawPlayer { uuid: ALICE.to_string() }).unwrap();
    assert_eq!(player.uuid.as_str().unwrap(), ALICE);
}

#[test]
fn raw_player_with_invalid_identity_fails() {
    let short = into_domain_player(&RawPlayer { uuid: "abc".to_string() });
    assert_eq!(short.unwrap_err(), AggregationError::Validation(ValidationError::InvalidLength));
    let non_ascii = into_domain_player(&RawPlayer { uuid: "\u{3042}".repeat(36) });
    assert_eq!(
        non_ascii.unwrap_err(),
        AggregationError::Validation(ValidationError::InvalidEncoding)
    );
}

#[test]
fn missing_player_is_an_error() {
    assert_eq!(
        extract_domain_player(None).unwrap_err(),
        AggregationError::Source(SourceError::MissingPlayerReference)
    );
}

#[test]
fn present_player_is_extracted() {
    let player = extract_domain_player(raw(BOB)).unwrap();
    assert_eq!(player.uuid.as_str().unwrap(), BOB);
}

#[test]
fn single_records_keep_player_and_count() {
    let b = try_into_domain_player_break_count(RawPlayerBreakCount {
        player: raw(ALICE),
        break_count: 1,
    })
    .unwrap();
    assert_eq!((b.player.uuid.as_str().unwrap(), b.break_count), (ALICE, 1));
    let u = try_into_domain_player_build_count(RawPlayerBuildCount {
        player: raw(ALICE),
        build_count: 2,
    })
    .unwrap();
    assert_eq!((u.player.uuid.as_str().unwrap(), u.build_count), (ALICE, 2));
    let t = try_into_domain_player_play_ticks(RawPlayerPlayTicks {
        player: raw(BOB),
        play_ticks: u64::MAX,
    })
    .unwrap();
    assert_eq!((t.player.uuid.as_str().unwrap(), t.play_ticks), (BOB, u64::MAX));
    let v = try_into_domain_player_vote_count(RawPlayerVoteCount {
        player: raw(BOB),
        vote_count: 0,
    })
    .unwrap();
    assert_eq!((v.player.uuid.as_str().unwrap(), v.vote_count), (BOB, 0));
}

#[test]
fn single_records_without_player_fail() {
    let missing = AggregationError::Source(SourceError::MissingPlayerReference);
    assert_eq!(
        try_into_domain_player_break_count(RawPlayerBreakCount { player: None, break_count: 1 })
            .unwrap_err(),
        missing
    );
    assert_eq!(
        try_into_domain_player_build_count(RawPlayerBuildCount { player: None, build_count: 1 })
            .unwrap_err(),
        missing
    );
    assert_eq!(
        try_into_domain_player_play_ticks(RawPlayerPlayTicks { player: None, play_ticks: 1 })
            .unwrap_err(),
        missing
    );
    assert_eq!(
        try_into_domain_player_vote_count(RawPlayerVoteCount { player: None, vote_count: 1 })
            .unwrap_err(),
        missing
    );
}

#[test]
fn sequence_converts_in_order() {
    let converted = get_all_break_counts(vec![
        RawPlayerBreakCount { player: raw(ALICE), break_count: 3 },
        RawPlayerBreakCount { player: raw(BOB), break_count: 4 },
        RawPlayerBreakCount { player: raw(ALICE), break_count: 5 },
    ])
    .unwrap();
    let seen: Vec<(&str, u64)> =
        converted.iter().map(|r| (r.player.uuid.as_str().unwrap(), r.break_count)).collect();
    assert_eq!(seen, vec![(ALICE, 3), (BOB, 4), (ALICE, 5)]);
}

#[test]
fn empty_sequences_convert_to_empty() {
    assert!(get_all_break_counts(Vec::new()).unwrap().is_empty());
    assert!(get_all_build_counts(Vec::new()).unwrap().is_empty());
    assert!(get_all_play_ticks(Vec::new()).unwrap().is_empty());
    assert!(get_all_vote_counts(Vec::new()).unwrap().is_empty());
}

#[test]
fn first_failing_record_decides_the_error() {
    let outcome = get_all_build_counts(vec![
        RawPlayerBuildCount { player: raw(ALICE), build_count: 1 },
        RawPlayerBuildCount { player: raw("too short"), build_count: 2 },
        RawPlayerBuildCount { player: None, build_count: 3 },
    ]);
    assert_eq!(
        outcome.unwrap_err(),
        AggregationError::Validation(ValidationError::InvalidLength)
    );
    let outcome = get_all_play_ticks(vec![
        RawPlayerPlayTicks { player: None, play_ticks: 1 },
        RawPlayerPlayTicks { player: raw("\u{e9}"), play_ticks: 2 },
    ]);
    assert_eq!(
        outcome.unwrap_err(),
        AggregationError::Source(SourceError::MissingPlayerReference)
    );
}

#[test]
fn failure_in_last_record_fails_the_sequence() {
    let outcome = get_all_vote_counts(vec![
        RawPlayerVoteCount { player: raw(ALICE), vote_count: 1 },
        RawPlayerVoteCount { player: raw(BOB), vote_count: 2 },
        RawPlayerVoteCount { player: raw("\u{e9}".repeat(18).as_str()), vote_count: 3 },
    ]);
    assert_eq!(
        outcome.unwrap_err(),
        AggregationError::Validation(ValidationError::InvalidEncoding)
    );
}

#[test]
fn other_kinds_convert_in_order() {
    let ticks = get_all_play_ticks(vec![
        RawPlayerPlayTicks { player: raw(BOB), play_ticks: 7 },
        RawPlayerPlayTicks { player: raw(ALICE), play_ticks: 8 },
    ])
    .unwrap();
    assert_eq!(ticks.len(), 2);
    assert_eq!((ticks[0].player.uuid.as_str().unwrap(), ticks[0].play_ticks), (BOB, 7));
    assert_eq!((ticks[1].player.uuid.as_str().unwrap(), ticks[1].play_ticks), (ALICE, 8));
    let votes = get_all_vote_counts(vec![RawPlayerVoteCount {
        player: raw(ALICE),
        vote_count: 9,
    }])
    .unwrap();
    assert_eq!((votes[0].player.uuid.as_str().unwrap(), votes[0].vote_count), (ALICE, 9));
    let builds = get_all_build_counts(vec![RawPlayerBuildCount {
        player: raw(BOB),
        build_count: 10,
    }])
    .unwrap();
    assert_eq!((builds[0].player.uuid.as_str().unwrap(), builds[0].build_count), (BOB, 10));
}
