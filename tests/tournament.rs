use gifdome::bracket::build_bracket;
use gifdome::db::{MatchupState, TournamentState};
use gifdome::replies::already_running_text;
use gifdome::text::Kaomoji;
use gifdome::tournament::{
    active_tournament, change_state, matchup_decided, open_tournament, single_active_per_chat, tick_action,
    AdvanceMatchupError, AdvancePlan, StartedMatchupRow, TickAction, Tournament,
    TournamentSummary,
};

const SEC: i64 = 1_000_000;

fn started_count(t: &Tournament) -> usize {
    t.matchups.iter().filter(|m| m.state == MatchupState::Started).count()
}

fn voting_tournament() -> Tournament {
    let ranked: Vec<String> = (0..4).map(|i| format!("g{i}")).collect();
    let bracket = build_bracket(&ranked, 2, &vec![60, 120]).unwrap();
    let mut t = Tournament::new();
    t.begin_voting(2, 4, &bracket, "poll-0".to_string(), 100, 1000).unwrap();
    t
}

fn set_votes(t: &mut Tournament, index: usize, a: i32, b: i32) {
    t.matchups[index].animation_a_votes = Some(a);
    t.matchups[index].animation_b_votes = Some(b);
}

#[test]
fn tied_expired_matchup_stays_open() {
    let started = 50 * SEC;
    let now = started + 60 * SEC + SEC;
    assert!(!matchup_decided(started, 60, now, 2, 2, 4));
}

#[test]
fn decided_expired_matchup_closes() {
    let started = 50 * SEC;
    let now = started + 60 * SEC + SEC;
    assert!(matchup_decided(started, 60, now, 3, 2, 4));
    assert!(matchup_decided(started, 60, started + 60 * SEC, 3, 2, 4));
    assert!(!matchup_decided(started, 60, started + 60 * SEC - 1, 3, 2, 4));
    assert!(!matchup_decided(started, 60, now, 2, 1, 4));
}

#[test]
fn tick_reads_started_rows() {
    let mut row = StartedMatchupRow {
        tournament_id: "t".to_string(),
        index: 0,
        chat_id: 7,
        message_id: Some(42),
        duration_secs: 60,
        started_at: Some(0),
        animation_a_votes: Some(3),
        animation_b_votes: Some(2),
        min_votes: Some(4),
    };
    assert_eq!(tick_action(&row, 61 * SEC), TickAction::Close(42));
    assert_eq!(tick_action(&row, 10 * SEC), TickAction::Wait);
    row.animation_b_votes = Some(3);
    assert_eq!(tick_action(&row, 61 * SEC), TickAction::Wait);
    row.min_votes = None;
    assert!(matches!(tick_action(&row, 61 * SEC), TickAction::Integrity(_)));
    row.min_votes = Some(1);
    row.message_id = None;
    assert!(matches!(tick_action(&row, 61 * SEC), TickAction::Integrity(_)));
}

#[test]
fn begin_voting_starts_the_first_matchup() {
    let t = voting_tournament();
    assert_eq!(t.state, TournamentState::Voting);
    assert_eq!(t.rounds, Some(2));
    assert_eq!(t.min_votes, Some(4));
    assert_eq!(t.matchups.len(), 3);
    assert_eq!(t.matchups[0].state, MatchupState::Started);
    assert_eq!(t.matchups[0].poll_id.as_deref(), Some("poll-0"));
    assert_eq!(t.matchups[0].message_id, Some(100));
    assert_eq!(t.matchups[0].animation_a_votes, Some(0));
    assert_eq!(t.matchups[0].started_at, Some(1000));
    assert_eq!(t.matchups[1].state, MatchupState::NotStarted);
    assert_eq!(started_count(&t), 1);
}

#[test]
fn begin_voting_needs_submission_phase() {
    let mut t = voting_tournament();
    let bracket = build_bracket(&vec!["a".to_string(), "b".to_string()], 1, &vec![5]).unwrap();
    assert_eq!(
        t.begin_voting(1, 1, &bracket, "p".to_string(), 1, 1),
        Err(AdvanceMatchupError::WrongState)
    );
    assert_eq!(t.matchups.len(), 3);
}

#[test]
fn bracket_runs_to_a_champion() {
    let mut t = voting_tournament();
    set_votes(&mut t, 0, 3, 1);
    match t.plan_advance(0).unwrap() {
        AdvancePlan::Next { index, animation_a_id, animation_b_id, pairings } => {
            assert_eq!(index, 1);
            assert_eq!((animation_a_id.as_str(), animation_b_id.as_str()), ("g1", "g2"));
            assert!(pairings.is_empty());
        }
        other => panic!("unexpected plan {other:?}"),
    }
    t.advance_to_next(0, "poll-1".to_string(), 101, 2000).unwrap();
    assert_eq!(t.matchups[0].state, MatchupState::Finished);
    assert_eq!(t.matchups[0].finished_at, Some(2000));
    assert_eq!(t.matchups[1].state, MatchupState::Started);
    assert_eq!(started_count(&t), 1);

    set_votes(&mut t, 1, 0, 5);
    match t.plan_advance(1).unwrap() {
        AdvancePlan::Next { index, animation_a_id, animation_b_id, pairings } => {
            assert_eq!(index, 2);
            assert_eq!((animation_a_id.as_str(), animation_b_id.as_str()), ("g0", "g2"));
            assert_eq!(pairings.len(), 1);
        }
        other => panic!("unexpected plan {other:?}"),
    }
    t.advance_to_next(1, "poll-2".to_string(), 102, 3000).unwrap();
    assert_eq!(t.matchups[2].animation_a_id.as_deref(), Some("g0"));
    assert_eq!(t.matchups[2].animation_b_id.as_deref(), Some("g2"));
    assert_eq!(t.matchups[2].state, MatchupState::Started);
    assert_eq!(started_count(&t), 1);

    set_votes(&mut t, 2, 1, 2);
    assert_eq!(t.plan_advance(2), Ok(AdvancePlan::Finish("g2".to_string())));
    assert_eq!(
        t.advance_to_next(2, "x".to_string(), 1, 1),
        Err(AdvanceMatchupError::NoNextMatchup)
    );
    assert_eq!(t.finish(2, 4000), Ok("g2".to_string()));
    assert_eq!(t.state, TournamentState::Finished);
    assert_eq!(started_count(&t), 0);
}

#[test]
fn tied_matchup_does_not_advance() {
    let mut t = voting_tournament();
    set_votes(&mut t, 0, 2, 2);
    assert_eq!(t.plan_advance(0), Err(AdvanceMatchupError::EqualVotes));
    assert_eq!(t.advance_to_next(0, "p".to_string(), 1, 1), Err(AdvanceMatchupError::EqualVotes));
    assert_eq!(t.matchups[0].state, MatchupState::Started);
    assert_eq!(t.plan_advance(9), Err(AdvanceMatchupError::MatchupNotFound));
    assert_eq!(t.finish(0, 1), Err(AdvanceMatchupError::EqualVotes));
}

#[test]
fn abort_aborts_the_started_matchup() {
    let mut t = voting_tournament();
    assert_eq!(t.abort(), Ok(true));
    assert_eq!(t.state, TournamentState::Aborted);
    assert_eq!(t.matchups[0].state, MatchupState::Aborted);
    assert_eq!(started_count(&t), 0);
    assert_eq!(t.abort(), Err(AdvanceMatchupError::WrongState));
    let mut fresh = Tournament::new();
    assert_eq!(fresh.abort(), Ok(false));
}

#[test]
fn second_start_in_a_chat_is_refused() {
    let mut ts: Vec<TournamentSummary> = Vec::new();
    assert!(open_tournament(&mut ts, 7, "first".to_string()));
    assert!(!open_tournament(&mut ts, 7, "second".to_string()));
    assert_eq!(ts.len(), 1);
    assert_eq!(
        already_running_text(),
        format!("There is already a tournament running {}", Kaomoji::CONFUSED)
    );
    assert!(open_tournament(&mut ts, 8, "other".to_string()));
    assert_eq!(active_tournament(&ts, 7), Some(0));
    assert!(change_state(&mut ts, 0, TournamentState::Voting));
    assert!(!change_state(&mut ts, 0, TournamentState::Submitting));
    assert!(change_state(&mut ts, 0, TournamentState::Aborted));
    assert_eq!(active_tournament(&ts, 7), None);
    assert!(open_tournament(&mut ts, 7, "third".to_string()));
    assert_eq!(ts.iter().filter(|t| t.chat_id == 7 && t.state.is_active()).count(), 1);
}

#[test]
fn decided_matchup_closes_and_next_starts() {
    let mut t = voting_tournament();
    set_votes(&mut t, 0, 3, 2);
    let row = StartedMatchupRow {
        tournament_id: "t".to_string(),
        index: 0,
        chat_id: 7,
        message_id: t.matchups[0].message_id,
        duration_secs: 60,
        started_at: t.matchups[0].started_at,
        animation_a_votes: t.matchups[0].animation_a_votes,
        animation_b_votes: t.matchups[0].animation_b_votes,
        min_votes: t.min_votes,
    };
    let now = 1000 + 61 * SEC;
    assert_eq!(tick_action(&row, now), TickAction::Close(100));
    t.advance_to_next(0, "poll-1".to_string(), 101, now).unwrap();
    assert_eq!(t.matchups[0].state, MatchupState::Finished);
    assert_eq!(t.matchups[1].state, MatchupState::Started);
    assert_eq!(t.matchups[1].poll_id.as_deref(), Some("poll-1"));
    assert_eq!(t.matchups[1].animation_a_votes, Some(0));
    assert_eq!(started_count(&t), 1);
}

#[test]
fn invariant_checks() {
    let mut t = voting_tournament();
    assert!(t.is_well_formed());
    t.matchups[1].state = MatchupState::Started;
    assert!(!t.is_well_formed());
    let mut t = voting_tournament();
    t.matchups[0].finished_at = Some(5);
    assert!(!t.matchups[0].shape_ok());
    assert!(!t.is_well_formed());
    assert!(Tournament::new().is_well_formed());
    let summary = |chat_id, state| TournamentSummary { id: "x".to_string(), chat_id, state };
    assert!(single_active_per_chat(&vec![summary(1, TournamentState::Voting), summary(1, TournamentState::Finished)]));
    assert!(!single_active_per_chat(&vec![summary(1, TournamentState::Voting), summary(1, TournamentState::Submitting)]));
}

#[test]
fn promotion_fills_the_new_round_and_keeps_the_rest() {
    let ranked: Vec<String> = (0..8).map(|i| format!("g{i}")).collect();
    let bracket = build_bracket(&ranked, 3, &vec![60, 60, 60]).unwrap();
    let mut t = Tournament::new();
    t.begin_voting(3, 1, &bracket, "p0".to_string(), 10, 0).unwrap();
    let votes = [(2, 1), (0, 3), (5, 4), (1, 2)];
    for (i, (a, b)) in votes.iter().enumerate() {
        set_votes(&mut t, i, *a, *b);
        let before_ended = t.matchups[i].poll_id.clone();
        t.advance_to_next(i, format!("p{}", i + 1), 11 + i as i32, 100 + i as i64).unwrap();
        assert_eq!(t.matchups[i].state, MatchupState::Finished);
        assert_eq!(t.matchups[i].poll_id, before_ended);
        assert_eq!(t.matchups[i].animation_a_votes, Some(*a));
        assert_eq!(started_count(&t), 1);
    }
    // first-round pairs: (g0,g7) (g3,g4) (g1,g6) (g2,g5); winners g0, g4, g1, g5
    assert_eq!(t.matchups[4].animation_a_id.as_deref(), Some("g0"));
    assert_eq!(t.matchups[4].animation_b_id.as_deref(), Some("g4"));
    assert_eq!(t.matchups[5].animation_a_id.as_deref(), Some("g1"));
    assert_eq!(t.matchups[5].animation_b_id.as_deref(), Some("g5"));
    assert_eq!(t.matchups[4].state, MatchupState::Started);
    assert_eq!(t.matchups[5].state, MatchupState::NotStarted);
    assert_eq!(t.matchups[6].animation_a_id, None);
}

#[test]
fn tied_matchup_blocks_promotion() {
    let mut t = voting_tournament();
    set_votes(&mut t, 0, 3, 1);
    t.advance_to_next(0, "poll-1".to_string(), 101, 2000).unwrap();
    set_votes(&mut t, 1, 2, 2);
    assert_eq!(t.advance_to_next(1, "poll-2".to_string(), 102, 3000), Err(AdvanceMatchupError::EqualVotes));
    assert_eq!(t.matchups[1].state, MatchupState::Started);
    assert!(t.finish(2, 5).is_err());
}
