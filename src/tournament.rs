//! The tournament and matchup state machines: the shape every matchup row
//! keeps, and the transitions that start voting, advance the bracket, finish
//! and abort a tournament.

use crate::bracket::{
    feeder_range, feeder_winner, first_at, is_complete, pow2, promote_round, round_start,
    winner_of, CalculateNewRoundMatchupsError, FeederMatchup, PlannedMatchup, RoundPairing,
};
use crate::db::{MatchupState, TournamentState};
use vstd::prelude::*;

verus! {

/// A matchup row. Timestamps are microseconds since the Unix epoch.
#[derive(Debug, PartialEq, Eq)]
pub struct Matchup {
    pub index: u32,
    pub round: u32,
    pub animation_a_id: Option<String>,
    pub animation_b_id: Option<String>,
    pub state: MatchupState,
    pub poll_id: Option<String>,
    pub message_id: Option<i32>,
    pub animation_a_votes: Option<i32>,
    pub animation_b_votes: Option<i32>,
    pub duration_secs: u16,
    pub started_at: Option<i64>,
    pub finished_at: Option<i64>,
}

pub open spec fn opt_nonneg(v: Option<i32>) -> bool {
    match v {
        Some(x) => x >= 0,
        None => true,
    }
}

pub open spec fn sides_differ(a: Option<String>, b: Option<String>) -> bool {
    match (a, b) {
        (Some(x), Some(y)) => x@ != y@,
        _ => true,
    }
}

/// The row constraints of a matchup: the two sides differ, vote counts are
/// non-negative, and which columns are set follows the state.
pub open spec fn matchup_shape_ok(m: Matchup) -> bool {
    &&& sides_differ(m.animation_a_id, m.animation_b_id)
    &&& opt_nonneg(m.animation_a_votes)
    &&& opt_nonneg(m.animation_b_votes)
    &&& match m.state {
        MatchupState::NotStarted => {
            &&& m.poll_id is None
            &&& m.message_id is None
            &&& m.animation_a_votes is None
            &&& m.animation_b_votes is None
            &&& m.started_at is None
            &&& m.finished_at is None
        },
        MatchupState::Started | MatchupState::Aborted => {
            &&& m.poll_id is Some
            &&& m.message_id is Some
            &&& m.animation_a_id is Some
            &&& m.animation_b_id is Some
            &&& m.animation_a_votes is Some
            &&& m.animation_b_votes is Some
            &&& m.started_at is Some
            &&& m.finished_at is None
        },
        MatchupState::Finished => {
            &&& m.poll_id is Some
            &&& m.message_id is Some
            &&& m.animation_a_id is Some
            &&& m.animation_b_id is Some
            &&& m.animation_a_votes is Some
            &&& m.animation_b_votes is Some
            &&& m.started_at is Some
            &&& m.finished_at is Some
        },
    }
}

impl Matchup {
    pub fn copy(&self) -> (r: Matchup)
        ensures
            r == *self,
    {
        Matchup {
            index: self.index,
            round: self.round,
            animation_a_id: self.animation_a_id.clone(),
            animation_b_id: self.animation_b_id.clone(),
            state: self.state,
            poll_id: self.poll_id.clone(),
            message_id: self.message_id,
            animation_a_votes: self.animation_a_votes,
            animation_b_votes: self.animation_b_votes,
            duration_secs: self.duration_secs,
            started_at: self.started_at,
            finished_at: self.finished_at,
        }
    }

    /// Which side leads: `Some(true)` for A, `Some(false)` for B, `None` on a
    /// tie or without vote counts.
    pub fn leading_side(&self) -> (r: Option<bool>)
        ensures
            match (self.animation_a_votes, self.animation_b_votes) {
                (Some(a), Some(b)) => r == if a > b {
                    Some(true)
                } else if a < b {
                    Some(false)
                } else {
                    None::<bool>
                },
                _ => r is None,
            },
    {
        match (self.animation_a_votes, self.animation_b_votes) {
            (Some(a), Some(b)) => if a > b {
                Some(true)
            } else if a < b {
                Some(false)
            } else {
                None
            },
            _ => None,
        }
    }

    /// A matchup of a freshly built bracket: not started, no poll.
    pub fn planned(p: &PlannedMatchup) -> (r: Matchup)
        ensures
            r.index == p.index,
            r.round == p.round,
            r.animation_a_id == p.animation_a_id,
            r.animation_b_id == p.animation_b_id,
            r.duration_secs == p.duration_secs,
            r.state == MatchupState::NotStarted,
            sides_differ(p.animation_a_id, p.animation_b_id) ==> matchup_shape_ok(r),
    {
        Matchup {
            index: p.index,
            round: p.round,
            animation_a_id: p.animation_a_id.clone(),
            animation_b_id: p.animation_b_id.clone(),
            state: MatchupState::NotStarted,
            poll_id: None,
            message_id: None,
            animation_a_votes: None,
            animation_b_votes: None,
            duration_secs: p.duration_secs,
            started_at: None,
            finished_at: None,
        }
    }
}

/// A matchup's poll has run its time: `now` is at or after its start plus its
/// duration.
pub open spec fn poll_expired(started_at: int, duration_secs: int, now: int) -> bool {
    now >= started_at + duration_secs * 1_000_000
}

/// A started matchup is decided: its time is up, it is not tied, and it drew
/// at least `min_votes` votes. Otherwise it stays open.
pub open spec fn decided(
    started_at: int,
    duration_secs: int,
    now: int,
    votes_a: int,
    votes_b: int,
    min_votes: int,
) -> bool {
    poll_expired(started_at, duration_secs, now) && votes_a != votes_b && votes_a + votes_b
        >= min_votes
}

/// Whether a started matchup is to be closed now.
pub fn matchup_decided(
    started_at: i64,
    duration_secs: i32,
    now: i64,
    votes_a: i32,
    votes_b: i32,
    min_votes: i16,
) -> (r: bool)
    ensures
        r == decided(
            started_at as int,
            duration_secs as int,
            now as int,
            votes_a as int,
            votes_b as int,
            min_votes as int,
        ),
{
    let expires: i128 = started_at as i128 + duration_secs as i128 * 1_000_000i128;
    now as i128 >= expires && votes_a != votes_b && votes_a as i64 + votes_b as i64
        >= min_votes as i64
}

/// What the scheduler reads of a started matchup and its tournament.
#[derive(Debug)]
pub struct StartedMatchupRow {
    pub tournament_id: String,
    pub index: i32,
    pub chat_id: i64,
    pub message_id: Option<i32>,
    pub duration_secs: i32,
    pub started_at: Option<i64>,
    pub animation_a_votes: Option<i32>,
    pub animation_b_votes: Option<i32>,
    pub min_votes: Option<i16>,
}

/// What the scheduler does with one started matchup on a tick.
#[derive(Debug, Clone, PartialEq, Eq)]
pub enum TickAction {
    /// The row lacks a column that a started matchup has.
    Integrity(String),
    /// Leave the poll open: not expired, tied, or short of votes.
    Wait,
    /// Close the poll with this message id and advance the bracket.
    Close(i32),
}

/// The scheduler's decision on a started matchup at time `now`.
pub fn tick_action(row: &StartedMatchupRow, now: i64) -> (r: TickAction)
    ensures
        (row.message_id is None || row.started_at is None || row.animation_a_votes is None
            || row.animation_b_votes is None || row.min_votes is None) <==> r is Integrity,
        r matches TickAction::Close(m) ==> row.message_id == Some(m),
        (row.message_id is Some && row.started_at is Some && row.animation_a_votes is Some
            && row.animation_b_votes is Some && row.min_votes is Some) ==> (r is Close <==> decided(
            row.started_at.unwrap() as int,
            row.duration_secs as int,
            now as int,
            row.animation_a_votes.unwrap() as int,
            row.animation_b_votes.unwrap() as int,
            row.min_votes.unwrap() as int,
        )),
{
    let message_id = match row.message_id {
        Some(m) => m,
        None => return TickAction::Integrity(
            String::from_str("missing message_id from started matchup"),
        ),
    };
    let started_at = match row.started_at {
        Some(s) => s,
        None => return TickAction::Integrity(
            String::from_str("missing started_at from started matchup"),
        ),
    };
    let votes_a = match row.animation_a_votes {
        Some(v) => v,
        None => return TickAction::Integrity(
            String::from_str("missing animation_a_votes from started matchup"),
        ),
    };
    let votes_b = match row.animation_b_votes {
        Some(v) => v,
        None => return TickAction::Integrity(
            String::from_str("missing animation_b_votes from started matchup"),
        ),
    };
    let min_votes = match row.min_votes {
        Some(v) => v,
        None => return TickAction::Integrity(
            String::from_str("missing min_votes from started tournament"),
        ),
    };
    if matchup_decided(started_at, row.duration_secs, now, votes_a, votes_b, min_votes) {
        TickAction::Close(message_id)
    } else {
        TickAction::Wait
    }
}

/// A tournament and its bracket.
#[derive(Debug)]
pub struct Tournament {
    pub state: TournamentState,
    pub rounds: Option<i16>,
    pub min_votes: Option<i16>,
    pub matchups: Vec<Matchup>,
}

pub open spec fn is_started(m: Matchup) -> bool {
    m.state == MatchupState::Started
}

/// The invariants of a tournament: the columns it sets follow its state,
/// every matchup keeps its row shape and sits at its own index, at most one
/// matchup is started, and one is exactly while voting.
pub open spec fn tournament_wf(t: Tournament) -> bool {
    let ms = t.matchups@;
    &&& match t.state {
        TournamentState::Submitting => t.rounds is None && t.min_votes is None && ms.len() == 0,
        TournamentState::Voting | TournamentState::Finished => t.rounds is Some
            && t.min_votes is Some,
        TournamentState::Aborted => true,
    }
    &&& ms.len() <= u32::MAX
    &&& forall|i: int|
        0 <= i < ms.len() ==> matchup_shape_ok(#[trigger] ms[i]) && ms[i].index == i
    &&& forall|i: int, j: int|
        0 <= i < ms.len() && 0 <= j < ms.len() && is_started(#[trigger] ms[i]) && is_started(
            #[trigger] ms[j],
        ) ==> i == j
    &&& t.state == TournamentState::Voting ==> exists|i: int|
        0 <= i < ms.len() && is_started(#[trigger] ms[i])
    &&& t.state != TournamentState::Voting ==> forall|i: int|
        0 <= i < ms.len() ==> !is_started(#[trigger] ms[i])
}

#[derive(Debug, Clone, PartialEq, Eq)]
pub enum AdvanceMatchupError {
    /// Promoting the next round failed.
    CalculateNewRoundMatchupsError(CalculateNewRoundMatchupsError),
    /// The tournament breaks one of its invariants.
    DbIntegrityError(String),
    /// The ended matchup is tied.
    EqualVotes,
    /// No matchup has the given index.
    MatchupNotFound,
    /// The next matchup lacks an animation.
    MissingAnimationId,
    /// The tournament is not in the state the transition starts from.
    WrongState,
    /// The ended matchup was the final; the tournament finishes instead.
    NoNextMatchup,
    /// The ended matchup was not the final; the bracket advances instead.
    NotFinal,
}

/// The side of a matchup with more votes; `None` on a tie.
pub open spec fn leader(m: Matchup) -> Option<String> {
    if m.animation_a_votes.unwrap() > m.animation_b_votes.unwrap() {
        m.animation_a_id
    } else if m.animation_a_votes.unwrap() < m.animation_b_votes.unwrap() {
        m.animation_b_id
    } else {
        None
    }
}

/// What follows the end of a matchup.
#[derive(Debug, Clone, PartialEq, Eq)]
pub enum AdvancePlan {
    /// It was the final: this animation wins the tournament.
    Finish(String),
    /// Matchup `index` is next, between these two animations; `pairings`
    /// fills the round it opens (empty when it continues a round).
    Next { index: usize, animation_a_id: String, animation_b_id: String, pairings: Vec<RoundPairing> },
}

/// Matchup `m` has a winner: both sides and both counts are set, and the
/// counts differ.
pub open spec fn has_leader(m: Matchup) -> bool {
    &&& m.animation_a_id is Some
    &&& m.animation_b_id is Some
    &&& m.animation_a_votes is Some
    &&& m.animation_b_votes is Some
    &&& m.animation_a_votes.unwrap() != m.animation_b_votes.unwrap()
}

/// Matchup `m`, at index `i`, as a feeder of the next round.
pub open spec fn as_feeder(m: Matchup, i: int) -> FeederMatchup {
    FeederMatchup {
        index: i as i32,
        animation_a_id: m.animation_a_id,
        animation_b_id: m.animation_b_id,
        animation_a_votes: m.animation_a_votes,
        animation_b_votes: m.animation_b_votes,
    }
}

/// The matchup after `ended` exists and belongs to a later (lower-numbered)
/// round.
pub open spec fn opens_round(t: Tournament, ended: int) -> bool {
    &&& 0 <= ended
    &&& ended + 1 < t.matchups@.len()
    &&& t.matchups@[ended + 1].round < t.matchups@[ended].round
}

/// The tournament's number of rounds.
pub open spec fn total_rounds(t: Tournament) -> nat {
    t.rounds.unwrap() as nat
}

/// The round of the matchup after `ended`.
pub open spec fn next_round(t: Tournament, ended: int) -> nat {
    t.matchups@[ended + 1].round as nat
}

/// The round opened after `ended` can be filled: the bracket is laid out as
/// built, the round fits, and every matchup of the round before has a winner.
pub open spec fn promotion_ready(t: Tournament, ended: int) -> bool {
    let big_r = total_rounds(t);
    let r = next_round(t, ended);
    &&& t.rounds is Some
    &&& 1 <= t.matchups@[ended + 1].round < t.rounds.unwrap() <= 31
    &&& ended + 1 == round_start(big_r, r)
    &&& round_start(big_r, r) + pow2((r - 1) as nat) <= t.matchups@.len()
    &&& forall|k: int|
        round_start(big_r, r + 1) <= k < round_start(big_r, r) ==> has_leader(
            #[trigger] t.matchups@[k],
        )
}

/// The animations that round promotion gives matchup `k`, when the matchup
/// after `ended` opens a round and `k` belongs to it: the winners of matchups
/// `prev + 2j` and `prev + 2j + 1`, where `j` is `k`'s place in its round and
/// `prev` the first index of the round before.
pub open spec fn promoted_ids(t: Tournament, ended: int, k: int) -> Option<(String, String)> {
    let big_r = total_rounds(t);
    let r = next_round(t, ended);
    let start = round_start(big_r, r);
    let prev = round_start(big_r, r + 1);
    if opens_round(t, ended) && t.rounds is Some && start <= k < start + pow2((r - 1) as nat) {
        let j = k - start;
        Some(
            (
                leader(t.matchups@[prev + 2 * j]).unwrap(),
                leader(t.matchups@[prev + 2 * j + 1]).unwrap(),
            ),
        )
    } else {
        None
    }
}

/// Matchup `k` after `ended` closes and the next one starts with this poll:
/// the ended one is finished, the round that opens (if any) gets its
/// pairings, the next one is started, and every other matchup is kept.
pub open spec fn advanced(
    t: Tournament,
    ended: int,
    k: int,
    poll_id: String,
    message_id: i32,
    now: i64,
) -> Matchup {
    let m = t.matchups@[k];
    let filled = match promoted_ids(t, ended, k) {
        Some((a, b)) => Matchup { animation_a_id: Some(a), animation_b_id: Some(b), ..m },
        None => m,
    };
    if k == ended {
        Matchup { state: MatchupState::Finished, finished_at: Some(now), ..m }
    } else if k == ended + 1 {
        Matchup {
            state: MatchupState::Started,
            poll_id: Some(poll_id),
            message_id: Some(message_id),
            animation_a_votes: Some(0i32),
            animation_b_votes: Some(0i32),
            started_at: Some(now),
            ..filled
        }
    } else {
        filled
    }
}

/// Rows read from matchups `lo..lo+n` give, for each of those indices, the
/// winner of that matchup.
proof fn lemma_feeder_rows(ms: Seq<Matchup>, lo: int, n: int, rows: Seq<FeederMatchup>, idx: int)
    requires
        0 <= lo,
        lo + n <= ms.len(),
        lo + n <= 2147483648,
        rows == Seq::new(n as nat, |i: int| as_feeder(ms[lo + i], lo + i)),
        lo <= idx < lo + n,
        is_complete(rows[idx - lo]),
    ensures
        feeder_winner(rows, idx) == leader(ms[idx]),
{
    assert(first_at(rows, idx, idx - lo));
    let c = choose|p: int| first_at(rows, idx, p);
    assert(c == idx - lo);
}

impl Tournament {
    /// A tournament that has just opened for submissions.
    pub fn new() -> (r: Tournament)
        ensures
            tournament_wf(r),
            r.state == TournamentState::Submitting,
    {
        Tournament {
            state: TournamentState::Submitting,
            rounds: None,
            min_votes: None,
            matchups: Vec::new(),
        }
    }

    /// Closes submissions: installs the bracket and starts its first matchup
    /// with the poll that was sent for it.
    pub fn begin_voting(
        &mut self,
        rounds: i16,
        min_votes: i16,
        bracket: &Vec<PlannedMatchup>,
        poll_id: String,
        message_id: i32,
        now: i64,
    ) -> (r: Result<(), AdvanceMatchupError>)
        requires
            tournament_wf(*old(self)),
        ensures
            tournament_wf(*final(self)),
            old(self).state != TournamentState::Submitting ==> r == Err::<(), _>(
                AdvanceMatchupError::WrongState,
            ),
            r is Err ==> *final(self) == *old(self),
            old(self).state == TournamentState::Submitting && bracket@.len() > 0 && bracket@.len()
                <= u32::MAX && bracket@[0].animation_a_id is Some
                && bracket@[0].animation_b_id is Some && (forall|k: int|
                0 <= k < bracket@.len() ==> (#[trigger] bracket@[k]).index == k && sides_differ(
                    bracket@[k].animation_a_id,
                    bracket@[k].animation_b_id,
                )) ==> r is Ok,
            r is Ok ==> {
                let ms = final(self).matchups@;
                &&& final(self).state == TournamentState::Voting
                &&& final(self).rounds == Some(rounds)
                &&& final(self).min_votes == Some(min_votes)
                &&& ms.len() == bracket@.len()
                &&& ms[0].state == MatchupState::Started
                &&& ms[0].poll_id == Some(poll_id)
                &&& ms[0].message_id == Some(message_id)
                &&& ms[0].animation_a_votes == Some(0i32)
                &&& ms[0].animation_b_votes == Some(0i32)
                &&& ms[0].started_at == Some(now)
                &&& forall|k: int|
                    0 <= k < ms.len() ==> {
                        &&& (#[trigger] ms[k]).round == bracket@[k].round
                        &&& ms[k].animation_a_id == bracket@[k].animation_a_id
                        &&& ms[k].animation_b_id == bracket@[k].animation_b_id
                        &&& ms[k].duration_secs == bracket@[k].duration_secs
                        &&& (k > 0 ==> ms[k].state == MatchupState::NotStarted)
                    }
            },
    {
        match self.state {
            TournamentState::Submitting => {},
            _ => return Err(AdvanceMatchupError::WrongState),
        }
        if bracket.len() == 0 || bracket.len() > 4294967295usize || bracket[0].animation_a_id.is_none()
            || bracket[0].animation_b_id.is_none() {
            return Err(AdvanceMatchupError::DbIntegrityError(String::from_str("invalid bracket")));
        }
        let mut ms: Vec<Matchup> = Vec::new();
        let mut k: usize = 0;
        while k < bracket.len()
            invariant
                *self == *old(self),
                tournament_wf(*old(self)),
                old(self).state == TournamentState::Submitting,
                k <= bracket@.len() <= u32::MAX,
                bracket@.len() > 0,
                bracket@[0].animation_a_id is Some,
                bracket@[0].animation_b_id is Some,
                ms@.len() == k,
                forall|i: int|
                    0 <= i < k ==> {
                        &&& matchup_shape_ok(#[trigger] ms@[i])
                        &&& ms@[i].index == i
                        &&& ms@[i].round == bracket@[i].round
                        &&& ms@[i].animation_a_id == bracket@[i].animation_a_id
                        &&& ms@[i].animation_b_id == bracket@[i].animation_b_id
                        &&& ms@[i].duration_secs == bracket@[i].duration_secs
                        &&& (i > 0 ==> ms@[i].state == MatchupState::NotStarted)
                        &&& (i == 0 ==> {
                            &&& ms@[i].state == MatchupState::Started
                            &&& ms@[i].poll_id == Some(poll_id)
                            &&& ms@[i].message_id == Some(message_id)
                            &&& ms@[i].animation_a_votes == Some(0i32)
                            &&& ms@[i].animation_b_votes == Some(0i32)
                            &&& ms@[i].started_at == Some(now)
                        })
                    },
            decreases bracket@.len() - k,
        {
            let p = &bracket[k];
            if p.index as usize != k {
                return Err(
                    AdvanceMatchupError::DbIntegrityError(String::from_str("bracket index out of order")),
                );
            }
            let same = match (&p.animation_a_id, &p.animation_b_id) {
                (Some(a), Some(b)) => *a == *b,
                _ => false,
            };
            if same {
                return Err(
                    AdvanceMatchupError::DbIntegrityError(String::from_str("matchup sides are equal")),
                );
            }
            let mut m = Matchup::planned(p);
            if k == 0 {
                m.state = MatchupState::Started;
                m.poll_id = Some(poll_id.clone());
                m.message_id = Some(message_id);
                m.animation_a_votes = Some(0);
                m.animation_b_votes = Some(0);
                m.started_at = Some(now);
            }
            ms.push(m);
            k = k + 1;
        }
        self.state = TournamentState::Voting;
        self.rounds = Some(rounds);
        self.min_votes = Some(min_votes);
        self.matchups = ms;
        proof {
            let fm = final(self).matchups@;
            assert(is_started(fm[0]));
            assert forall|i: int, j: int|
                0 <= i < fm.len() && 0 <= j < fm.len() && is_started(#[trigger] fm[i])
                    && is_started(#[trigger] fm[j]) implies i == j by {
                assert(i == 0 && j == 0);
            }
        }
        Ok(())
    }

    /// What follows the end of matchup `ended`: the tournament's winner if it
    /// was the final, else the next matchup and, when that opens a new round,
    /// the pairings of that round from the winners of the round before.
    pub fn plan_advance(&self, ended: usize) -> (r: Result<AdvancePlan, AdvanceMatchupError>)
        requires
            tournament_wf(*self),
        ensures
            self.state != TournamentState::Voting ==> r == Err::<AdvancePlan, _>(
                AdvanceMatchupError::WrongState,
            ),
            self.state == TournamentState::Voting && ended >= self.matchups@.len() ==> r == Err::<
                AdvancePlan,
                _,
            >(AdvanceMatchupError::MatchupNotFound),
            self.state == TournamentState::Voting && ended < self.matchups@.len() && is_started(
                self.matchups@[ended as int],
            ) && leader(self.matchups@[ended as int]) is None ==> r == Err::<AdvancePlan, _>(
                AdvanceMatchupError::EqualVotes,
            ),
            self.state == TournamentState::Voting && ended < self.matchups@.len() && !is_started(
                self.matchups@[ended as int],
            ) ==> r is Err,
            self.state == TournamentState::Voting && ended + 1 == self.matchups@.len() && is_started(
                self.matchups@[ended as int],
            ) && leader(self.matchups@[ended as int]) is Some ==> r == Ok::<_, AdvanceMatchupError>(
                AdvancePlan::Finish(leader(self.matchups@[ended as int]).unwrap()),
            ),
            self.plan_advance_ok(ended) && self.matchups@[ended + 1].round
                > self.matchups@[ended as int].round ==> (r matches Err(
                AdvanceMatchupError::DbIntegrityError(_),
            )),
            self.plan_advance_ok(ended) && self.matchups@[ended + 1].round
                == self.matchups@[ended as int].round && self.matchups@[ended + 1].animation_a_id is Some
                && self.matchups@[ended + 1].animation_b_id is Some ==> (r matches Ok(
                AdvancePlan::Next { index, animation_a_id, animation_b_id, pairings },
            ) && index == ended + 1 && pairings@.len() == 0),
            self.plan_advance_ok(ended) && opens_round(*self, ended as int) && promotion_ready(
                *self,
                ended as int,
            ) ==> (r matches Ok(AdvancePlan::Next { index, .. }) && index == ended + 1),
            r matches Ok(AdvancePlan::Finish(w)) ==> ended + 1 == self.matchups@.len() && Some(w)
                == leader(self.matchups@[ended as int]) && is_started(self.matchups@[ended as int]),
            r matches Ok(AdvancePlan::Next { index, animation_a_id, animation_b_id, pairings }) ==> {
                &&& index == ended + 1
                &&& index < self.matchups@.len()
                &&& is_started(self.matchups@[ended as int])
                &&& leader(self.matchups@[ended as int]) is Some
                &&& self.matchups@[index as int].round <= self.matchups@[ended as int].round
                &&& !opens_round(*self, ended as int) ==> pairings@.len() == 0
                &&& pairings@.len() == 0 ==> self.matchups@[index as int].animation_a_id == Some(
                    animation_a_id,
                ) && self.matchups@[index as int].animation_b_id == Some(animation_b_id)
                &&& pairings@.len() > 0 ==> pairings@[0].index == index && pairings@[0].animation_a_id
                    == animation_a_id && pairings@[0].animation_b_id == animation_b_id
                &&& opens_round(*self, ended as int) ==> {
                    let big_r = total_rounds(*self);
        let rr = next_round(*self, ended as int);
                    let start = round_start(big_r, rr);
                    let prev = round_start(big_r, rr + 1);
                    &&& self.rounds is Some
                    &&& 1 <= rr < big_r <= 31
                    &&& index == start
                    &&& pairings@.len() == pow2((rr - 1) as nat)
                    &&& start + pairings@.len() <= self.matchups@.len()
                    &&& forall|j: int|
                        0 <= j < pairings@.len() ==> {
                            &&& (#[trigger] pairings@[j]).index == start + j
                            &&& Some(pairings@[j].animation_a_id) == leader(
                                self.matchups@[prev + 2 * j],
                            )
                            &&& Some(pairings@[j].animation_b_id) == leader(
                                self.matchups@[prev + 2 * j + 1],
                            )
                        }
                }
            },
    {
        match self.state {
            TournamentState::Voting => {},
            _ => return Err(AdvanceMatchupError::WrongState),
        }
        let len = self.matchups.len();
        if ended >= len {
            return Err(AdvanceMatchupError::MatchupNotFound);
        }
        let e = &self.matchups[ended];
        match e.state {
            MatchupState::Started => {},
            _ => return Err(
                AdvanceMatchupError::DbIntegrityError(String::from_str("ended matchup is not started")),
            ),
        }
        let va = *e.animation_a_votes.as_ref().unwrap();
        let vb = *e.animation_b_votes.as_ref().unwrap();
        if va == vb {
            return Err(AdvanceMatchupError::EqualVotes);
        }
        let winner = if va > vb {
            e.animation_a_id.clone().unwrap()
        } else {
            e.animation_b_id.clone().unwrap()
        };
        if ended + 1 == len {
            return Ok(AdvancePlan::Finish(winner));
        }
        let n = &self.matchups[ended + 1];
        if n.round > e.round {
            return Err(
                AdvanceMatchupError::DbIntegrityError(
                    String::from_str("ended matchup round is less than new matchup round"),
                ),
            );
        }
        if n.round == e.round {
            return match (&n.animation_a_id, &n.animation_b_id) {
                (Some(a), Some(b)) => Ok(
                    AdvancePlan::Next {
                        index: ended + 1,
                        animation_a_id: a.clone(),
                        animation_b_id: b.clone(),
                        pairings: Vec::new(),
                    },
                ),
                _ => Err(AdvanceMatchupError::MissingAnimationId),
            };
        }
        let ghost t = *self;
        let ghost big_r = total_rounds(t);
        let ghost rr = next_round(t, ended as int);
        let rounds: i16 = *self.rounds.as_ref().unwrap();
        if n.round > 32767 {
            return Err(AdvanceMatchupError::DbIntegrityError(String::from_str("invalid round")));
        }
        let round = n.round as i16;
        let (lo, hi) = match feeder_range(rounds, round) {
            Ok(range) => range,
            Err(err) => return Err(AdvanceMatchupError::CalculateNewRoundMatchupsError(err)),
        };
        proof {
            reveal_with_fuel(pow2, 2);
            crate::bracket::lemma_pow2_positive(rr);
            if promotion_ready(t, ended as int) {
                assert(pow2(rr + 1) == 2 * pow2(rr));
                assert(pow2(rr) == 2 * pow2((rr - 1) as nat));
                crate::bracket::lemma_pow2_monotone(rr + 1, big_r);
                crate::bracket::lemma_pow2_bounds_pub(big_r);
            }
        }
        if hi as usize >= len || lo > hi || hi > 2147483647 {
            return Err(
                AdvanceMatchupError::DbIntegrityError(String::from_str("missing feeder matchups")),
            );
        }
        let mut rows: Vec<FeederMatchup> = Vec::new();
        let mut k: usize = lo as usize;
        while k <= hi as usize
            invariant
                lo <= hi,
                hi < len,
                hi <= 2147483647,
                len == self.matchups@.len(),
                lo <= k <= hi + 1,
                rows@ =~= Seq::new((k - lo) as nat, |i: int| as_feeder(self.matchups@[lo + i], lo + i)),
            decreases hi + 1 - k,
        {
            let m = &self.matchups[k];
            rows.push(
                FeederMatchup {
                    index: k as i32,
                    animation_a_id: m.animation_a_id.clone(),
                    animation_b_id: m.animation_b_id.clone(),
                    animation_a_votes: m.animation_a_votes,
                    animation_b_votes: m.animation_b_votes,
                },
            );
            k = k + 1;
        }
        let ghost n_rows = (hi - lo + 1) as int;
        proof {
            if promotion_ready(t, ended as int) {
                assert forall|q: int| 0 <= q < rows@.len() implies is_complete(#[trigger] rows@[q]) by {
                    assert(has_leader(self.matchups@[lo + q]));
                }
                assert forall|j: int| 0 <= j < pow2((rr - 1) as nat) implies {
                    &&& #[trigger] feeder_winner(rows@, round_start(big_r, rr + 1) + 2 * j) is Some
                    &&& feeder_winner(rows@, round_start(big_r, rr + 1) + 2 * j + 1) is Some
                } by {
                    let i1 = round_start(big_r, rr + 1) + 2 * j;
                    assert(has_leader(self.matchups@[i1]));
                    assert(has_leader(self.matchups@[i1 + 1]));
                    lemma_feeder_rows(self.matchups@, lo as int, n_rows, rows@, i1);
                    lemma_feeder_rows(self.matchups@, lo as int, n_rows, rows@, i1 + 1);
                }
            }
        }
        let pairings = match promote_round(&rows, rounds, round) {
            Ok(p) => p,
            Err(err) => return Err(AdvanceMatchupError::CalculateNewRoundMatchupsError(err)),
        };
        if pairings.len() == 0 || pairings[0].index as usize != ended + 1 || pairings.len() >= len
            - ended {
            return Err(
                AdvanceMatchupError::DbIntegrityError(String::from_str("promoted round is misplaced")),
            );
        }
        proof {
            assert(forall|q: int| 0 <= q < rows@.len() ==> is_complete(#[trigger] rows@[q]));
            assert forall|j: int| 0 <= j < pairings@.len() implies {
                &&& Some((#[trigger] pairings@[j]).animation_a_id) == leader(
                    self.matchups@[round_start(big_r, rr + 1) + 2 * j],
                )
                &&& Some(pairings@[j].animation_b_id) == leader(
                    self.matchups@[round_start(big_r, rr + 1) + 2 * j + 1],
                )
            } by {
                let i1 = round_start(big_r, rr + 1) + 2 * j;
                lemma_feeder_rows(self.matchups@, lo as int, n_rows, rows@, i1);
                lemma_feeder_rows(self.matchups@, lo as int, n_rows, rows@, i1 + 1);
            }
        }
        let a = pairings[0].animation_a_id.clone();
        let b = pairings[0].animation_b_id.clone();
        Ok(AdvancePlan::Next { index: ended + 1, animation_a_id: a, animation_b_id: b, pairings })
    }

    /// The facts that `plan_advance(ended)` gives about its pairings.
    #[verifier::opaque]
    pub open spec fn pairings_fit(&self, ended: usize, pairings: Seq<RoundPairing>) -> bool {
        let big_r = total_rounds(*self);
        let rr = next_round(*self, ended as int);
        let start = round_start(big_r, rr);
        let prev = round_start(big_r, rr + 1);
        &&& !opens_round(*self, ended as int) ==> pairings.len() == 0
        &&& opens_round(*self, ended as int) ==> {
            &&& self.rounds is Some
            &&& 1 <= rr < big_r <= 31
            &&& ended + 1 == start
            &&& pairings.len() == pow2((rr - 1) as nat)
            &&& start + pairings.len() <= self.matchups@.len()
            &&& forall|j: int|
                0 <= j < pairings.len() ==> {
                    &&& (#[trigger] pairings[j]).index == start + j
                    &&& Some(pairings[j].animation_a_id) == leader(self.matchups@[prev + 2 * j])
                    &&& Some(pairings[j].animation_b_id) == leader(
                        self.matchups@[prev + 2 * j + 1],
                    )
                }
        }
    }

    /// A pairing for matchup `k` gives it the animations round promotion
    /// owes it; where none is, promotion owes it nothing.
    proof fn lemma_lookup(&self, ended: usize, pairings: Seq<RoundPairing>, k: int, p: int)
        requires
            self.plan_advance_ok(ended),
            self.pairings_fit(ended, pairings),
            0 <= k < self.matchups@.len(),
            (0 <= p < pairings.len() && pairings[p].index == k) || (p == pairings.len() && forall|q: int|
                0 <= q < pairings.len() ==> #[trigger] pairings[q].index != k),
        ensures
            p < pairings.len() ==> promoted_ids(*self, ended as int, k) == Some(
                (pairings[p].animation_a_id, pairings[p].animation_b_id),
            ),
            p == pairings.len() ==> promoted_ids(*self, ended as int, k) is None,
            p < pairings.len() ==> k == ended + 1 + p,
            opens_round(*self, ended as int) && k == ended + 1 ==> p < pairings.len(),
    {
        reveal(Tournament::pairings_fit);
        let big_r = total_rounds(*self);
        let rr = next_round(*self, ended as int);
        let start = round_start(big_r, rr);
        if p < pairings.len() {
            assert(opens_round(*self, ended as int));
            assert(pairings[p].index == start + p);
        } else if opens_round(*self, ended as int) && start <= k < start + pairings.len() {
            assert(pairings[k - start].index == k);
        }
        if opens_round(*self, ended as int) && k == ended + 1 {
            crate::bracket::lemma_pow2_positive((rr - 1) as nat);
            if p == pairings.len() {
                assert(pairings[0].index == k);
            }
        }
    }

    /// Readiness to advance meets the conditions on which `plan_advance`
    /// owes a next matchup.
    proof fn lemma_ready_plan(&self, ended: usize)
        requires
            self.advance_ready(ended),
        ensures
            self.plan_advance_ok(ended),
            opens_round(*self, ended as int) ==> promotion_ready(*self, ended as int),
            !opens_round(*self, ended as int) ==> self.matchups@[ended + 1].round
                == self.matchups@[ended as int].round && self.matchups@[ended + 1].animation_a_id is Some
                && self.matchups@[ended + 1].animation_b_id is Some,
    {
        reveal(Tournament::advance_ready);
    }

    /// What readiness to advance says about matchup `k`.
    proof fn lemma_ready(&self, ended: usize, pairings: Seq<RoundPairing>, k: int, p: int)
        requires
            self.advance_ready(ended),
            self.pairings_fit(ended, pairings),
            0 <= k < self.matchups@.len(),
            0 <= p < pairings.len() ==> pairings[p].index == k && promoted_ids(*self, ended as int, k)
                == Some((pairings[p].animation_a_id, pairings[p].animation_b_id)),
        ensures
            self.matchups@[ended + 1].state == MatchupState::NotStarted,
            !opens_round(*self, ended as int) ==> self.matchups@[ended + 1].animation_a_id is Some
                && self.matchups@[ended + 1].animation_b_id is Some,
            0 <= p < pairings.len() ==> self.matchups@[k].state == MatchupState::NotStarted
                && pairings[p].animation_a_id@ != pairings[p].animation_b_id@,
    {
        reveal(Tournament::pairings_fit);
        reveal(Tournament::advance_ready);
        let big_r = total_rounds(*self);
        let rr = next_round(*self, ended as int);
        let start = round_start(big_r, rr);
        let prev = round_start(big_r, rr + 1);
        if 0 <= p < pairings.len() {
            assert(opens_round(*self, ended as int));
            assert(pairings[p].index == start + p);
            assert(self.matchups@[start + p].state == MatchupState::NotStarted);
            assert(Some(pairings[p].animation_a_id) == leader(self.matchups@[prev + 2 * p]));
            assert(Some(pairings[p].animation_b_id) == leader(self.matchups@[prev + 2 * p + 1]));
        }
    }

    /// Matchup `k` once the bracket has advanced past `ended`.
    fn advanced_at(
        &self,
        ended: usize,
        k: usize,
        pairings: &Vec<RoundPairing>,
        poll_id: &String,
        message_id: i32,
        now: i64,
    ) -> (r: Result<Matchup, AdvanceMatchupError>)
        requires
            tournament_wf(*self),
            self.plan_advance_ok(ended),
            self.pairings_fit(ended, pairings@),
            k < self.matchups@.len(),
        ensures
            r matches Ok(m) ==> {
                &&& m == advanced(*self, ended as int, k as int, *poll_id, message_id, now)
                &&& matchup_shape_ok(m)
                &&& m.index == k
                &&& (is_started(m) <==> k == ended + 1)
            },
            self.advance_ready(ended) ==> r is Ok,
    {
        let next = ended + 1;
        let mut m = self.matchups[k].copy();
        assert(matchup_shape_ok(m) && m.index == k);
        if k == ended {
            m.state = MatchupState::Finished;
            m.finished_at = Some(now);
            return Ok(m);
        }
        assert(!is_started(m));
        let mut p: usize = 0;
        while p < pairings.len() && pairings[p].index as usize != k
            invariant
                p <= pairings@.len(),
                forall|q: int| 0 <= q < p ==> (#[trigger] pairings@[q]).index != k,
            decreases pairings@.len() - p,
        {
            p = p + 1;
        }
        proof {
            self.lemma_lookup(ended, pairings@, k as int, p as int);
            if self.advance_ready(ended) {
                self.lemma_ready(ended, pairings@, k as int, p as int);
            }
        }
        if p < pairings.len() {
            match m.state {
                MatchupState::NotStarted => {},
                _ => return Err(
                    AdvanceMatchupError::DbIntegrityError(
                        String::from_str("promoted matchup has already started"),
                    ),
                ),
            }
            if pairings[p].animation_a_id == pairings[p].animation_b_id {
                return Err(
                    AdvanceMatchupError::DbIntegrityError(
                        String::from_str("promoted matchup sides are equal"),
                    ),
                );
            }
            m.animation_a_id = Some(pairings[p].animation_a_id.clone());
            m.animation_b_id = Some(pairings[p].animation_b_id.clone());
        }
        if k == next {
            match m.state {
                MatchupState::NotStarted => {},
                _ => return Err(
                    AdvanceMatchupError::DbIntegrityError(
                        String::from_str("next matchup has already run"),
                    ),
                ),
            }
            if m.animation_a_id.is_none() || m.animation_b_id.is_none() {
                return Err(AdvanceMatchupError::MissingAnimationId);
            }
            m.state = MatchupState::Started;
            m.poll_id = Some(poll_id.clone());
            m.message_id = Some(message_id);
            m.animation_a_votes = Some(0);
            m.animation_b_votes = Some(0);
            m.started_at = Some(now);
        }
        Ok(m)
    }

    /// Closes matchup `ended` and starts the next one with the poll that was
    /// sent for it, first filling the round it opens.
    pub fn advance_to_next(
        &mut self,
        ended: usize,
        poll_id: String,
        message_id: i32,
        now: i64,
    ) -> (r: Result<(), AdvanceMatchupError>)
        requires
            tournament_wf(*old(self)),
        ensures
            tournament_wf(*final(self)),
            r is Err ==> *final(self) == *old(self),
            old(self).advance_ready(ended) ==> r is Ok,
            old(self).plan_advance_ok(ended) && old(self).matchups@[ended + 1].round > old(
                self,
            ).matchups@[ended as int].round ==> (r matches Err(
                AdvanceMatchupError::DbIntegrityError(_),
            )),
            r is Ok ==> {
                &&& old(self).plan_advance_ok(ended)
                &&& final(self).state == TournamentState::Voting
                &&& final(self).rounds == old(self).rounds
                &&& final(self).min_votes == old(self).min_votes
                &&& final(self).matchups@.len() == old(self).matchups@.len()
                &&& forall|k: int|
                    0 <= k < final(self).matchups@.len() ==> #[trigger] final(self).matchups@[k]
                        == advanced(*old(self), ended as int, k, poll_id, message_id, now)
            },
    {
        proof {
            if self.advance_ready(ended) {
                self.lemma_ready_plan(ended);
            }
        }
        let plan = match self.plan_advance(ended) {
            Ok(p) => p,
            Err(err) => return Err(err),
        };
        let pairings = match plan {
            AdvancePlan::Finish(_) => return Err(AdvanceMatchupError::NoNextMatchup),
            AdvancePlan::Next { index: _, animation_a_id: _, animation_b_id: _, pairings } => pairings,
        };
        proof {
            reveal(Tournament::pairings_fit);
        }
        let len = self.matchups.len();
        let next = ended + 1;
        let mut out: Vec<Matchup> = Vec::new();
        let mut k: usize = 0;
        while k < len
            invariant
                *self == *old(self),
                tournament_wf(*self),
                self.plan_advance_ok(ended),
                self.pairings_fit(ended, pairings@),
                self.matchups@[ended + 1].round <= self.matchups@[ended as int].round,
                len == self.matchups@.len(),
                next == ended + 1,
                k <= len,
                out@.len() == k,
                forall|i: int|
                    0 <= i < k ==> {
                        &&& matchup_shape_ok(#[trigger] out@[i])
                        &&& out@[i].index == i
                        &&& (is_started(out@[i]) <==> i == next)
                        &&& out@[i] == advanced(*self, ended as int, i, poll_id, message_id, now)
                    },
            decreases len - k,
        {
            let m = match self.advanced_at(ended, k, &pairings, &poll_id, message_id, now) {
                Ok(m) => m,
                Err(err) => return Err(err),
            };
            out.push(m);
            k = k + 1;
        }
        self.matchups = out;
        proof {
            let fm = final(self).matchups@;
            assert(is_started(fm[next as int]));
        }
        Ok(())
    }

    /// Whether `plan_advance(ended)` leads to a next matchup.
    pub open spec fn plan_advance_ok(&self, ended: usize) -> bool {
        &&& self.state == TournamentState::Voting
        &&& ended + 1 < self.matchups@.len()
        &&& is_started(self.matchups@[ended as int])
        &&& leader(self.matchups@[ended as int]) is Some
    }

    /// The bracket can advance past `ended`: the next matchup has not run
    /// and either continues the round with both animations set, or opens a
    /// round that can be filled, whose matchups have not run and whose
    /// pairings are of two different animations.
    #[verifier::opaque]
    pub open spec fn advance_ready(&self, ended: usize) -> bool {
        let big_r = total_rounds(*self);
        let rr = next_round(*self, ended as int);
        let start = round_start(big_r, rr);
        let prev = round_start(big_r, rr + 1);
        &&& self.plan_advance_ok(ended)
        &&& self.matchups@[ended + 1].state == MatchupState::NotStarted
        &&& if opens_round(*self, ended as int) {
            &&& promotion_ready(*self, ended as int)
            &&& forall|j: int|
                0 <= j < pow2((rr - 1) as nat) ==> (#[trigger] self.matchups@[start + j]).state
                    == MatchupState::NotStarted && leader(self.matchups@[prev + 2 * j]).unwrap()@
                    != leader(self.matchups@[prev + 2 * j + 1]).unwrap()@
        } else {
            &&& self.matchups@[ended + 1].round == self.matchups@[ended as int].round
            &&& self.matchups@[ended + 1].animation_a_id is Some
            &&& self.matchups@[ended + 1].animation_b_id is Some
        }
    }

    /// Closes the final and finishes the tournament; returns the winner.
    pub fn finish(&mut self, ended: usize, now: i64) -> (r: Result<String, AdvanceMatchupError>)
        requires
            tournament_wf(*old(self)),
        ensures
            tournament_wf(*final(self)),
            r is Err ==> *final(self) == *old(self),
            old(self).state == TournamentState::Voting && ended + 1 == old(self).matchups@.len()
                && is_started(old(self).matchups@[ended as int]) && leader(
                old(self).matchups@[ended as int],
            ) is Some ==> r == Ok::<_, AdvanceMatchupError>(
                leader(old(self).matchups@[ended as int]).unwrap(),
            ),
            old(self).state == TournamentState::Voting && ended + 1 == old(self).matchups@.len()
                && is_started(old(self).matchups@[ended as int]) && leader(
                old(self).matchups@[ended as int],
            ) is None ==> r == Err::<String, _>(AdvanceMatchupError::EqualVotes),
            r is Ok ==> {
                &&& final(self).state == TournamentState::Finished
                &&& final(self).matchups@.len() == old(self).matchups@.len()
                &&& final(self).matchups@[ended as int].state == MatchupState::Finished
                &&& final(self).matchups@[ended as int].finished_at == Some(now)
            },
    {
        let winner = match self.plan_advance(ended) {
            Ok(AdvancePlan::Finish(w)) => w,
            Ok(AdvancePlan::Next { .. }) => return Err(AdvanceMatchupError::NotFinal),
            Err(err) => return Err(err),
        };
        let len = self.matchups.len();
        let mut out: Vec<Matchup> = Vec::new();
        let mut k: usize = 0;
        while k < len
            invariant
                *self == *old(self),
                tournament_wf(*old(self)),
                len == self.matchups@.len(),
                ended < len,
                is_started(self.matchups@[ended as int]),
                k <= len,
                out@.len() == k,
                forall|i: int|
                    0 <= i < k ==> {
                        &&& matchup_shape_ok(#[trigger] out@[i])
                        &&& out@[i].index == i
                        &&& !is_started(out@[i])
                        &&& (i == ended ==> out@[i].state == MatchupState::Finished
                            && out@[i].finished_at == Some(now))
                    },
            decreases len - k,
        {
            let mut m = self.matchups[k].copy();
            assert(matchup_shape_ok(m) && m.index == k);
            if k == ended {
                m.state = MatchupState::Finished;
                m.finished_at = Some(now);
            } else {
                assert(!is_started(m));
            }
            out.push(m);
            k = k + 1;
        }
        self.matchups = out;
        self.state = TournamentState::Finished;
        Ok(winner)
    }

    /// Aborts an active tournament; a started matchup is aborted with it.
    /// Returns whether a matchup was aborted.
    pub fn abort(&mut self) -> (r: Result<bool, AdvanceMatchupError>)
        requires
            tournament_wf(*old(self)),
        ensures
            tournament_wf(*final(self)),
            (old(self).state == TournamentState::Submitting || old(self).state
                == TournamentState::Voting) <==> r is Ok,
            r is Err ==> *final(self) == *old(self),
            r is Ok ==> {
                &&& final(self).state == TournamentState::Aborted
                &&& final(self).rounds == old(self).rounds
                &&& final(self).min_votes == old(self).min_votes
                &&& final(self).matchups@.len() == old(self).matchups@.len()
                &&& forall|i: int|
                    0 <= i < final(self).matchups@.len() ==> #[trigger] final(self).matchups@[i]
                        == if is_started(old(self).matchups@[i]) {
                        Matchup { state: MatchupState::Aborted, ..old(self).matchups@[i] }
                    } else {
                        old(self).matchups@[i]
                    }
            },
            r == Ok::<bool, AdvanceMatchupError>(true) <==> exists|i: int|
                0 <= i < old(self).matchups@.len() && is_started(#[trigger] old(self).matchups@[i]),
    {
        match self.state {
            TournamentState::Submitting | TournamentState::Voting => {},
            _ => {
                proof {
                    assert forall|i: int| 0 <= i < old(self).matchups@.len() implies !is_started(
                        #[trigger] old(self).matchups@[i],
                    ) by {}
                }
                return Err(AdvanceMatchupError::WrongState);
            },
        }
        let len = self.matchups.len();
        let mut out: Vec<Matchup> = Vec::new();
        let mut aborted = false;
        let mut k: usize = 0;
        while k < len
            invariant
                *self == *old(self),
                tournament_wf(*old(self)),
                len == self.matchups@.len(),
                k <= len,
                out@.len() == k,
                aborted == exists|i: int| 0 <= i < k && is_started(#[trigger] self.matchups@[i]),
                forall|i: int|
                    0 <= i < k ==> {
                        &&& matchup_shape_ok(#[trigger] out@[i])
                        &&& out@[i].index == i
                        &&& !is_started(out@[i])
                        &&& out@[i] == if is_started(self.matchups@[i]) {
                            Matchup { state: MatchupState::Aborted, ..self.matchups@[i] }
                        } else {
                            self.matchups@[i]
                        }
                    },
            decreases len - k,
        {
            let mut m = self.matchups[k].copy();
            assert(matchup_shape_ok(m) && m.index == k);
            match m.state {
                MatchupState::Started => {
                    m.state = MatchupState::Aborted;
                    aborted = true;
                },
                _ => {},
            }
            out.push(m);
            k = k + 1;
        }
        self.matchups = out;
        self.state = TournamentState::Aborted;
        Ok(aborted)
    }
}

/// In a well-formed tournament that is voting, exactly one matchup is started.
pub proof fn lemma_voting_has_one_started(t: Tournament)
    requires
        tournament_wf(t),
        t.state == TournamentState::Voting,
    ensures
        exists|i: int|
            0 <= i < t.matchups@.len() && is_started(#[trigger] t.matchups@[i]) && forall|j: int|
                0 <= j < t.matchups@.len() && is_started(#[trigger] t.matchups@[j]) ==> j == i,
{
    let i = choose|i: int| 0 <= i < t.matchups@.len() && is_started(#[trigger] t.matchups@[i]);
    assert(forall|j: int|
        0 <= j < t.matchups@.len() && is_started(#[trigger] t.matchups@[j]) ==> j == i);
}

/// Every matchup of a well-formed tournament satisfies the row constraints of
/// its state.
pub proof fn lemma_matchup_shapes(t: Tournament, i: int)
    requires
        tournament_wf(t),
        0 <= i < t.matchups@.len(),
    ensures
        matchup_shape_ok(t.matchups@[i]),
{
}

/// A tournament as its chat sees it.
#[derive(Debug, PartialEq, Eq)]
pub struct TournamentSummary {
    pub id: String,
    pub chat_id: i64,
    pub state: TournamentState,
}

pub open spec fn is_active(s: TournamentState) -> bool {
    s == TournamentState::Submitting || s == TournamentState::Voting
}

/// No chat has two active tournaments.
pub open spec fn one_active_per_chat(ts: Seq<TournamentSummary>) -> bool {
    forall|i: int, j: int|
        0 <= i < ts.len() && 0 <= j < ts.len() && i != j && ts[i].chat_id == ts[j].chat_id
            && is_active(#[trigger] ts[i].state) ==> !is_active(#[trigger] ts[j].state)
}

pub open spec fn has_active(ts: Seq<TournamentSummary>, chat_id: i64) -> bool {
    exists|i: int| 0 <= i < ts.len() && ts[i].chat_id == chat_id && is_active(#[trigger] ts[i].state)
}

/// The position of the chat's active tournament, if it has one.
pub fn active_tournament(ts: &Vec<TournamentSummary>, chat_id: i64) -> (r: Option<usize>)
    ensures
        r is None <==> !has_active(ts@, chat_id),
        r matches Some(i) ==> i < ts@.len() && ts@[i as int].chat_id == chat_id && is_active(
            ts@[i as int].state,
        ),
{
    let mut i: usize = 0;
    while i < ts.len()
        invariant
            i <= ts@.len(),
            forall|k: int| 0 <= k < i ==> !(ts@[k].chat_id == chat_id && is_active(#[trigger] ts@[k].state)),
        decreases ts@.len() - i,
    {
        if ts[i].chat_id == chat_id && ts[i].state.is_active() {
            return Some(i);
        }
        i = i + 1;
    }
    None
}

/// Opens a tournament `id` in the chat unless one is already active there;
/// returns whether it was opened.
pub fn open_tournament(ts: &mut Vec<TournamentSummary>, chat_id: i64, id: String) -> (opened: bool)
    requires
        one_active_per_chat(old(ts)@),
    ensures
        one_active_per_chat(final(ts)@),
        opened == !has_active(old(ts)@, chat_id),
        opened ==> final(ts)@ == old(ts)@.push(
            TournamentSummary { id, chat_id, state: TournamentState::Submitting },
        ),
        !opened ==> final(ts)@ == old(ts)@,
{
    if active_tournament(ts, chat_id).is_some() {
        return false;
    }
    let ghost before = ts@;
    ts.push(TournamentSummary { id, chat_id, state: TournamentState::Submitting });
    proof {
        let n = before.len() as int;
        assert forall|i: int, j: int|
            0 <= i < ts@.len() && 0 <= j < ts@.len() && i != j && ts@[i].chat_id == ts@[j].chat_id
                && is_active(#[trigger] ts@[i].state) implies !is_active(#[trigger] ts@[j].state) by {
            if i == n {
                assert(before[j] == ts@[j]);
            } else if j == n {
                assert(before[i] == ts@[i]);
            } else {
                assert(before[i] == ts@[i] && before[j] == ts@[j]);
            }
        }
    }
    true
}

/// A tournament's state may move from `from` to `to`: submissions close into
/// voting, voting ends in a finish, and an active tournament may be aborted.
pub open spec fn allowed_transition(from: TournamentState, to: TournamentState) -> bool {
    ||| (from == TournamentState::Submitting && to == TournamentState::Voting)
    ||| (from == TournamentState::Voting && to == TournamentState::Finished)
    ||| (is_active(from) && to == TournamentState::Aborted)
}

/// Moves tournament `i` to state `to` if that transition is allowed; returns
/// whether it moved.
pub fn change_state(ts: &mut Vec<TournamentSummary>, i: usize, to: TournamentState) -> (moved: bool)
    requires
        one_active_per_chat(old(ts)@),
    ensures
        one_active_per_chat(final(ts)@),
        moved == (i < old(ts)@.len() && allowed_transition(old(ts)@[i as int].state, to)),
        moved ==> final(ts)@ == old(ts)@.update(
            i as int,
            TournamentSummary { state: to, ..old(ts)@[i as int] },
        ),
        !moved ==> final(ts)@ == old(ts)@,
{
    if i >= ts.len() {
        return false;
    }
    let from = ts[i].state;
    let ok = match (from, to) {
        (TournamentState::Submitting, TournamentState::Voting) => true,
        (TournamentState::Voting, TournamentState::Finished) => true,
        (TournamentState::Submitting, TournamentState::Aborted) => true,
        (TournamentState::Voting, TournamentState::Aborted) => true,
        _ => false,
    };
    if !ok {
        return false;
    }
    let ghost before = ts@;
    let entry = TournamentSummary { id: ts[i].id.clone(), chat_id: ts[i].chat_id, state: to };
    let mut out: Vec<TournamentSummary> = Vec::new();
    let mut k: usize = 0;
    while k < ts.len()
        invariant
            ts@ == before,
            i < before.len(),
            entry == (TournamentSummary { state: to, ..before[i as int] }),
            k <= before.len(),
            out@ =~= before.update(i as int, entry).subrange(0, k as int),
        decreases before.len() - k,
    {
        if k == i {
            out.push(TournamentSummary { id: entry.id.clone(), chat_id: entry.chat_id, state: to });
        } else {
            out.push(TournamentSummary { id: ts[k].id.clone(), chat_id: ts[k].chat_id, state: ts[k].state });
        }
        k = k + 1;
    }
    *ts = out;
    proof {
        assert(ts@ =~= before.update(i as int, entry));
        assert forall|a: int, b: int|
            0 <= a < ts@.len() && 0 <= b < ts@.len() && a != b && ts@[a].chat_id == ts@[b].chat_id
                && is_active(#[trigger] ts@[a].state) implies !is_active(#[trigger] ts@[b].state) by {
            if a == i as int {
                assert(is_active(before[a].state));
                assert(before[b] == ts@[b]);
            } else if b == i as int {
                assert(before[a] == ts@[a]);
                assert(is_active(before[b].state));
            } else {
                assert(before[a] == ts@[a] && before[b] == ts@[b]);
            }
        }
    }
    true
}

fn opt_nonneg_exec(v: Option<i32>) -> (r: bool)
    ensures
        r == opt_nonneg(v),
{
    match v {
        Some(x) => x >= 0,
        None => true,
    }
}

impl Matchup {
    /// Whether the row satisfies the constraints of its state.
    pub fn shape_ok(&self) -> (r: bool)
        ensures
            r == matchup_shape_ok(*self),
    {
        let sides = match (&self.animation_a_id, &self.animation_b_id) {
            (Some(a), Some(b)) => *a != *b,
            _ => true,
        };
        if !sides || !opt_nonneg_exec(self.animation_a_votes) || !opt_nonneg_exec(self.animation_b_votes) {
            return false;
        }
        match self.state {
            MatchupState::NotStarted => self.poll_id.is_none() && self.message_id.is_none()
                && self.animation_a_votes.is_none() && self.animation_b_votes.is_none()
                && self.started_at.is_none() && self.finished_at.is_none(),
            MatchupState::Started | MatchupState::Aborted => self.poll_id.is_some()
                && self.message_id.is_some() && self.animation_a_id.is_some()
                && self.animation_b_id.is_some() && self.animation_a_votes.is_some()
                && self.animation_b_votes.is_some() && self.started_at.is_some()
                && self.finished_at.is_none(),
            MatchupState::Finished => self.poll_id.is_some() && self.message_id.is_some()
                && self.animation_a_id.is_some() && self.animation_b_id.is_some()
                && self.animation_a_votes.is_some() && self.animation_b_votes.is_some()
                && self.started_at.is_some() && self.finished_at.is_some(),
        }
    }
}

impl Tournament {
    /// Whether the tournament satisfies its invariants, as read back from the
    /// store.
    pub fn is_well_formed(&self) -> (r: bool)
        ensures
            r == tournament_wf(*self),
    {
        let state_ok = match self.state {
            TournamentState::Submitting => self.rounds.is_none() && self.min_votes.is_none()
                && self.matchups.len() == 0,
            TournamentState::Voting | TournamentState::Finished => self.rounds.is_some()
                && self.min_votes.is_some(),
            TournamentState::Aborted => true,
        };
        if !state_ok || self.matchups.len() > 4294967295usize {
            return false;
        }
        let ms = &self.matchups;
        let mut started: Option<usize> = None;
        let mut k: usize = 0;
        while k < ms.len()
            invariant
                k <= ms@.len(),
                ms@ == self.matchups@,
                forall|i: int| 0 <= i < k ==> matchup_shape_ok(#[trigger] ms@[i]) && ms@[i].index == i,
                match started {
                    Some(s) => s < k && is_started(ms@[s as int]) && forall|i: int|
                        0 <= i < k && is_started(#[trigger] ms@[i]) ==> i == s,
                    None => forall|i: int| 0 <= i < k ==> !is_started(#[trigger] ms@[i]),
                },
            decreases ms@.len() - k,
        {
            let m = &ms[k];
            if !m.shape_ok() || m.index as usize != k {
                return false;
            }
            match m.state {
                MatchupState::Started => {
                    if started.is_some() {
                        return false;
                    }
                    started = Some(k);
                },
                _ => {},
            }
            k = k + 1;
        }
        let voting = match self.state {
            TournamentState::Voting => true,
            _ => false,
        };
        proof {
            if let Some(s) = started {
                assert(is_started(self.matchups@[s as int]));
            }
        }
        voting == started.is_some()
    }
}

/// Whether no chat has two active tournaments.
pub fn single_active_per_chat(ts: &Vec<TournamentSummary>) -> (r: bool)
    ensures
        r == one_active_per_chat(ts@),
{
    let mut i: usize = 0;
    while i < ts.len()
        invariant
            i <= ts@.len(),
            forall|a: int, b: int|
                0 <= a < i && 0 <= b < ts@.len() && a != b && ts@[a].chat_id == ts@[b].chat_id
                    && is_active(#[trigger] ts@[a].state) ==> !is_active(#[trigger] ts@[b].state),
        decreases ts@.len() - i,
    {
        if ts[i].state.is_active() {
            let mut j: usize = 0;
            while j < ts.len()
                invariant
                    i < ts@.len(),
                    j <= ts@.len(),
                    is_active(ts@[i as int].state),
                    forall|b: int|
                        0 <= b < j && b != i && ts@[i as int].chat_id == ts@[b].chat_id ==> !is_active(
                            #[trigger] ts@[b].state,
                        ),
                decreases ts@.len() - j,
            {
                if j != i && ts[j].chat_id == ts[i].chat_id && ts[j].state.is_active() {
                    return false;
                }
                j = j + 1;
            }
        }
        i = i + 1;
    }
    true
}

} // verus!
