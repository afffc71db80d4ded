//! What the display reads off a match: the countdown and the score.

use vstd::prelude::*;
use crate::game_entities::{BallLaunchDelay, GoalEvent, MatchScore, Team};

verus! {

/// The label that shows the goals of one team.
#[derive(Clone, Copy, Debug, PartialEq, Eq, Structural)]
pub struct ScoreText {
    pub team: Team,
    pub value: i32,
}

/// The label that shows the countdown to the launch, in tenths of a second,
/// while it runs.
#[derive(Clone, Copy, Debug, PartialEq, Eq, Structural)]
pub struct BallLaunchTimerText {
    pub visible: bool,
    pub tenths: u64,
}

/// A time in nanoseconds as tenths of a second, rounded to the nearest.
pub open spec fn tenths_of(nanos: int) -> int {
    (nanos + 50_000_000) / 100_000_000
}

/// The countdown label for `timer`: hidden, with what it last showed, once the
/// countdown has run out; else visible, with the time that remains.
pub open spec fn timer_text(timer: BallLaunchDelay, text: BallLaunchTimerText) -> BallLaunchTimerText {
    if timer.0.finished {
        BallLaunchTimerText { visible: false, tenths: text.tenths }
    } else {
        BallLaunchTimerText { visible: true, tenths: tenths_of(timer.0.remaining_spec()) as u64 }
    }
}

/// The score label of a team, showing that team's goals.
pub open spec fn score_text(score: MatchScore, text: ScoreText) -> ScoreText {
    ScoreText { team: text.team, value: score@[text.team] as i32 }
}

/// Brings the countdown labels up to date.
pub fn update_ball_launch_timer(timer: &BallLaunchDelay, texts: &mut Vec<BallLaunchTimerText>)
    ensures
        final(texts)@ == old(texts)@.map_values(|t: BallLaunchTimerText| timer_text(*timer, t)),
{
    let ghost old_texts = texts@;
    let n: usize = texts.len();
    let mut i: usize = 0;
    while i < n
        invariant
            i <= n,
            texts@.len() == n,
            old_texts.len() == n,
            forall|k: int| 0 <= k < i ==> #[trigger] texts@[k] == timer_text(*timer, old_texts[k]),
            forall|k: int| i <= k < n ==> #[trigger] texts@[k] == old_texts[k],
        decreases n - i,
    {
        let text: BallLaunchTimerText = texts[i];
        if timer.0.finished() {
            texts.set(i, BallLaunchTimerText { visible: false, tenths: text.tenths });
        } else {
            let remaining: u64 = timer.0.remaining();
            let whole: u64 = remaining / 100_000_000;
            let tenths: u64 = if remaining % 100_000_000 >= 50_000_000 {
                whole + 1
            } else {
                whole
            };
            texts.set(i, BallLaunchTimerText { visible: true, tenths });
        }
        i = i + 1;
    }
    assert(texts@ =~= old_texts.map_values(|t: BallLaunchTimerText| timer_text(*timer, t)));
}

/// Brings the score labels up to date.
pub fn update_score(match_score: &MatchScore, texts: &mut Vec<ScoreText>)
    ensures
        final(texts)@ == old(texts)@.map_values(|t: ScoreText| score_text(*match_score, t)),
{
    let ghost old_texts = texts@;
    let n: usize = texts.len();
    let mut i: usize = 0;
    while i < n
        invariant
            i <= n,
            texts@.len() == n,
            old_texts.len() == n,
            forall|k: int|
                0 <= k < i ==> #[trigger] texts@[k] == score_text(*match_score, old_texts[k]),
            forall|k: int| i <= k < n ==> #[trigger] texts@[k] == old_texts[k],
        decreases n - i,
    {
        let text: ScoreText = texts[i];
        texts.set(i, ScoreText { team: text.team, value: match_score.get(text.team) });
        i = i + 1;
    }
    assert(texts@ =~= old_texts.map_values(|t: ScoreText| score_text(*match_score, t)));
}

/// Shows the score at the start of a match.
pub fn initial_score(match_score: &MatchScore, texts: &mut Vec<ScoreText>)
    ensures
        final(texts)@ == old(texts)@.map_values(|t: ScoreText| score_text(*match_score, t)),
{
    update_score(match_score, texts);
}

/// Shows the score anew in a tick that brought a goal; in any other tick the
/// labels stay as they are.
pub fn update_score_runtime(
    ev_goal: &Vec<GoalEvent>,
    match_score: &MatchScore,
    texts: &mut Vec<ScoreText>,
)
    ensures
        ev_goal@.len() > 0 ==> final(texts)@ == old(texts)@.map_values(
            |t: ScoreText| score_text(*match_score, t),
        ),
        ev_goal@.len() == 0 ==> final(texts)@ == old(texts)@,
{
    if ev_goal.len() > 0 {
        update_score(match_score, texts);
    }
}

} // verus!
