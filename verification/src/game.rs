//! The guessing-game state machine.
//!
//! A [`Game`] owns a hidden target in `[1, 100]` and a count of missed
//! guesses. Each submitted guess is echoed, compared three ways against the
//! target, and answered with a [`StepReport`]; the target is revealed once as
//! a hint when the miss count stands at [`HINT_THRESHOLD`], and the game is
//! lost at the first guess submitted after the miss count has exceeded
//! [`LOSS_CEILING`].

use vstd::prelude::*;

use crate::parse::parse_guess;
use crate::parse::parsed_guess;

verus! {

/// The miss count at which the target is revealed as a hint.
pub const HINT_THRESHOLD: u32 = 5;

/// The miss count that, once exceeded, loses the game at the next guess.
pub const LOSS_CEILING: u32 = 10;

/// The three-way comparison of a guess against the target.
#[derive(Clone, Copy, PartialEq, Eq, Debug)]
pub enum Verdict {
    TooSmall,
    TooBig,
    Correct,
}

/// What the three-way comparison of `guess` against `target` must say.
pub open spec fn verdict_of(guess: u32, target: u32) -> Verdict {
    if guess < target {
        Verdict::TooSmall
    } else if guess > target {
        Verdict::TooBig
    } else {
        Verdict::Correct
    }
}

/// Compare a guess against the target, three ways.
pub fn compare_guess(guess: u32, target: u32) -> (v: Verdict)
    ensures
        v == verdict_of(guess, target),
{
    if guess < target {
        Verdict::TooSmall
    } else if guess > target {
        Verdict::TooBig
    } else {
        Verdict::Correct
    }
}

/// Comparisons are strictly three-valued: a guess below the target is
/// reported too small, one above it too big, and only the target itself is
/// correct — each exactly, so no guess is reported two ways or none.
pub proof fn lemma_three_valued(guess: u32, target: u32)
    ensures
        verdict_of(guess, target) is TooSmall <==> guess < target,
        verdict_of(guess, target) is TooBig <==> guess > target,
        verdict_of(guess, target) is Correct <==> guess == target,
{
}

/// Whether a game is still accepting guesses, won, or lost.
#[derive(Clone, Copy, PartialEq, Eq, Debug)]
pub enum Status {
    InProgress,
    Won,
    Lost,
}

/// A guessing game: a fixed target, the count of missed guesses so far, and
/// whether the game has ended.
#[derive(Clone, Copy, PartialEq, Eq, Debug)]
pub struct Game {
    /// The hidden number, in `[1, 100]`, fixed for the game's lifetime.
    pub target: u32,
    /// How many guesses have missed so far; never decreases.
    pub attempts: u32,
    /// Whether the game is still running.
    pub status: Status,
}

/// How one processed guess is reported back to the player.
#[derive(Clone, Copy, PartialEq, Eq, Debug)]
pub struct StepReport {
    /// The parsed guess, echoed back; `None` when the input was invalid.
    pub echo: Option<u32>,
    /// `Some(target)` exactly when the hint fires on this guess.
    pub hint: Option<u32>,
    /// The answer to this input.
    pub outcome: StepOutcome,
}

/// The answer the game gives to one line of input.
#[derive(Clone, Copy, PartialEq, Eq, Debug)]
pub enum StepOutcome {
    /// The line did not parse as a number; the game state is unchanged.
    Invalid,
    /// The guess was below the target.
    TooSmall,
    /// The guess was above the target.
    TooBig,
    /// The guess hit the target; the game is won.
    Won,
    /// The miss ceiling was already exceeded; the game is lost.
    Lost,
}

/// Whether the hint fires on a guess made at this miss count.
pub open spec fn hint_due(attempts: u32) -> bool {
    attempts == HINT_THRESHOLD
}

/// Whether the miss ceiling has been exceeded. The comparison is strict:
/// false at a count of exactly [`LOSS_CEILING`], true only above it.
pub open spec fn ceiling_exceeded(attempts: u32) -> bool {
    attempts > LOSS_CEILING
}

/// The hint a guess made in state `g` is answered with.
pub open spec fn spec_hint(g: Game) -> Option<u32> {
    if hint_due(g.attempts) {
        Some(g.target)
    } else {
        None
    }
}

/// The outcome a guess of `n` in state `g` is answered with.
pub open spec fn spec_guess_outcome(g: Game, n: u32) -> StepOutcome {
    if ceiling_exceeded(g.attempts) {
        StepOutcome::Lost
    } else {
        match verdict_of(n, g.target) {
            Verdict::TooSmall => StepOutcome::TooSmall,
            Verdict::TooBig => StepOutcome::TooBig,
            Verdict::Correct => StepOutcome::Won,
        }
    }
}

/// The state a guess of `n` leaves a game `g` in.
pub open spec fn spec_guess_next(g: Game, n: u32) -> Game {
    if ceiling_exceeded(g.attempts) {
        Game { target: g.target, attempts: g.attempts, status: Status::Lost }
    } else {
        match verdict_of(n, g.target) {
            Verdict::Correct => Game { target: g.target, attempts: g.attempts, status: Status::Won },
            _ => Game { target: g.target, attempts: (g.attempts + 1) as u32, status: g.status },
        }
    }
}

impl Game {
    /// A well-formed game: the target lies in `[1, 100]` and the miss count
    /// never passes one beyond the ceiling (the count at which a loss is
    /// declared).
    pub open spec fn wf(self) -> bool {
        &&& 1 <= self.target <= 100
        &&& self.attempts <= LOSS_CEILING + 1
    }

    /// The starting state for a given target: no misses, still running.
    pub open spec fn initial(target: u32) -> Game {
        Game { target, attempts: 0, status: Status::InProgress }
    }

    /// Start a game around a chosen target.
    pub fn new(target: u32) -> (g: Game)
        requires
            1 <= target <= 100,
        ensures
            g == Game::initial(target),
            g.wf(),
    {
        Game { target, attempts: 0, status: Status::InProgress }
    }

    /// Whether the game has ended, by a win or a loss.
    pub fn is_over(&self) -> (b: bool)
        ensures
            b == !(self.status is InProgress),
    {
        match self.status {
            Status::InProgress => false,
            _ => true,
        }
    }

    /// Process one parsed guess.
    ///
    /// The guess is echoed back; the hint fires exactly when the miss count
    /// stands at [`HINT_THRESHOLD`], revealing the target; if the miss count
    /// has exceeded [`LOSS_CEILING`] the game is lost without comparing the
    /// guess; otherwise the guess is compared three ways against the target,
    /// a miss raising the miss count by one and a hit winning the game.
    pub fn guess(&mut self, n: u32) -> (r: StepReport)
        requires
            old(self).wf(),
            old(self).status is InProgress,
        ensures
            final(self).wf(),
            *final(self) == spec_guess_next(*old(self), n),
            final(self).target == old(self).target,
            r.echo == Some(n),
            r.hint == spec_hint(*old(self)),
            r.outcome == spec_guess_outcome(*old(self), n),
    {
        let hint: Option<u32> = if self.attempts == HINT_THRESHOLD {
            Some(self.target)
        } else {
            None
        };
        if self.attempts > LOSS_CEILING {
            self.status = Status::Lost;
            StepReport { echo: Some(n), hint, outcome: StepOutcome::Lost }
        } else {
            match compare_guess(n, self.target) {
                Verdict::TooSmall => {
                    self.attempts = self.attempts + 1;
                    StepReport { echo: Some(n), hint, outcome: StepOutcome::TooSmall }
                }
                Verdict::TooBig => {
                    self.attempts = self.attempts + 1;
                    StepReport { echo: Some(n), hint, outcome: StepOutcome::TooBig }
                }
                Verdict::Correct => {
                    self.status = Status::Won;
                    StepReport { echo: Some(n), hint, outcome: StepOutcome::Won }
                }
            }
        }
    }

    /// Process one raw line of input.
    ///
    /// The line is trimmed and read as a decimal guess, which is then played
    /// as by [`Game::guess`]. A line that does not parse is answered with
    /// [`StepOutcome::Invalid`]: nothing is echoed, no hint fires, and the
    /// game state is unchanged, so the caller can simply re-prompt.
    pub fn submit_line(&mut self, line: &Vec<u8>) -> (r: StepReport)
        requires
            old(self).wf(),
            old(self).status is InProgress,
        ensures
            final(self).wf(),
            parsed_guess(line@) matches Some(n) ==> {
                &&& *final(self) == spec_guess_next(*old(self), n)
                &&& r.echo == Some(n)
                &&& r.hint == spec_hint(*old(self))
                &&& r.outcome == spec_guess_outcome(*old(self), n)
            },
            parsed_guess(line@) is None ==> {
                &&& *final(self) == *old(self)
                &&& r.echo is None
                &&& r.hint is None
                &&& r.outcome is Invalid
            },
    {
        match parse_guess(line) {
            Some(n) => self.guess(n),
            None => StepReport { echo: None, hint: None, outcome: StepOutcome::Invalid },
        }
    }
}

/// The state left after feeding `guesses` in order to `g`, stopping at the
/// first guess that ends the game.
pub open spec fn spec_run(g: Game, guesses: Seq<u32>) -> Game
    decreases guesses.len(),
{
    if guesses.len() == 0 || !(g.status is InProgress) {
        g
    } else {
        spec_run(spec_guess_next(g, guesses.first()), guesses.drop_first())
    }
}

/// Play a whole scripted game: feed the guesses in order until one ends the
/// game or the script runs out.
pub fn run_guesses(target: u32, guesses: &Vec<u32>) -> (g: Game)
    requires
        1 <= target <= 100,
    ensures
        g == spec_run(Game::initial(target), guesses@),
{
    let mut g = Game::new(target);
    let mut i: usize = 0;
    let mut done: bool = false;
    proof {
        assert(guesses@.skip(0) =~= guesses@);
    }
    while i < guesses.len() && !done
        invariant
            i <= guesses.len(),
            g.wf(),
            done == !(g.status is InProgress),
            spec_run(Game::initial(target), guesses@) == spec_run(g, guesses@.skip(i as int)),
        decreases guesses.len() - i,
    {
        let ghost prev = g;
        let _report = g.guess(guesses[i]);
        proof {
            assert(guesses@.skip(i as int).first() == guesses@[i as int]);
            assert(guesses@.skip(i as int).drop_first() =~= guesses@.skip(i as int + 1));
            assert(spec_run(prev, guesses@.skip(i as int)) == spec_run(g, guesses@.skip(i as int + 1)));
        }
        i = i + 1;
        done = g.is_over();
    }
    proof {
        if g.status is InProgress {
            assert(guesses@.skip(i as int) =~= Seq::<u32>::empty());
        }
        assert(spec_run(g, guesses@.skip(i as int)) == g);
    }
    g
}

/// Every guess that is compared — one submitted before the miss ceiling has
/// been passed — is answered three ways, consistent with integer order
/// against the target: below it too small, above it too big, and the target
/// itself a win — each exactly, so no guess is answered two ways or none.
pub proof fn lemma_answer_three_valued(g: Game, n: u32)
    requires
        !ceiling_exceeded(g.attempts),
    ensures
        spec_guess_outcome(g, n) is TooSmall <==> n < g.target,
        spec_guess_outcome(g, n) is TooBig <==> n > g.target,
        spec_guess_outcome(g, n) is Won <==> n == g.target,
{
}

/// A guess made while the miss count stands exactly at the hint threshold is
/// answered with a hint that holds the target itself.
pub proof fn lemma_hint_reveals_target(g: Game)
    requires
        g.attempts == HINT_THRESHOLD,
    ensures
        spec_hint(g) == Some(g.target),
{
}

/// Once the miss count has passed the ceiling, the next guess is answered
/// with a loss: the game ends with the miss count unchanged, and the target
/// is not revealed again, since the hint only fires while the count stands
/// at the threshold.
pub proof fn lemma_loss_reveals_nothing(g: Game, n: u32)
    requires
        g.wf(),
        g.status is InProgress,
        ceiling_exceeded(g.attempts),
    ensures
        spec_guess_outcome(g, n) is Lost,
        spec_guess_next(g, n).status is Lost,
        spec_guess_next(g, n).attempts == g.attempts,
        spec_hint(g) is None,
{
}

/// A scripted game that reaches the target is won on the very guess that
/// hits it: the `k` misses before it each raise the miss count by one, the
/// winning guess leaves the count alone, and nothing after that guess
/// changes the game. The target must be reached before the game can be lost,
/// that is, while the miss count still stands at or below the ceiling.
pub proof fn lemma_win_when_target_guessed(g: Game, guesses: Seq<u32>, k: int)
    requires
        g.wf(),
        g.status is InProgress,
        0 <= k < guesses.len(),
        guesses[k] == g.target,
        forall|i: int| 0 <= i < k ==> guesses[i] != g.target,
        g.attempts + k <= LOSS_CEILING,
    ensures
        spec_run(g, guesses).status is Won,
        spec_run(g, guesses).attempts == g.attempts + k,
        spec_run(g, guesses).target == g.target,
        spec_run(g, guesses) == spec_run(g, guesses.take(k + 1)),
    decreases k,
{
    let next = spec_guess_next(g, guesses.first());
    if k == 0 {
        assert(verdict_of(guesses[0], g.target) is Correct);
        assert(next.status is Won);
        assert(spec_run(next, guesses.drop_first()) == next);
        assert(spec_run(g, guesses) == next);
        let t1 = guesses.take(1);
        assert(t1.first() == guesses[0]);
        assert(spec_run(next, t1.drop_first()) == next);
        assert(spec_run(g, t1) == next);
    } else {
        assert(guesses[0] != g.target);
        assert(next.status is InProgress);
        assert(next.attempts == g.attempts + 1);
        let d = guesses.drop_first();
        assert(d[k - 1] == guesses[k]);
        assert forall|i: int| 0 <= i < k - 1 implies d[i] != g.target by {
            assert(d[i] == guesses[i + 1]);
        }
        lemma_win_when_target_guessed(next, d, k - 1);
        assert(spec_run(g, guesses) == spec_run(next, d));
        assert(guesses.take(k + 1).first() == guesses[0]);
        assert(guesses.take(k + 1).drop_first() =~= d.take(k));
        assert(spec_run(g, guesses.take(k + 1)) == spec_run(next, d.take(k)));
    }
}

/// A scripted game that misses often enough is lost: each miss raises the
/// miss count by one until it passes the ceiling, and the next guess after
/// that is answered with a loss, leaving the count one past the ceiling.
pub proof fn lemma_loss_when_ceiling_exceeded(g: Game, guesses: Seq<u32>)
    requires
        g.wf(),
        g.status is InProgress,
        forall|i: int| 0 <= i < guesses.len() ==> guesses[i] != g.target,
        g.attempts + guesses.len() >= LOSS_CEILING + 2,
    ensures
        spec_run(g, guesses).status is Lost,
        spec_run(g, guesses).attempts == LOSS_CEILING + 1,
    decreases guesses.len(),
{
    assert(guesses.len() > 0);
    let next = spec_guess_next(g, guesses.first());
    let d = guesses.drop_first();
    if ceiling_exceeded(g.attempts) {
        assert(next.status is Lost);
        assert(next.attempts == g.attempts);
        assert(g.attempts == LOSS_CEILING + 1);
        assert(spec_run(g, guesses) == next);
    } else {
        assert(guesses[0] != g.target);
        assert(next.status is InProgress);
        assert(next.attempts == g.attempts + 1);
        assert forall|i: int| 0 <= i < d.len() implies d[i] != next.target by {
            assert(d[i] == guesses[i + 1]);
        }
        lemma_loss_when_ceiling_exceeded(next, d);
        assert(spec_run(g, guesses) == spec_run(next, d));
    }
}

} // verus!
