use guessing_game::game::{compare_guess, run_guesses, Game, Status, StepOutcome, Verdict};
use guessing_game::rng::random_game;

fn new_game(target: u32) -> Game {
    let g = Game::new(target);
    assert_eq!(g.target, target);
    assert_eq!(g.attempts, 0);
    assert_eq!(g.status, Status::InProgress);
    g
}

#[test]
fn scenario_target_42() {
    // Target 42, guesses 50, 30, 42: too big, too small, win; only the two
    // misses count.
    let mut g = new_game(42);

    let r = g.guess(50);
    assert_eq!(r.echo, Some(50));
    assert_eq!(r.hint, None);
    assert_eq!(r.outcome, StepOutcome::TooBig);
    assert_eq!(g.attempts, 1);
    assert!(!g.is_over());

    let r = g.guess(30);
    assert_eq!(r.echo, Some(30));
    assert_eq!(r.hint, None);
    assert_eq!(r.outcome, StepOutcome::TooSmall);
    assert_eq!(g.attempts, 2);
    assert!(!g.is_over());

    let r = g.guess(42);
    assert_eq!(r.echo, Some(42));
    assert_eq!(r.hint, None);
    assert_eq!(r.outcome, StepOutcome::Won);
    assert_eq!(g.attempts, 2);
    assert_eq!(g.status, Status::Won);
    assert!(g.is_over());
}

#[test]
fn scenario_ceiling_is_strict() {
    // Target 7, every guess 99: after the 10th miss the ceiling check is
    // still false, so one more guess is compared; the loss comes only after
    // the 11th miss.
    let mut g = new_game(7);
    for _ in 0..10 {
        let r = g.guess(99);
        assert_eq!(r.outcome, StepOutcome::TooBig);
    }
    assert_eq!(g.attempts, 10);
    assert_eq!(g.status, Status::InProgress);

    // The 11th guess is still accepted and compared.
    let r = g.guess(99);
    assert_eq!(r.outcome, StepOutcome::TooBig);
    assert_eq!(g.attempts, 11);
    assert_eq!(g.status, Status::InProgress);

    // Only now does the ceiling check end the game, without a hint.
    let r = g.guess(99);
    assert_eq!(r.outcome, StepOutcome::Lost);
    assert_eq!(r.hint, None);
    assert_eq!(g.attempts, 11);
    assert_eq!(g.status, Status::Lost);
}

#[test]
fn hint_fires_once_at_threshold() {
    // The guess made while the miss count stands at 5 is answered with the
    // target itself; no other guess before or after reveals it.
    let mut g = new_game(42);
    for i in 0..5 {
        let r = g.guess(1);
        assert_eq!(r.outcome, StepOutcome::TooSmall);
        assert_eq!(r.hint, None, "no hint on miss {}", i);
    }
    assert_eq!(g.attempts, 5);

    let r = g.guess(2);
    assert_eq!(r.hint, Some(42));
    assert_eq!(r.outcome, StepOutcome::TooSmall);

    let r = g.guess(3);
    assert_eq!(r.hint, None);
    assert_eq!(r.outcome, StepOutcome::TooSmall);
}

#[test]
fn hint_fires_even_on_winning_guess() {
    // The hint is attached to the guess itself: hitting the target while the
    // miss count stands at 5 both reveals and wins.
    let mut g = new_game(42);
    for _ in 0..5 {
        g.guess(1);
    }
    let r = g.guess(42);
    assert_eq!(r.hint, Some(42));
    assert_eq!(r.outcome, StepOutcome::Won);
    assert_eq!(g.status, Status::Won);
}

#[test]
fn comparison_is_three_valued() {
    assert_eq!(compare_guess(10, 42), Verdict::TooSmall);
    assert_eq!(compare_guess(41, 42), Verdict::TooSmall);
    assert_eq!(compare_guess(42, 42), Verdict::Correct);
    assert_eq!(compare_guess(43, 42), Verdict::TooBig);
    assert_eq!(compare_guess(100, 42), Verdict::TooBig);
    assert_eq!(compare_guess(0, 1), Verdict::TooSmall);
    assert_eq!(compare_guess(1, 1), Verdict::Correct);
    assert_eq!(compare_guess(100, 100), Verdict::Correct);
}

#[test]
fn scripted_run_wins_on_target() {
    // The run stops on the guess that hits the target, whatever follows.
    let g = run_guesses(42, &vec![50, 30, 42, 7, 8]);
    assert_eq!(g.status, Status::Won);
    assert_eq!(g.attempts, 2);

    // Boundary targets.
    let g = run_guesses(1, &vec![2, 1]);
    assert_eq!(g.status, Status::Won);
    assert_eq!(g.attempts, 1);

    let g = run_guesses(100, &vec![99, 100]);
    assert_eq!(g.status, Status::Won);
    assert_eq!(g.attempts, 1);
}

#[test]
fn scripted_run_loses_after_twelve_misses() {
    // Eleven misses leave the game running; the twelfth submitted guess is
    // answered with the loss.
    let g = run_guesses(7, &vec![99; 11]);
    assert_eq!(g.status, Status::InProgress);
    assert_eq!(g.attempts, 11);

    let g = run_guesses(7, &vec![99; 12]);
    assert_eq!(g.status, Status::Lost);
    assert_eq!(g.attempts, 11);

    // A target that only comes after the loss is never seen.
    let mut script = vec![99; 12];
    script.push(7);
    let g = run_guesses(7, &script);
    assert_eq!(g.status, Status::Lost);
}

#[test]
fn scripted_run_without_target_stays_open() {
    let g = run_guesses(42, &vec![1, 2, 3]);
    assert_eq!(g.status, Status::InProgress);
    assert_eq!(g.attempts, 3);

    let g = run_guesses(42, &vec![]);
    assert_eq!(g.status, Status::InProgress);
    assert_eq!(g.attempts, 0);
}

#[test]
fn random_game_starts_in_range() {
    // The drawn target always lies in [1, 100] and the game starts fresh.
    for _ in 0..200 {
        let g = random_game();
        assert!(1 <= g.target && g.target <= 100);
        assert_eq!(g.attempts, 0);
        assert_eq!(g.status, Status::InProgress);
        assert!(!g.is_over());
    }
}
