use guessing_game::game::{Game, Status, StepOutcome};
use guessing_game::parse::parse_guess;

#[test]
fn parses_plain_digits() {
    assert_eq!(parse_guess(&b"42".to_vec()), Some(42));
    assert_eq!(parse_guess(&b"0".to_vec()), Some(0));
    assert_eq!(parse_guess(&b"1".to_vec()), Some(1));
    assert_eq!(parse_guess(&b"100".to_vec()), Some(100));
    assert_eq!(parse_guess(&b"007".to_vec()), Some(7));
}

#[test]
fn trims_surrounding_whitespace() {
    assert_eq!(parse_guess(&b"42\n".to_vec()), Some(42));
    assert_eq!(parse_guess(&b"  42  ".to_vec()), Some(42));
    assert_eq!(parse_guess(&b"\t42\r\n".to_vec()), Some(42));
    // Whitespace inside the number is not trimmed away.
    assert_eq!(parse_guess(&b"4 2".to_vec()), None);
}

#[test]
fn rejects_lines_that_are_not_a_number() {
    assert_eq!(parse_guess(&b"".to_vec()), None);
    assert_eq!(parse_guess(&b"   \t\r\n".to_vec()), None);
    assert_eq!(parse_guess(&b"abc".to_vec()), None);
    assert_eq!(parse_guess(&b"4x2".to_vec()), None);
    assert_eq!(parse_guess(&b"-1".to_vec()), None);
    assert_eq!(parse_guess(&b"12.5".to_vec()), None);
}

#[test]
fn rejects_values_beyond_u32() {
    assert_eq!(parse_guess(&b"4294967295".to_vec()), Some(u32::MAX));
    assert_eq!(parse_guess(&b"4294967296".to_vec()), None);
    assert_eq!(parse_guess(&b"99999999999999999999".to_vec()), None);
}

#[test]
fn invalid_line_leaves_the_game_unchanged() {
    let mut g = Game::new(42);
    let r = g.submit_line(&b"not a number".to_vec());
    assert_eq!(r.outcome, StepOutcome::Invalid);
    assert_eq!(r.echo, None);
    assert_eq!(r.hint, None);
    assert_eq!(g.attempts, 0);
    assert_eq!(g.status, Status::InProgress);

    // Invalid lines never raise the miss count, however many come in.
    for _ in 0..20 {
        g.submit_line(&b"???".to_vec());
    }
    assert_eq!(g.attempts, 0);

    // A valid line afterwards is played normally.
    let r = g.submit_line(&b" 50 \n".to_vec());
    assert_eq!(r.echo, Some(50));
    assert_eq!(r.outcome, StepOutcome::TooBig);
    assert_eq!(g.attempts, 1);
}

#[test]
fn submitted_lines_play_a_whole_game() {
    let mut g = Game::new(42);
    let r = g.submit_line(&b"50\n".to_vec());
    assert_eq!(r.outcome, StepOutcome::TooBig);
    let r = g.submit_line(&b"30\n".to_vec());
    assert_eq!(r.outcome, StepOutcome::TooSmall);
    let r = g.submit_line(&b"42\n".to_vec());
    assert_eq!(r.outcome, StepOutcome::Won);
    assert_eq!(g.attempts, 2);
    assert_eq!(g.status, Status::Won);
}
