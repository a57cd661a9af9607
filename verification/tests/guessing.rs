use rust_journey::guessing::{judge_guess, parse_u32, trim, GuessOutcome, GuessingGame};

#[test]
fn guesses_are_compared_with_the_secret() {
    assert_eq!(judge_guess("10\n", 50), GuessOutcome::TooSmall(10));
    assert_eq!(judge_guess("90\n", 50), GuessOutcome::TooBig(90));
    assert_eq!(judge_guess("50\n", 50), GuessOutcome::Win(50));
}

#[test]
fn lines_that_are_not_numbers_are_ignored() {
    assert_eq!(judge_guess("abc\n", 50), GuessOutcome::Invalid);
    assert_eq!(judge_guess("\n", 50), GuessOutcome::Invalid);
    assert_eq!(judge_guess("-5\n", 50), GuessOutcome::Invalid);
    assert_eq!(judge_guess("4 2\n", 50), GuessOutcome::Invalid);
    assert_eq!(judge_guess("4294967296\n", 50), GuessOutcome::Invalid);
}

#[test]
fn surrounding_white_space_is_dropped() {
    assert_eq!(judge_guess("  \t 42 \r\n", 42), GuessOutcome::Win(42));
    assert_eq!(judge_guess("\u{3000}7\u{a0}", 8), GuessOutcome::TooSmall(7));
    assert_eq!(trim("  a b \n"), "a b");
    assert_eq!(trim(" \t\n"), "");
}

#[test]
fn parse_u32_follows_from_str() {
    for s in ["0", "+7", "007", "4294967295", "4294967296", "", "+", "-1", "1a", " 1", "+-1"] {
        assert_eq!(parse_u32(s), s.parse::<u32>().ok(), "{}", s);
    }
}

#[test]
fn trim_follows_str_trim() {
    for s in ["", "x", "  x  ", "\u{2009}x\u{205f}", "\u{85}y z\u{1680}", "\u{200b}x"] {
        assert_eq!(trim(s), s.trim(), "{:?}", s);
    }
}

#[test]
fn a_new_game_has_a_secret_between_1_and_100() {
    for _ in 0..50 {
        let game = GuessingGame::new();
        let mut wins = 0;
        for g in 1..=100u32 {
            if game.guess(&g.to_string()) == GuessOutcome::Win(g) {
                wins += 1;
            }
        }
        assert_eq!(wins, 1);
    }
}
