use roget::{Guess, Guesser, PlayError, Wordle};

/// A strategy that proposes the same word every turn.
struct Always(&'static str);

impl Guesser for Always {
    fn guess(&mut self, _history: &[Guess]) -> String {
        self.0.to_string()
    }
}

/// A strategy that proposes "right" once the history holds `at` turns,
/// and "wrong" before that.
struct AfterTurns {
    at: usize,
}

impl Guesser for AfterTurns {
    fn guess(&mut self, history: &[Guess]) -> String {
        if history.len() == self.at {
            "right".to_string()
        } else {
            "wrong".to_string()
        }
    }
}

fn dict() -> Wordle {
    let lines = vec!["right 10".to_string(), "wrong 4".to_string()];
    Wordle::new(&lines).unwrap()
}

#[test]
fn genius() {
    let word = dict();
    assert_eq!(word.play("right", Always("right")), Ok(Some(1)));
}

#[test]
fn magnificent() {
    let word = dict();
    assert_eq!(word.play("right", AfterTurns { at: 1 }), Ok(Some(2)));
}

#[test]
fn impressive() {
    let word = dict();
    assert_eq!(word.play("right", AfterTurns { at: 2 }), Ok(Some(3)));
}

#[test]
fn oppsie() {
    let word = dict();
    assert_eq!(word.play("right", Always("wrong")), Ok(None));
}

#[test]
fn illegal_guess_is_fatal() {
    let word = dict();
    assert_eq!(
        word.play("right", Always("zzzzz")),
        Err(PlayError::IllegalGuess)
    );
}

#[test]
fn scripted_game_outcomes() {
    let word = dict();
    let win_second = vec![
        "wrong".to_string(),
        "right".to_string(),
        "wrong".to_string(),
    ];
    assert_eq!(word.play_script("right", &win_second, 3), Ok(Some(2)));
    let all_misses = vec![
        "wrong".to_string(),
        "wrong".to_string(),
        "wrong".to_string(),
    ];
    assert_eq!(word.play_script("right", &all_misses, 3), Ok(None));
    let illegal = vec![
        "wrong".to_string(),
        "zzzzz".to_string(),
        "right".to_string(),
    ];
    assert_eq!(
        word.play_script("right", &illegal, 3),
        Err(PlayError::IllegalGuess)
    );
}

#[test]
fn zero_turn_limit_means_no_result() {
    let word = dict();
    assert_eq!(word.play_up_to("right", Always("right"), 0), Ok(None));
}

#[test]
fn shorter_limit_cuts_the_game() {
    let word = dict();
    assert_eq!(word.play_up_to("right", Always("wrong"), 6), Ok(None));
    assert_eq!(word.play_up_to("right", AfterTurns { at: 0 }, 1), Ok(Some(1)));
    assert_eq!(word.play_up_to("right", AfterTurns { at: 3 }, 3), Ok(None));
}
