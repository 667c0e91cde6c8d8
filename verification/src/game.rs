//! The simulator: the dictionary of allowed guesses, the per-turn rules,
//! and the game loop that drives an external guessing strategy.

use crate::scoring::{feedback, Correctness, WORD_LEN};
use crate::words::{lemma_parsed_word_len, parse_line, parse_line_spec, DictError};
use vstd::prelude::*;

verus! {

/// A game never runs past this many turns. The canonical puzzle stops at
/// six; the simulator allows more so that a slow strategy still reports
/// the turn it would have won on.
pub const MAX_TURNS: usize = 32;

/// One played turn: the guessed word and the mask it earned.
pub struct Guess {
    pub word: String,
    pub mask: Vec<Correctness>,
}

/// A guessing strategy: given the history of played turns, oldest first,
/// it proposes the next word.
pub trait Guesser {
    fn guess(&mut self, history: &[Guess]) -> String;
}

/// How the simulator answers one proposed guess.
pub enum GuessOutcome {
    /// The guess is the answer: the game is won.
    Win,
    /// A legal guess that is not the answer: the mask it earned.
    Feedback(Vec<Correctness>),
    /// Neither the answer nor a dictionary word: the strategy broke its
    /// contract.
    Illegal,
}

/// The one fatal way a game ends.
#[derive(Debug, Clone, Copy, PartialEq, Eq, Structural)]
pub enum PlayError {
    /// The strategy proposed a word that is neither the answer nor in the
    /// dictionary.
    IllegalGuess,
}

/// Whether `a` and `b` spell the same word.
fn str_eq(a: &str, b: &str) -> (r: bool)
    ensures
        r == (a@ == b@),
{
    let n = a.unicode_len();
    if n != b.unicode_len() {
        return false;
    }
    let mut i: usize = 0;
    while i < n
        invariant
            i <= n,
            n == a@.len(),
            n == b@.len(),
            forall|t: int| 0 <= t < i ==> a@[t] == b@[t],
        decreases n - i,
    {
        if a.get_char(i) != b.get_char(i) {
            return false;
        }
        i += 1;
    }
    proof {
        assert(a@ =~= b@);
    }
    true
}

/// Whether `w` spells one of the words of `words`.
fn word_list_has(words: &Vec<String>, w: &str) -> (r: bool)
    ensures
        r == exists|i: int| 0 <= i < words@.len() && (#[trigger] words@[i])@ == w@,
{
    let mut i: usize = 0;
    while i < words.len()
        invariant
            i <= words@.len(),
            forall|t: int| 0 <= t < i ==> (#[trigger] words@[t])@ != w@,
        decreases words@.len() - i,
    {
        if str_eq(words[i].as_str(), w) {
            return true;
        }
        i += 1;
    }
    false
}

/// The set of words a list of strings spells.
pub open spec fn word_set(ws: Seq<String>) -> Set<Seq<char>> {
    Set::new(|x: Seq<char>| exists|i: int| 0 <= i < ws.len() && (#[trigger] ws[i])@ == x)
}

proof fn lemma_word_set_push(ws: Seq<String>, w: String)
    ensures
        word_set(ws.push(w)) == word_set(ws).insert(w@),
{
    assert forall|x: Seq<char>| word_set(ws.push(w)).contains(x) implies word_set(ws).insert(
        w@,
    ).contains(x) by {
        let i = choose|i: int| 0 <= i < ws.push(w).len() && (#[trigger] ws.push(w)[i])@ == x;
        if i < ws.len() {
            assert(ws[i]@ == x);
        }
    }
    assert forall|x: Seq<char>| word_set(ws).insert(w@).contains(x) implies word_set(
        ws.push(w),
    ).contains(x) by {
        if x == w@ {
            assert(ws.push(w)[ws.len() as int]@ == x);
        } else {
            let i = choose|i: int| 0 <= i < ws.len() && (#[trigger] ws[i])@ == x;
            assert(ws.push(w)[i]@ == x);
        }
    }
    assert(word_set(ws.push(w)) =~= word_set(ws).insert(w@));
}

/// Keeps the first occurrence of each word of `src` and drops the repeats:
/// the result spells the same set of words, each once.
fn dedup_words(src: &Vec<String>) -> (r: Vec<String>)
    ensures
        forall|t1: int, t2: int|
            0 <= t1 < t2 < r@.len() ==> (#[trigger] r@[t1])@ != (#[trigger] r@[t2])@,
        word_set(r@) == word_set(src@),
{
    let mut out: Vec<String> = Vec::new();
    let mut i: usize = 0;
    while i < src.len()
        invariant
            i <= src@.len(),
            forall|t1: int, t2: int|
                0 <= t1 < t2 < out@.len() ==> (#[trigger] out@[t1])@ != (#[trigger] out@[t2])@,
            word_set(out@) == word_set(src@.take(i as int)),
        decreases src@.len() - i,
    {
        let ghost o0 = out@;
        let dup = word_list_has(&out, src[i].as_str());
        if !dup {
            out.push(src[i].clone());
        }
        proof {
            lemma_word_set_push(src@.take(i as int), src@[i as int]);
            assert(src@.take(i + 1) =~= src@.take(i as int).push(src@[i as int]));
            if dup {
                assert(word_set(o0).contains(src@[i as int]@));
                assert(word_set(o0).insert(src@[i as int]@) =~= word_set(o0));
            } else {
                lemma_word_set_push(o0, src@[i as int]);
                assert(out@ == o0.push(src@[i as int]));
            }
        }
        i += 1;
    }
    proof {
        assert(src@.take(src@.len() as int) =~= src@);
    }
    out
}

/// The simulator: holds the immutable dictionary of legal guesses.
pub struct Wordle {
    /// The dictionary words; every entry has exactly five letters when the
    /// simulator is well formed.
    pub words: Vec<String>,
}

impl Wordle {
    /// Every dictionary word has exactly five letters.
    pub open spec fn wf(&self) -> bool {
        forall|i: int| 0 <= i < self.words@.len() ==> (#[trigger] self.words@[i])@.len() == WORD_LEN
    }

    /// The set of words the dictionary holds.
    pub open spec fn dict(&self) -> Set<Seq<char>> {
        word_set(self.words@)
    }

    /// Builds the dictionary from the lines of a word list, each line a
    /// five-letter word, one space, and a frequency. The first malformed
    /// line stops the load and is reported; a word that repeats is kept
    /// once, so the dictionary is a true set.
    pub fn new(lines: &Vec<String>) -> (r: Result<Wordle, DictError>)
        ensures
            (r is Ok) <==> (forall|i: int|
                0 <= i < lines@.len() ==> parse_line_spec((#[trigger] lines@[i])@) is Ok),
            r matches Ok(w) ==> {
                &&& w.wf()
                &&& forall|t1: int, t2: int|
                    0 <= t1 < t2 < w.words@.len() ==> (#[trigger] w.words@[t1])@ != (
                    #[trigger] w.words@[t2])@
                &&& forall|x: Seq<char>|
                    #[trigger] w.dict().contains(x) <==> exists|i: int|
                        0 <= i < lines@.len() && x == parse_line_spec((#[trigger] lines@[i])@)->Ok_0.0
            },
            r matches Err(e) ==> exists|i: int|
                0 <= i < lines@.len() && parse_line_spec((#[trigger] lines@[i])@) == Err::<
                    (Seq<char>, int),
                    DictError,
                >(e) && forall|t: int| 0 <= t < i ==> parse_line_spec(lines@[t]@) is Ok,
    {
        let mut parsed: Vec<String> = Vec::new();
        let mut i: usize = 0;
        while i < lines.len()
            invariant
                i <= lines@.len(),
                parsed@.len() == i as int,
                forall|t: int| 0 <= t < i ==> parse_line_spec((#[trigger] lines@[t])@) is Ok,
                forall|t: int|
                    0 <= t < i ==> (#[trigger] parsed@[t])@ == parse_line_spec(lines@[t]@)->Ok_0.0,
            decreases lines@.len() - i,
        {
            match parse_line(&lines[i]) {
                Ok(p) => {
                    parsed.push(p.0);
                },
                Err(e) => {
                    return Err(e);
                },
            }
            i += 1;
        }
        let words = dedup_words(&parsed);
        proof {
            assert forall|t: int|
                0 <= t < words@.len() implies (#[trigger] words@[t])@.len() == WORD_LEN by {
                assert(word_set(parsed@).contains(words@[t]@));
                let s = choose|s: int| 0 <= s < parsed@.len() && (#[trigger] parsed@[s])@
                    == words@[t]@;
                lemma_parsed_word_len(lines@[s]@);
            }
            let w = Wordle { words };
            assert forall|x: Seq<char>| #[trigger] w.dict().contains(x) <==> exists|s: int|
                0 <= s < lines@.len() && x == parse_line_spec((#[trigger] lines@[s])@)->Ok_0.0 by {
                if w.dict().contains(x) {
                    assert(word_set(parsed@).contains(x));
                    let s = choose|s: int| 0 <= s < parsed@.len() && (#[trigger] parsed@[s])@ == x;
                    assert(x == parse_line_spec(lines@[s]@)->Ok_0.0);
                }
                if exists|s: int|
                    0 <= s < lines@.len() && x == parse_line_spec((#[trigger] lines@[s])@)->Ok_0.0 {
                    let s = choose|s: int|
                        0 <= s < lines@.len() && x == parse_line_spec(
                            (#[trigger] lines@[s])@,
                        )->Ok_0.0;
                    assert((parsed@[s])@ == x);
                    assert(word_set(parsed@).contains(x));
                }
            }
        }
        Ok(Wordle { words })
    }

    /// Whether `w` is a dictionary word.
    pub fn has_word(&self, w: &str) -> (r: bool)
        ensures
            r == self.dict().contains(w@),
    {
        word_list_has(&self.words, w)
    }

    /// Judges one proposed guess: a win when it is the answer, the scored
    /// mask when it is another dictionary word, and a contract violation
    /// otherwise.
    pub fn assess(&self, answer: &str, guess: &str) -> (r: GuessOutcome)
        requires
            self.wf(),
            self.dict().contains(answer@),
        ensures
            (r is Win) <==> guess@ == answer@,
            (r is Illegal) <==> (guess@ != answer@ && !self.dict().contains(guess@)),
            (r is Feedback) <==> (guess@ != answer@ && self.dict().contains(guess@)),
            r matches GuessOutcome::Feedback(m) ==> m@ == feedback(answer@, guess@),
    {
        if str_eq(guess, answer) {
            return GuessOutcome::Win;
        }
        if !self.has_word(guess) {
            return GuessOutcome::Illegal;
        }
        proof {
            let ia = choose|i: int|
                0 <= i < self.words@.len() && (#[trigger] self.words@[i])@ == answer@;
            let ig = choose|i: int|
                0 <= i < self.words@.len() && (#[trigger] self.words@[i])@ == guess@;
            assert(self.words@[ia]@.len() == WORD_LEN);
            assert(self.words@[ig]@.len() == WORD_LEN);
        }
        GuessOutcome::Feedback(Correctness::compute(answer, guess))
    }

    /// Runs one game of at most `max_turns` turns: each turn asks the
    /// strategy for a word, stops with the turn number on an exact match,
    /// with no turn number when the turns run out, and with an error the
    /// moment the strategy proposes an illegal word. Each turn is decided
    /// by `assess`, whose contract fixes the three outcomes exactly; what
    /// the whole loop returns for each possible word sequence stands as
    /// the contract of `play_script`, where the words are plain values.
    pub fn play_up_to<G: Guesser>(&self, answer: &str, guesser: G, max_turns: usize) -> (r: Result<
        Option<usize>,
        PlayError,
    >)
        requires
            self.wf(),
            self.dict().contains(answer@),
        ensures
            r matches Ok(Some(t)) ==> 1 <= t <= max_turns,
            max_turns == 0 ==> r == Ok::<Option<usize>, PlayError>(None),
            r is Err ==> max_turns >= 1,
    {
        let mut guesser = guesser;
        let mut history: Vec<Guess> = Vec::new();
        let mut t: usize = 0;
        while t < max_turns
            invariant
                self.wf(),
                self.dict().contains(answer@),
                t <= max_turns,
            decreases max_turns - t,
        {
            let word = guesser.guess(history.as_slice());
            match self.assess(answer, word.as_str()) {
                GuessOutcome::Win => {
                    return Ok(Some(t + 1));
                },
                GuessOutcome::Illegal => {
                    return Err(PlayError::IllegalGuess);
                },
                GuessOutcome::Feedback(mask) => {
                    history.push(Guess { word, mask });
                },
            }
            t += 1;
        }
        Ok(None)
    }

    /// Runs one game against a fixed script of words, the one at index
    /// t - 1 proposed on turn t: the loop's semantics as a contract. A
    /// reported win turn points at the first scripted word that equals the
    /// answer, with only legal misses before it; no result comes exactly
    /// when every scripted word within the limit is a legal miss; the
    /// fatal error comes the moment an illegal word is reached.
    pub fn play_script(&self, answer: &str, words: &Vec<String>, max_turns: usize) -> (r: Result<
        Option<usize>,
        PlayError,
    >)
        requires
            self.wf(),
            self.dict().contains(answer@),
            words@.len() >= max_turns,
        ensures
            r matches Ok(Some(t)) ==> 1 <= t <= max_turns && words@[t - 1]@ == answer@ && forall|
                k: int,
            |
                0 <= k < t - 1 ==> ((#[trigger] words@[k])@ != answer@ && self.dict().contains(
                    words@[k]@,
                )),
            r == Ok::<Option<usize>, PlayError>(None) ==> forall|k: int|
                0 <= k < max_turns ==> ((#[trigger] words@[k])@ != answer@
                    && self.dict().contains(words@[k]@)),
            r is Err ==> exists|j: int|
                0 <= j < max_turns && (#[trigger] words@[j])@ != answer@ && !self.dict().contains(
                    words@[j]@,
                ) && forall|k: int|
                    0 <= k < j ==> ((#[trigger] words@[k])@ != answer@ && self.dict().contains(
                        words@[k]@,
                    )),
    {
        let mut t: usize = 0;
        while t < max_turns
            invariant
                self.wf(),
                self.dict().contains(answer@),
                t <= max_turns,
                words@.len() >= max_turns,
                forall|k: int|
                    0 <= k < t ==> ((#[trigger] words@[k])@ != answer@ && self.dict().contains(
                        words@[k]@,
                    )),
            decreases max_turns - t,
        {
            match self.assess(answer, words[t].as_str()) {
                GuessOutcome::Win => {
                    return Ok(Some(t + 1));
                },
                GuessOutcome::Illegal => {
                    return Err(PlayError::IllegalGuess);
                },
                GuessOutcome::Feedback(_) => {},
            }
            t += 1;
        }
        Ok(None)
    }

    /// Runs one game with the default turn limit.
    pub fn play<G: Guesser>(&self, answer: &str, guesser: G) -> (r: Result<
        Option<usize>,
        PlayError,
    >)
        requires
            self.wf(),
            self.dict().contains(answer@),
        ensures
            r matches Ok(Some(t)) ==> 1 <= t <= MAX_TURNS,
    {
        self.play_up_to(answer, guesser, MAX_TURNS)
    }
}

} // verus!
