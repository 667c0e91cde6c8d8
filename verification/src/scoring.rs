//! Scoring a guess against the answer: the five-slot feedback mask and the
//! duplicate-letter-aware rules that produce it.

use vstd::prelude::*;

verus! {

/// Every word in the game has exactly this many letters.
pub const WORD_LEN: usize = 5;

/// Per-position feedback for one guessed letter.
#[derive(Debug, Clone, Copy, PartialEq, Eq, Structural)]
pub enum Correctness {
    /// Green: the letter matches the answer at this position.
    Correct,
    /// Yellow: the letter occurs elsewhere in the answer and an occurrence
    /// is still available to credit it.
    Misplaced,
    /// Gray: the letter earns no credit at this position.
    Wrong,
}

/// Number of positions `j < n` whose answer letter is `ch` and is not an
/// exact match: the occurrences of `ch` still available for yellow credit.
pub open spec fn available_count(answer: Seq<char>, guess: Seq<char>, ch: char, n: int) -> int
    decreases n,
{
    if n <= 0 {
        0
    } else {
        available_count(answer, guess, ch, n - 1) + if answer[n - 1] == ch && answer[n - 1]
            != guess[n - 1] {
            1int
        } else {
            0int
        }
    }
}

/// Number of positions `k < n` whose guessed letter is `ch` and is not an
/// exact match: the earlier claims on occurrences of `ch` in the answer.
pub open spec fn claimed_count(answer: Seq<char>, guess: Seq<char>, ch: char, n: int) -> int
    decreases n,
{
    if n <= 0 {
        0
    } else {
        claimed_count(answer, guess, ch, n - 1) + if guess[n - 1] == ch && guess[n - 1] != answer[n
            - 1] {
            1int
        } else {
            0int
        }
    }
}

/// The feedback owed at position `i`: green on an exact match; otherwise
/// yellow exactly when the earlier non-green occurrences of this letter in
/// the guess have not yet used up its available occurrences in the answer.
pub open spec fn mask_at(answer: Seq<char>, guess: Seq<char>, i: int) -> Correctness {
    if answer[i] == guess[i] {
        Correctness::Correct
    } else if claimed_count(answer, guess, guess[i], i) < available_count(
        answer,
        guess,
        guess[i],
        WORD_LEN as int,
    ) {
        Correctness::Misplaced
    } else {
        Correctness::Wrong
    }
}

/// The whole feedback mask for one guess.
pub open spec fn feedback(answer: Seq<char>, guess: Seq<char>) -> Seq<Correctness> {
    Seq::new(WORD_LEN as nat, |i: int| mask_at(answer, guess, i))
}

/// The smaller of two integers.
pub open spec fn min_int(a: int, b: int) -> int {
    if a < b {
        a
    } else {
        b
    }
}

/// Number of positions `j < n` whose answer letter is `ch`, is not an exact
/// match, and is marked in `used`: the occurrences of `ch` already handed
/// out as yellow credit during the scan.
pub open spec fn consumed_count(
    answer: Seq<char>,
    guess: Seq<char>,
    used: Seq<bool>,
    ch: char,
    n: int,
) -> int
    decreases n,
{
    if n <= 0 {
        0
    } else {
        consumed_count(answer, guess, used, ch, n - 1) + if used[n - 1] && answer[n - 1] == ch
            && answer[n - 1] != guess[n - 1] {
            1int
        } else {
            0int
        }
    }
}

proof fn lemma_counts_nonneg(answer: Seq<char>, guess: Seq<char>, used: Seq<bool>, ch: char, n: int)
    ensures
        available_count(answer, guess, ch, n) >= 0,
        claimed_count(answer, guess, ch, n) >= 0,
        consumed_count(answer, guess, used, ch, n) >= 0,
    decreases n,
{
    if n > 0 {
        lemma_counts_nonneg(answer, guess, used, ch, n - 1);
    }
}

proof fn lemma_consumed_le_available(
    answer: Seq<char>,
    guess: Seq<char>,
    used: Seq<bool>,
    ch: char,
    n: int,
)
    ensures
        consumed_count(answer, guess, used, ch, n) <= available_count(answer, guess, ch, n),
    decreases n,
{
    if n > 0 {
        lemma_consumed_le_available(answer, guess, used, ch, n - 1);
    }
}

proof fn lemma_green_only_consumed_zero(
    answer: Seq<char>,
    guess: Seq<char>,
    used: Seq<bool>,
    ch: char,
    n: int,
)
    requires
        forall|j: int| 0 <= j < n ==> (used[j] ==> answer[j] == guess[j]),
    ensures
        consumed_count(answer, guess, used, ch, n) == 0,
    decreases n,
{
    if n > 0 {
        lemma_green_only_consumed_zero(answer, guess, used, ch, n - 1);
    }
}

proof fn lemma_all_used_consumed_full(
    answer: Seq<char>,
    guess: Seq<char>,
    used: Seq<bool>,
    ch: char,
    n: int,
)
    requires
        forall|j: int| 0 <= j < n ==> (answer[j] == ch ==> used[j]),
    ensures
        consumed_count(answer, guess, used, ch, n) == available_count(answer, guess, ch, n),
    decreases n,
{
    if n > 0 {
        lemma_all_used_consumed_full(answer, guess, used, ch, n - 1);
    }
}

proof fn lemma_unused_consumed_lt(
    answer: Seq<char>,
    guess: Seq<char>,
    used: Seq<bool>,
    ch: char,
    n: int,
    j: int,
)
    requires
        0 <= j < n,
        answer[j] == ch,
        answer[j] != guess[j],
        !used[j],
    ensures
        consumed_count(answer, guess, used, ch, n) < available_count(answer, guess, ch, n),
    decreases n,
{
    if n - 1 == j {
        lemma_consumed_le_available(answer, guess, used, ch, n - 1);
    } else {
        lemma_unused_consumed_lt(answer, guess, used, ch, n - 1, j);
    }
}

proof fn lemma_consumed_update(
    answer: Seq<char>,
    guess: Seq<char>,
    used: Seq<bool>,
    ch: char,
    n: int,
    j: int,
)
    requires
        0 <= j < used.len(),
        n <= used.len(),
    ensures
        consumed_count(answer, guess, used.update(j, true), ch, n) == consumed_count(
            answer,
            guess,
            used,
            ch,
            n,
        ) + if 0 <= j < n && !used[j] && answer[j] == ch && answer[j] != guess[j] {
            1int
        } else {
            0int
        },
    decreases n,
{
    if n > 0 {
        lemma_consumed_update(answer, guess, used, ch, n - 1, j);
        if j == n - 1 {
            assert(used.update(j, true)[n - 1] == true);
        } else {
            assert(used.update(j, true)[n - 1] == used[n - 1]);
        }
    }
}

/// Number of positions `i < n` of the mask holding the value `v`.
pub open spec fn count_feedback(mask: Seq<Correctness>, v: Correctness, n: int) -> int
    decreases n,
{
    if n <= 0 {
        0
    } else {
        count_feedback(mask, v, n - 1) + if mask[n - 1] == v {
            1int
        } else {
            0int
        }
    }
}

/// Number of positions `i < n` where answer and guess hold the same letter.
pub open spec fn count_exact(answer: Seq<char>, guess: Seq<char>, n: int) -> int
    decreases n,
{
    if n <= 0 {
        0
    } else {
        count_exact(answer, guess, n - 1) + if answer[n - 1] == guess[n - 1] {
            1int
        } else {
            0int
        }
    }
}

/// Number of occurrences of `ch` among the first `n` letters of `s`.
pub open spec fn count_char(s: Seq<char>, ch: char, n: int) -> int
    decreases n,
{
    if n <= 0 {
        0
    } else {
        count_char(s, ch, n - 1) + if s[n - 1] == ch {
            1int
        } else {
            0int
        }
    }
}

/// Number of positions `i < n` where the guessed letter is `ch` and the mask
/// grants it credit (green or yellow).
pub open spec fn count_credited(guess: Seq<char>, mask: Seq<Correctness>, ch: char, n: int) -> int
    decreases n,
{
    if n <= 0 {
        0
    } else {
        count_credited(guess, mask, ch, n - 1) + if guess[n - 1] == ch && mask[n - 1]
            != Correctness::Wrong {
            1int
        } else {
            0int
        }
    }
}

proof fn lemma_correct_count_prefix(answer: Seq<char>, guess: Seq<char>, n: int)
    requires
        answer.len() == WORD_LEN,
        guess.len() == WORD_LEN,
        0 <= n <= WORD_LEN,
    ensures
        count_feedback(feedback(answer, guess), Correctness::Correct, n) == count_exact(
            answer,
            guess,
            n,
        ),
    decreases n,
{
    if n > 0 {
        lemma_correct_count_prefix(answer, guess, n - 1);
        assert(feedback(answer, guess)[n - 1] == mask_at(answer, guess, n - 1));
    }
}

/// Law: for every pair of five-letter words the feedback holds exactly five
/// entries, and the number of green entries equals (so never exceeds) the
/// number of positions where answer and guess hold the same letter.
pub proof fn lemma_feedback_len_and_correct_count(answer: Seq<char>, guess: Seq<char>)
    requires
        answer.len() == WORD_LEN,
        guess.len() == WORD_LEN,
    ensures
        feedback(answer, guess).len() == WORD_LEN,
        count_feedback(feedback(answer, guess), Correctness::Correct, WORD_LEN as int)
            == count_exact(answer, guess, WORD_LEN as int),
{
    lemma_correct_count_prefix(answer, guess, WORD_LEN as int);
}

/// Number of positions `i < n` where the guessed letter is `ch` and matches
/// the answer exactly.
pub open spec fn count_green_of(answer: Seq<char>, guess: Seq<char>, ch: char, n: int) -> int
    decreases n,
{
    if n <= 0 {
        0
    } else {
        count_green_of(answer, guess, ch, n - 1) + if guess[n - 1] == ch && answer[n - 1] == guess[n
            - 1] {
            1int
        } else {
            0int
        }
    }
}

proof fn lemma_credited_decomp(answer: Seq<char>, guess: Seq<char>, ch: char, n: int)
    requires
        answer.len() == WORD_LEN,
        guess.len() == WORD_LEN,
        0 <= n <= WORD_LEN,
    ensures
        count_credited(guess, feedback(answer, guess), ch, n) == count_green_of(
            answer,
            guess,
            ch,
            n,
        ) + min_int(
            claimed_count(answer, guess, ch, n),
            available_count(answer, guess, ch, WORD_LEN as int),
        ),
    decreases n,
{
    lemma_counts_nonneg(answer, guess, Seq::empty(), ch, WORD_LEN as int);
    if n > 0 {
        lemma_credited_decomp(answer, guess, ch, n - 1);
        assert(feedback(answer, guess)[n - 1] == mask_at(answer, guess, n - 1));
    }
}

proof fn lemma_answer_partition(answer: Seq<char>, guess: Seq<char>, ch: char, n: int)
    requires
        0 <= n <= answer.len(),
        guess.len() == answer.len(),
    ensures
        count_green_of(answer, guess, ch, n) + available_count(answer, guess, ch, n) == count_char(
            answer,
            ch,
            n,
        ),
    decreases n,
{
    if n > 0 {
        lemma_answer_partition(answer, guess, ch, n - 1);
    }
}

/// Law: when a letter occurs more often in the guess than in the answer,
/// the feedback still credits it (green or yellow) at most as many times
/// as it occurs in the answer.
pub proof fn lemma_repeated_letter(answer: Seq<char>, guess: Seq<char>, ch: char)
    requires
        answer.len() == WORD_LEN,
        guess.len() == WORD_LEN,
        count_char(guess, ch, WORD_LEN as int) > count_char(answer, ch, WORD_LEN as int),
    ensures
        count_credited(guess, feedback(answer, guess), ch, WORD_LEN as int) <= count_char(
            answer,
            ch,
            WORD_LEN as int,
        ),
{
    lemma_credited_decomp(answer, guess, ch, WORD_LEN as int);
    lemma_answer_partition(answer, guess, ch, WORD_LEN as int);
}

/// Marks the first still-unmarked occurrence of `ch` in the answer, if any.
/// Returns whether one was found; on success exactly one slot of `used`
/// flips from false to true.
fn claim_first(answer: &str, used: &mut Vec<bool>, ch: char) -> (r: bool)
    requires
        answer@.len() == WORD_LEN,
        old(used)@.len() == WORD_LEN,
    ensures
        final(used)@.len() == WORD_LEN,
        r ==> exists|j: int|
            0 <= j < WORD_LEN && answer@[j] == ch && !old(used)@[j] && final(used)@ == old(
                used,
            )@.update(j, true),
        !r ==> final(used)@ == old(used)@ && forall|j: int|
            0 <= j < WORD_LEN && answer@[j] == ch ==> old(used)@[j],
{
    let mut j: usize = 0;
    while j < WORD_LEN
        invariant
            j <= WORD_LEN,
            answer@.len() == WORD_LEN,
            used@.len() == WORD_LEN,
            used@ == old(used)@,
            forall|k: int| 0 <= k < j ==> (answer@[k] == ch ==> used@[k]),
        decreases WORD_LEN - j,
    {
        if answer.get_char(j) == ch && !used[j] {
            used.set(j, true);
            return true;
        }
        j += 1;
    }
    false
}

impl Correctness {
    /// Scores `guess` against `answer`: one pass marks the exact matches
    /// green and consumes their answer positions, a second pass walks the
    /// remaining guess letters left to right and credits each with yellow
    /// exactly while an unconsumed occurrence of it remains in the answer.
    pub fn compute(answer: &str, guess: &str) -> (r: Vec<Correctness>)
        requires
            answer@.len() == WORD_LEN,
            guess@.len() == WORD_LEN,
        ensures
            r@ == feedback(answer@, guess@),
    {
        let mut c: Vec<Correctness> = Vec::new();
        let mut used: Vec<bool> = Vec::new();
        // pass 1: exact matches turn green, and their answer slots are consumed
        let mut i: usize = 0;
        while i < WORD_LEN
            invariant
                i <= WORD_LEN,
                answer@.len() == WORD_LEN,
                guess@.len() == WORD_LEN,
                c@.len() == i as int,
                used@.len() == i as int,
                forall|k: int|
                    0 <= k < i ==> c@[k] == (if answer@[k] == guess@[k] {
                        Correctness::Correct
                    } else {
                        Correctness::Wrong
                    }),
                forall|k: int| 0 <= k < i ==> used@[k] == (answer@[k] == guess@[k]),
            decreases WORD_LEN - i,
        {
            if answer.get_char(i) == guess.get_char(i) {
                c.push(Correctness::Correct);
                used.push(true);
            } else {
                c.push(Correctness::Wrong);
                used.push(false);
            }
            i += 1;
        }
        proof {
            assert forall|ch: char|
                #[trigger] consumed_count(answer@, guess@, used@, ch, WORD_LEN as int) == min_int(
                    claimed_count(answer@, guess@, ch, 0),
                    available_count(answer@, guess@, ch, WORD_LEN as int),
                ) by {
                lemma_green_only_consumed_zero(answer@, guess@, used@, ch, WORD_LEN as int);
                lemma_counts_nonneg(answer@, guess@, used@, ch, WORD_LEN as int);
            }
        }
        // pass 2: non-green letters claim leftover occurrences, left to right
        let mut i: usize = 0;
        while i < WORD_LEN
            invariant
                i <= WORD_LEN,
                answer@.len() == WORD_LEN,
                guess@.len() == WORD_LEN,
                c@.len() == WORD_LEN,
                used@.len() == WORD_LEN,
                forall|k: int| 0 <= k < WORD_LEN ==> (answer@[k] == guess@[k] ==> used@[k]),
                forall|k: int|
                    i <= k < WORD_LEN ==> c@[k] == (if answer@[k] == guess@[k] {
                        Correctness::Correct
                    } else {
                        Correctness::Wrong
                    }),
                forall|k: int| 0 <= k < i ==> c@[k] == mask_at(answer@, guess@, k),
                forall|ch: char|
                    #[trigger] consumed_count(answer@, guess@, used@, ch, WORD_LEN as int)
                        == min_int(
                        claimed_count(answer@, guess@, ch, i as int),
                        available_count(answer@, guess@, ch, WORD_LEN as int),
                    ),
            decreases WORD_LEN - i,
        {
            let g = guess.get_char(i);
            let a = answer.get_char(i);
            if a == g {
                proof {
                    assert forall|ch: char|
                        #[trigger] consumed_count(answer@, guess@, used@, ch, WORD_LEN as int)
                            == min_int(
                            claimed_count(answer@, guess@, ch, i + 1),
                            available_count(answer@, guess@, ch, WORD_LEN as int),
                        ) by {
                        assert(claimed_count(answer@, guess@, ch, i + 1) == claimed_count(
                            answer@,
                            guess@,
                            ch,
                            i as int,
                        ));
                    }
                }
            } else {
                let ghost u0 = used@;
                let hit = claim_first(answer, &mut used, g);
                if hit {
                    proof {
                        let j = choose|j: int|
                            0 <= j < WORD_LEN && answer@[j] == g && !u0[j] && used@ == u0.update(
                                j,
                                true,
                            );
                        lemma_unused_consumed_lt(answer@, guess@, u0, g, WORD_LEN as int, j);
                        assert(claimed_count(answer@, guess@, g, i as int) < available_count(
                            answer@,
                            guess@,
                            g,
                            WORD_LEN as int,
                        ));
                        assert(mask_at(answer@, guess@, i as int) == Correctness::Misplaced);
                        assert forall|ch: char|
                            #[trigger] consumed_count(answer@, guess@, used@, ch, WORD_LEN as int)
                                == min_int(
                                claimed_count(answer@, guess@, ch, i + 1),
                                available_count(answer@, guess@, ch, WORD_LEN as int),
                            ) by {
                            lemma_consumed_update(answer@, guess@, u0, ch, WORD_LEN as int, j);
                            assert(claimed_count(answer@, guess@, ch, i + 1) == claimed_count(
                                answer@,
                                guess@,
                                ch,
                                i as int,
                            ) + if guess@[i as int] == ch {
                                1int
                            } else {
                                0int
                            });
                        }
                    }
                    c.set(i, Correctness::Misplaced);
                } else {
                    proof {
                        lemma_all_used_consumed_full(answer@, guess@, used@, g, WORD_LEN as int);
                        assert(claimed_count(answer@, guess@, g, i as int) >= available_count(
                            answer@,
                            guess@,
                            g,
                            WORD_LEN as int,
                        ));
                        assert(mask_at(answer@, guess@, i as int) == Correctness::Wrong);
                        assert forall|ch: char|
                            #[trigger] consumed_count(answer@, guess@, used@, ch, WORD_LEN as int)
                                == min_int(
                                claimed_count(answer@, guess@, ch, i + 1),
                                available_count(answer@, guess@, ch, WORD_LEN as int),
                            ) by {
                            assert(claimed_count(answer@, guess@, ch, i + 1) == claimed_count(
                                answer@,
                                guess@,
                                ch,
                                i as int,
                            ) + if guess@[i as int] == ch {
                                1int
                            } else {
                                0int
                            });
                        }
                    }
                }
            }
            i += 1;
        }
        proof {
            assert(c@ =~= feedback(answer@, guess@));
        }
        c
    }
}

} // verus!
