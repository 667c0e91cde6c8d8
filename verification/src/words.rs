//! Parsing dictionary lines: each line holds a five-letter word, one space,
//! and a decimal occurrence count.

use crate::scoring::WORD_LEN;
use vstd::prelude::*;

verus! {

/// Why a dictionary line was rejected.
#[derive(Debug, Clone, Copy, PartialEq, Eq, Structural)]
pub enum DictError {
    /// The line holds no space to separate the word from its frequency.
    MissingSeparator,
    /// The text after the separator is not a frequency this machine can
    /// hold: it is empty, holds a non-digit, or exceeds `usize::MAX`.
    BadFrequency,
    /// The word before the separator does not have exactly five letters.
    BadWordLength,
}

/// Whether `c` is a decimal digit.
pub open spec fn is_digit(c: char) -> bool {
    48 <= c as u32 <= 57
}

/// The value of the digit `c`.
pub open spec fn digit_val(c: char) -> int {
    c as u32 - 48
}

/// The value of the first `n` characters of `s` read as a decimal number,
/// most significant digit first.
pub open spec fn digits_value(s: Seq<char>, n: int) -> int
    decreases n,
{
    if n <= 0 {
        0
    } else {
        digits_value(s, n - 1) * 10 + digit_val(s[n - 1])
    }
}

/// Whether every character of `s` is a decimal digit.
pub open spec fn all_digits(s: Seq<char>) -> bool {
    forall|k: int| 0 <= k < s.len() ==> is_digit(#[trigger] s[k])
}

/// The index of the first space of `s` at or after `i`, or -1 when there
/// is none.
pub open spec fn first_space_from(s: Seq<char>, i: int) -> int
    decreases s.len() - i,
{
    if i < 0 || i >= s.len() {
        -1
    } else if s[i] == ' ' {
        i
    } else {
        first_space_from(s, i + 1)
    }
}

/// The index of the first space of `s`, or -1 when `s` holds none.
pub open spec fn first_space(s: Seq<char>) -> int {
    first_space_from(s, 0)
}

/// What parsing one dictionary line yields: its word and its frequency, or
/// the defect that makes the line malformed. The line splits at its first
/// space; the word must have exactly five letters and the frequency must be
/// a non-empty run of digits whose value fits in `usize`.
pub open spec fn parse_line_spec(s: Seq<char>) -> Result<(Seq<char>, int), DictError> {
    let k = first_space(s);
    if k < 0 {
        Err(DictError::MissingSeparator)
    } else {
        let word = s.subrange(0, k);
        let freq = s.subrange(k + 1, s.len() as int);
        if word.len() != WORD_LEN {
            Err(DictError::BadWordLength)
        } else if freq.len() == 0 || !all_digits(freq) || digits_value(freq, freq.len() as int)
            > usize::MAX as int {
            Err(DictError::BadFrequency)
        } else {
            Ok((word, digits_value(freq, freq.len() as int)))
        }
    }
}

/// A line that parses yields a word of exactly five letters.
pub proof fn lemma_parsed_word_len(s: Seq<char>)
    requires
        parse_line_spec(s) is Ok,
    ensures
        (parse_line_spec(s)->Ok_0.0).len() == WORD_LEN,
{
}

proof fn lemma_first_space_at(s: Seq<char>, i: int, k: int)
    requires
        0 <= i <= k < s.len(),
        s[k] == ' ',
        forall|t: int| i <= t < k ==> s[t] != ' ',
    ensures
        first_space_from(s, i) == k,
    decreases k - i,
{
    if i < k {
        lemma_first_space_at(s, i + 1, k);
    }
}

proof fn lemma_no_space(s: Seq<char>, i: int)
    requires
        0 <= i <= s.len(),
        forall|t: int| i <= t < s.len() ==> s[t] != ' ',
    ensures
        first_space_from(s, i) == -1,
    decreases s.len() - i,
{
    if i < s.len() {
        lemma_no_space(s, i + 1);
    }
}

proof fn lemma_digits_value_grows(s: Seq<char>, m: int, n: int)
    requires
        0 <= m <= n <= s.len(),
        forall|k: int| m <= k < n ==> is_digit(#[trigger] s[k]),
        digits_value(s, m) >= 0,
    ensures
        digits_value(s, n) >= digits_value(s, m),
    decreases n - m,
{
    if m < n {
        lemma_digits_value_grows(s, m, n - 1);
    }
}

/// The index of the first space of `line`, when it holds one.
fn find_space(line: &str) -> (r: Option<usize>)
    ensures
        r matches Some(k) ==> k < line@.len() && line@[k as int] == ' ' && forall|t: int|
            0 <= t < k ==> line@[t] != ' ',
        r is None ==> forall|t: int| 0 <= t < line@.len() ==> line@[t] != ' ',
{
    let n = line.unicode_len();
    let mut k: usize = 0;
    while k < n
        invariant
            k <= n,
            n == line@.len(),
            forall|t: int| 0 <= t < k ==> line@[t] != ' ',
        decreases n - k,
    {
        if line.get_char(k) == ' ' {
            return Some(k);
        }
        k += 1;
    }
    None
}

/// Splits one dictionary line into its five-letter word and its frequency,
/// or reports how the line is malformed.
pub fn parse_line(line: &str) -> (r: Result<(String, usize), DictError>)
    ensures
        r matches Ok(p) ==> parse_line_spec(line@) == Ok::<(Seq<char>, int), DictError>(
            (p.0@, p.1 as int),
        ),
        r matches Err(e) ==> parse_line_spec(line@) == Err::<(Seq<char>, int), DictError>(e),
{
    let n = line.unicode_len();
    let k = match find_space(line) {
        None => {
            proof {
                lemma_no_space(line@, 0);
            }
            return Err(DictError::MissingSeparator);
        },
        Some(k) => k,
    };
    proof {
        lemma_first_space_at(line@, 0, k as int);
    }
    if k != WORD_LEN {
        return Err(DictError::BadWordLength);
    }
    let ghost fs = line@.subrange(k as int + 1, line@.len() as int);
    if k + 1 == n {
        return Err(DictError::BadFrequency);
    }
    let mut val: usize = 0;
    let mut j: usize = k + 1;
    while j < n
        invariant
            n == line@.len(),
            k < n,
            k == WORD_LEN,
            first_space(line@) == k as int,
            fs == line@.subrange(k as int + 1, line@.len() as int),
            k + 1 < n,
            k + 1 <= j <= n,
            val == digits_value(fs, j - k - 1),
            forall|t: int| 0 <= t < j - k - 1 ==> is_digit(#[trigger] fs[t]),
        decreases n - j,
    {
        let cu = line.get_char(j) as u32;
        if cu < 48 || cu > 57 {
            assert(!is_digit(fs[j - k - 1]));
            return Err(DictError::BadFrequency);
        }
        let d = (cu - 48) as usize;
        if val > (usize::MAX - d) / 10 {
            proof {
                vstd::arithmetic::div_mod::lemma_fundamental_div_mod(
                    usize::MAX as int - d as int,
                    10,
                );
                assert(digits_value(fs, j - k) > usize::MAX as int);
                if all_digits(fs) {
                    lemma_digits_value_grows(fs, j - k, fs.len() as int);
                }
            }
            return Err(DictError::BadFrequency);
        }
        proof {
            vstd::arithmetic::div_mod::lemma_fundamental_div_mod(usize::MAX as int - d as int, 10);
        }
        val = val * 10 + d;
        j += 1;
    }
    let word = line.substring_char(0, k).to_owned();
    Ok((word, val))
}

} // verus!
