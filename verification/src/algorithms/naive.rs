//! The frequency table behind the naive strategy: every dictionary word
//! together with its occurrence count, for a heuristic to weigh. The
//! selection heuristic itself is not part of the verified core.

use crate::words::{parse_line, parse_line_spec, DictError};
use vstd::prelude::*;

verus! {

/// A frequency-weighted word table: each entry pairs a dictionary word
/// with its occurrence count, in the order the word list gives them.
pub struct Naive {
    /// The (word, count) pairs still in play for the strategy.
    pub remaining: Vec<(String, usize)>,
}

impl Naive {
    /// The table as a sequence of (word, count) pairs.
    pub open spec fn table(&self) -> Seq<(Seq<char>, int)> {
        Seq::new(
            self.remaining@.len(),
            |i: int| (self.remaining@[i].0@, self.remaining@[i].1 as int),
        )
    }

    /// Loads the table from the lines of a word list, each line a
    /// five-letter word, one space, and a frequency. The first malformed
    /// line stops the load and is reported.
    pub fn new(lines: &Vec<String>) -> (r: Result<Naive, DictError>)
        ensures
            (r is Ok) <==> (forall|i: int|
                0 <= i < lines@.len() ==> parse_line_spec((#[trigger] lines@[i])@) is Ok),
            r matches Ok(n) ==> {
                &&& n.table().len() == lines@.len()
                &&& forall|i: int|
                    0 <= i < lines@.len() ==> #[trigger] n.table()[i] == parse_line_spec(
                        lines@[i]@,
                    )->Ok_0
            },
            r matches Err(e) ==> exists|i: int|
                0 <= i < lines@.len() && parse_line_spec((#[trigger] lines@[i])@) == Err::<
                    (Seq<char>, int),
                    DictError,
                >(e) && forall|t: int| 0 <= t < i ==> parse_line_spec(lines@[t]@) is Ok,
    {
        let mut remaining: Vec<(String, usize)> = Vec::new();
        let mut i: usize = 0;
        while i < lines.len()
            invariant
                i <= lines@.len(),
                remaining@.len() == i as int,
                forall|t: int| 0 <= t < i ==> parse_line_spec((#[trigger] lines@[t])@) is Ok,
                forall|t: int|
                    0 <= t < i ==> ((#[trigger] remaining@[t]).0@, remaining@[t].1 as int)
                        == parse_line_spec(lines@[t]@)->Ok_0,
            decreases lines@.len() - i,
        {
            match parse_line(&lines[i]) {
                Ok(p) => {
                    remaining.push(p);
                },
                Err(e) => {
                    return Err(e);
                },
            }
            i += 1;
        }
        Ok(Naive { remaining })
    }
}

} // verus!
