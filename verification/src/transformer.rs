//! The memoized line transformer: a line that was converted before is answered
//! from a bounded store, which forgets the line that went unused the longest.

use crate::cache::{
    cache_contains, cache_entries, cache_get, cache_len, cache_limit, cache_put, cache_with_limit,
};
use crate::codec::chars_result;
use crate::line::{convert_line, convert_line_spec, LineError, Mode};
use crate::memo::{lemma_after_keeps_wf, lemma_answer_is_conversion, Memo};
use lru::LruCache;
use vstd::prelude::*;

verus! {

/// Why a transformer cannot be built.
#[derive(Clone, Copy, Debug, PartialEq, Eq, Structural)]
pub enum ConfigError {
    /// A memo must have room for at least one line.
    ZeroCapacity,
    /// The capacity is not written as a number that the machine can hold.
    NotANumber,
}

/// The character sequences of some strings.
pub open spec fn texts(lines: Seq<String>) -> Seq<Seq<char>> {
    Seq::new(lines.len(), |i: int| lines[i]@)
}

/// The result of a run over many lines, which stops at the first line that
/// fails.
#[derive(Clone, Debug, PartialEq, Eq)]
pub struct Conversion {
    /// The outputs of the lines before the first that failed, in their order.
    pub lines: Vec<String>,
    /// Why the first line without an output has none; `None` where every
    /// line has one.
    pub failure: Option<LineError>,
}

impl Conversion {
    /// This is what a run in direction `mode` over `input` gives: one output
    /// for every line up to the first that fails, and that line's error.
    pub open spec fn is_run_of(self, mode: Mode, input: Seq<Seq<char>>) -> bool {
        &&& self.lines.len() <= input.len()
        &&& forall|i: int|
            0 <= i < self.lines.len() ==> convert_line_spec(mode, input[i]) == Ok::<
                Seq<char>,
                LineError,
            >(#[trigger] self.lines[i]@)
        &&& match self.failure {
            Some(e) => self.lines.len() < input.len() && convert_line_spec(
                mode,
                input[self.lines.len() as int],
            ) == Err::<Seq<char>, LineError>(e),
            None => self.lines.len() == input.len(),
        }
    }
}

/// The input decides the run: two results that are both runs over the same
/// lines in the same direction hold the same outputs and the same failure,
/// whatever the capacity of the memo that each went through.
pub proof fn lemma_run_is_decided_by_input(
    a: Conversion,
    b: Conversion,
    mode: Mode,
    input: Seq<Seq<char>>,
)
    requires
        a.is_run_of(mode, input),
        b.is_run_of(mode, input),
    ensures
        texts(a.lines@) == texts(b.lines@),
        a.failure == b.failure,
{
    let n = a.lines.len() as int;
    let m = b.lines.len() as int;
    if n < m {
        assert(convert_line_spec(mode, input[n]) == Ok::<Seq<char>, LineError>(b.lines[n]@));
    }
    if m < n {
        assert(convert_line_spec(mode, input[m]) == Ok::<Seq<char>, LineError>(a.lines[m]@));
    }
    assert forall|i: int| 0 <= i < n implies #[trigger] a.lines[i]@ == b.lines[i]@ by {
        assert(convert_line_spec(mode, input[i]) == Ok::<Seq<char>, LineError>(a.lines[i]@));
        assert(convert_line_spec(mode, input[i]) == Ok::<Seq<char>, LineError>(b.lines[i]@));
    }
    assert(texts(a.lines@) =~= texts(b.lines@));
}

/// Converts lines in one direction and remembers the lines it converted, up
/// to its capacity.
pub struct LineTransformer {
    mode: Mode,
    cache: LruCache<String, String>,
}

impl View for LineTransformer {
    type V = Memo;

    closed spec fn view(&self) -> Memo {
        Memo {
            mode: self.mode,
            capacity: cache_limit(self.cache),
            entries: cache_entries(self.cache),
        }
    }
}

impl LineTransformer {
    /// A transformer for `mode` that remembers at most `capacity` lines, and
    /// so far none.
    pub fn new(capacity: usize, mode: Mode) -> (r: Result<LineTransformer, ConfigError>)
        ensures
            capacity == 0 ==> r == Err::<LineTransformer, ConfigError>(ConfigError::ZeroCapacity),
            capacity > 0 ==> r is Ok && r.unwrap()@ == Memo::empty(mode, capacity as nat)
                && r.unwrap()@.wf(),
    {
        if capacity == 0 {
            return Err(ConfigError::ZeroCapacity);
        }
        Ok(LineTransformer { mode, cache: cache_with_limit(capacity) })
    }

    /// The output line for `line`: the remembered one where `line` was
    /// converted before and is still remembered, which counts as a use of
    /// it; else a fresh conversion, which is then remembered.
    pub fn transform(&mut self, line: &str) -> (r: Result<String, LineError>)
        requires
            old(self)@.wf(),
        ensures
            chars_result(r) == old(self)@.answer(line@),
            final(self)@ == old(self)@.after(line@),
            final(self)@.wf(),
    {
        proof {
            lemma_after_keeps_wf(self@, line@);
        }
        match cache_get(&mut self.cache, line) {
            Some(output) => {
                proof {
                    let before = old(self)@;
                    let at = choose|i: int|
                        0 <= i < before.entries.len() && before.entries[i] == (line@, output@)
                            && self@.entries == seq![(line@, output@)] + before.entries.remove(i);
                    assert(before.entries[at].0 == line@);
                    assert(before.slot_of(line@) == at);
                }
                Ok(output)
            },
            None => match convert_line(self.mode, line) {
                Err(e) => Err(e),
                Ok(output) => {
                    cache_put(&mut self.cache, line.to_owned(), output.clone());
                    Ok(output)
                },
            },
        }
    }

    /// Feeds `lines` in their order, up to the first that fails.
    pub fn transform_all(&mut self, lines: &Vec<String>) -> (run: Conversion)
        requires
            old(self)@.wf(),
        ensures
            run.is_run_of(old(self)@.mode, texts(lines@)),
            final(self)@ == old(self)@.after_all(texts(lines@).take(run.lines.len() as int)),
            final(self)@.wf(),
    {
        let ghost input = texts(lines@);
        let mut outputs: Vec<String> = Vec::new();
        let mut i: usize = 0;
        while i < lines.len()
            invariant
                i <= lines.len(),
                input == texts(lines@),
                outputs.len() == i,
                forall|k: int|
                    0 <= k < i ==> convert_line_spec(old(self)@.mode, input[k]) == Ok::<
                        Seq<char>,
                        LineError,
                    >(#[trigger] outputs[k]@),
                self@ == old(self)@.after_all(input.take(i as int)),
                self@.mode == old(self)@.mode,
                self@.wf(),
            decreases lines.len() - i,
        {
            proof {
                lemma_answer_is_conversion(self@, input[i as int]);
                assert(input.take(i + 1).drop_last() == input.take(i as int));
            }
            match self.transform(lines[i].as_str()) {
                Ok(output) => {
                    outputs.push(output);
                },
                Err(e) => {
                    return Conversion { lines: outputs, failure: Some(e) };
                },
            }
            i += 1;
        }
        assert(input.take(i as int) == input);
        Conversion { lines: outputs, failure: None }
    }

    /// Whether `line` is remembered now. Asking does not count as a use.
    pub fn contains(&self, line: &str) -> (b: bool)
        ensures
            b == self@.holds(line@),
    {
        cache_contains(&self.cache, line)
    }

    /// The number of lines remembered now.
    pub fn len(&self) -> (n: usize)
        ensures
            n == self@.entries.len(),
    {
        cache_len(&self.cache)
    }

    /// The direction in which lines are converted.
    pub fn mode(&self) -> (m: Mode)
        ensures
            m == self@.mode,
    {
        self.mode
    }
}

} // verus!
