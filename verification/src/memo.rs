//! What a memoized transformer remembers, as a mathematical value: the lines
//! with their outputs in order of use, and how answering a line changes that.

use crate::cache::has_key;
use crate::line::{convert_line_spec, LineError, Mode};
use vstd::prelude::*;

verus! {

/// What a transformer is, to its callers: a direction, a capacity, and the
/// lines it remembers, each with its output, the line used last standing
/// first.
pub struct Memo {
    pub mode: Mode,
    pub capacity: nat,
    pub entries: Seq<(Seq<char>, Seq<char>)>,
}

impl Memo {
    /// The memo of a transformer that has seen no line yet.
    pub open spec fn empty(mode: Mode, capacity: nat) -> Memo {
        Memo { mode, capacity, entries: Seq::empty() }
    }

    /// The memo has room, holds no more than its capacity, holds no line
    /// twice, and holds beside each line what converting that line gives.
    pub open spec fn wf(self) -> bool {
        &&& 0 < self.capacity
        &&& self.entries.len() <= self.capacity
        &&& forall|i: int, j: int|
            0 <= i < j < self.entries.len() ==> self.entries[i].0 != self.entries[j].0
        &&& forall|i: int|
            0 <= i < self.entries.len() ==> convert_line_spec(
                self.mode,
                (#[trigger] self.entries[i]).0,
            ) == Ok::<Seq<char>, LineError>(self.entries[i].1)
    }

    /// `line` is remembered.
    pub open spec fn holds(self, line: Seq<char>) -> bool {
        has_key(self.entries, line)
    }

    /// Where `line` stands among the remembered lines.
    pub open spec fn slot_of(self, line: Seq<char>) -> int {
        choose|i: int| 0 <= i < self.entries.len() && (#[trigger] self.entries[i]).0 == line
    }

    /// What the transformer answers to `line`: the remembered output where
    /// there is one, else what converting the line gives.
    pub open spec fn answer(self, line: Seq<char>) -> Result<Seq<char>, LineError> {
        if self.holds(line) {
            Ok(self.entries[self.slot_of(line)].1)
        } else {
            convert_line_spec(self.mode, line)
        }
    }

    /// The memo after it has answered `line`. A remembered line moves to the
    /// front. A new line that converts enters at the front, and where the
    /// memo was full the line at the back leaves. A line that fails leaves
    /// the memo as it was.
    pub open spec fn after(self, line: Seq<char>) -> Memo {
        if self.holds(line) {
            let at = self.slot_of(line);
            Memo { entries: seq![self.entries[at]] + self.entries.remove(at), ..self }
        } else {
            match convert_line_spec(self.mode, line) {
                Ok(output) => Memo {
                    entries: seq![(line, output)] + (if self.entries.len() == self.capacity {
                        self.entries.drop_last()
                    } else {
                        self.entries
                    }),
                    ..self
                },
                Err(_) => self,
            }
        }
    }

    /// The memo after it has answered each of `lines` in turn.
    pub open spec fn after_all(self, lines: Seq<Seq<char>>) -> Memo
        decreases lines.len(),
    {
        if lines.len() == 0 {
            self
        } else {
            self.after_all(lines.drop_last()).after(lines.last())
        }
    }
}

/// Every one of `lines` converts in direction `mode`.
pub open spec fn all_convert(mode: Mode, lines: Seq<Seq<char>>) -> bool {
    forall|i: int| 0 <= i < lines.len() ==> convert_line_spec(mode, #[trigger] lines[i]) is Ok
}

/// Answering a line keeps a memo well formed, and keeps its direction and
/// its capacity.
pub proof fn lemma_after_keeps_wf(memo: Memo, line: Seq<char>)
    requires
        memo.wf(),
    ensures
        memo.after(line).wf(),
        memo.after(line).mode == memo.mode,
        memo.after(line).capacity == memo.capacity,
{
}

/// Answering lines keeps a memo well formed, and keeps its direction and its
/// capacity.
pub proof fn lemma_after_all_keeps_wf(memo: Memo, lines: Seq<Seq<char>>)
    requires
        memo.wf(),
    ensures
        memo.after_all(lines).wf(),
        memo.after_all(lines).mode == memo.mode,
        memo.after_all(lines).capacity == memo.capacity,
    decreases lines.len(),
{
    if lines.len() > 0 {
        lemma_after_all_keeps_wf(memo, lines.drop_last());
        lemma_after_keeps_wf(memo.after_all(lines.drop_last()), lines.last());
    }
}

/// The memo does not show in the answers: a well-formed memo answers every
/// line as a conversion without a memo would.
pub proof fn lemma_answer_is_conversion(memo: Memo, line: Seq<char>)
    requires
        memo.wf(),
    ensures
        memo.answer(line) == convert_line_spec(memo.mode, line),
{
}

/// A line that is fed twice in a row gets the same answer both times. Where
/// that answer is an output, the second one is taken from the memo, which
/// holds the line with that output at its front.
pub proof fn lemma_repeated_line_is_remembered(memo: Memo, line: Seq<char>)
    requires
        memo.wf(),
    ensures
        memo.after(line).answer(line) == memo.answer(line),
        memo.answer(line) matches Ok(output) ==> memo.after(line).holds(line) && memo.after(
            line,
        ).entries[0] == (line, output),
{
    lemma_after_keeps_wf(memo, line);
    if memo.answer(line) is Ok {
        assert(memo.after(line).entries[0].0 == line);
    }
}

/// After distinct lines that all convert, the memo holds them at its front,
/// the latest first, as far as its capacity reaches.
pub proof fn lemma_latest_lines_lead(memo: Memo, lines: Seq<Seq<char>>)
    requires
        memo.wf(),
        lines.no_duplicates(),
        all_convert(memo.mode, lines),
    ensures
        memo.after_all(lines).entries.len() >= lines.len() || memo.after_all(lines).entries.len()
            >= memo.capacity,
        forall|i: int|
            0 <= i < lines.len() && i < memo.capacity ==> (#[trigger] memo.after_all(
                lines,
            ).entries[i]).0 == lines[lines.len() - 1 - i],
    decreases lines.len(),
{
    if lines.len() > 0 {
        let earlier = lines.drop_last();
        let line = lines.last();
        let before = memo.after_all(earlier);
        let next = before.after(line);
        lemma_latest_lines_lead(memo, earlier);
        lemma_after_all_keeps_wf(memo, earlier);
        assert(convert_line_spec(memo.mode, lines[lines.len() - 1]) is Ok);
        if before.holds(line) {
            let at = before.slot_of(line);
            if at < earlier.len() {
                assert(before.entries[at].0 == lines[earlier.len() - 1 - at]);
            }
        }
        assert forall|i: int| 0 < i < lines.len() && i < memo.capacity implies (
        #[trigger] next.entries[i]).0 == lines[lines.len() - 1 - i] by {
            assert(next.entries[i] == before.entries[i - 1]);
        }
    }
}

/// A memo of capacity `n` that has answered `n + 1` distinct lines no longer
/// holds the first of them, so that a repeat of that line is converted
/// afresh. A line that fails is never remembered and pushes nothing out:
/// where the first line converts, all the others have to convert too.
pub proof fn lemma_first_line_is_evicted(memo: Memo, lines: Seq<Seq<char>>)
    requires
        memo.wf(),
        lines.len() == memo.capacity + 1,
        lines.no_duplicates(),
        convert_line_spec(memo.mode, lines[0]) is Ok ==> all_convert(memo.mode, lines),
    ensures
        !memo.after_all(lines).holds(lines[0]),
{
    let last = memo.after_all(lines);
    lemma_after_all_keeps_wf(memo, lines);
    if last.holds(lines[0]) {
        let at = last.slot_of(lines[0]);
        assert(convert_line_spec(last.mode, last.entries[at].0) is Ok);
        lemma_latest_lines_lead(memo, lines);
        assert(last.entries[at].0 == lines[lines.len() - 1 - at]);
    }
}

} // verus!
