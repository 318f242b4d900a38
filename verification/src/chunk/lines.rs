use vstd::prelude::*;
use crate::vector::Vector;

verus! {

/// The first byte of a run of bytes that all come from one source line.
#[derive(Clone, Copy, Debug, PartialEq, Eq, Structural)]
pub struct LineStart {
    pub line: usize,
    pub offset: usize,
}

/// Whether the runs start at strictly increasing offsets.
pub open spec fn strictly_increasing(runs: Seq<LineStart>) -> bool {
    forall|i: int, j: int| 0 <= i < j < runs.len() ==> runs[i].offset < runs[j].offset
}

/// Whether every run is on another line than the run before it.
pub open spec fn neighbours_differ(runs: Seq<LineStart>) -> bool {
    forall|i: int| 0 < i < runs.len() ==> runs[i - 1].line != #[trigger] runs[i].line
}

/// Whether run `i` is the one that holds `offset`: it starts at or before
/// `offset`, and the next run, if there is one, starts after it.
pub open spec fn covers(runs: Seq<LineStart>, i: int, offset: usize) -> bool {
    &&& 0 <= i < runs.len()
    &&& runs[i].offset <= offset
    &&& i + 1 < runs.len() ==> offset < runs[i + 1].offset
}

/// The line of the last run that starts at or before `offset`; 0 where no
/// run does.
pub open spec fn line_at(runs: Seq<LineStart>, offset: usize) -> usize
    decreases runs.len(),
{
    if runs.len() == 0 {
        0
    } else if runs.last().offset <= offset {
        runs.last().line
    } else {
        line_at(runs.drop_last(), offset)
    }
}

/// What a table becomes when a byte at `offset` is attributed to `line`:
/// a byte on the line of the last run joins that run, any other byte
/// starts a run of its own.
pub open spec fn with_byte(runs: Seq<LineStart>, line: usize, offset: usize) -> Seq<LineStart> {
    if runs.len() > 0 && runs.last().line == line {
        runs
    } else {
        runs.push(LineStart { line, offset })
    }
}

/// In a table of increasing runs, the run that covers an offset gives
/// that offset its line.
pub proof fn lemma_covering_run_gives_line(runs: Seq<LineStart>, i: int, offset: usize)
    requires
        strictly_increasing(runs),
        covers(runs, i, offset),
    ensures
        line_at(runs, offset) == runs[i].line,
    decreases runs.len(),
{
    if i + 1 < runs.len() {
        let shorter = runs.drop_last();
        assert(covers(shorter, i, offset));
        lemma_covering_run_gives_line(shorter, i, offset);
    }
}

/// A byte that is attributed to a line gets that line, and so does
/// every offset behind it; the offsets before it keep their lines. This
/// holds where the byte lies behind the start of every run.
pub proof fn lemma_line_at_with_byte(runs: Seq<LineStart>, line: usize, offset: usize, at: usize)
    requires
        forall|i: int| 0 <= i < runs.len() ==> (#[trigger] runs[i]).offset < offset,
    ensures
        at >= offset ==> line_at(with_byte(runs, line, offset), at) == line,
        at < offset ==> line_at(with_byte(runs, line, offset), at) == line_at(runs, at),
{
    if !(runs.len() > 0 && runs.last().line == line) {
        let longer = runs.push(LineStart { line, offset });
        assert(longer.drop_last() =~= runs);
    }
}

/// A compressed map from byte offsets to source lines: an ordered list of
/// runs, each reaching up to the start of the next.
pub struct Lines {
    inner: Vector<LineStart>,
}

impl View for Lines {
    type V = Seq<LineStart>;

    closed spec fn view(&self) -> Seq<LineStart> {
        self.inner@
    }
}

impl Lines {
    /// Well-formedness: runs start at strictly increasing offsets, and no
    /// run repeats the line of the run before it.
    pub closed spec fn wf(&self) -> bool {
        &&& self.inner.wf()
        &&& strictly_increasing(self.inner@)
        &&& neighbours_differ(self.inner@)
    }

    /// A well-formed table is ordered and has no two neighbouring runs on
    /// one line.
    pub proof fn lemma_wf(&self)
        requires
            self.wf(),
        ensures
            strictly_increasing(self@),
            neighbours_differ(self@),
    {
    }

    /// A table without runs.
    pub fn new() -> (lines: Self)
        ensures
            lines.wf(),
            lines@ == Seq::<LineStart>::empty(),
    {
        Lines { inner: Vector::new() }
    }

    /// Number of runs.
    pub fn len(&self) -> (n: usize)
        ensures
            n == self@.len(),
    {
        self.inner.len()
    }

    /// The run at `index`.
    pub fn get(&self, index: usize) -> (run: LineStart)
        requires
            index < self@.len(),
        ensures
            run == self@[index as int],
    {
        *self.inner.get(index)
    }

    /// Attributes the byte at `offset` to `line`. A byte that opens a new
    /// run has to lie behind the start of the last run.
    pub fn add_byte(&mut self, line: usize, offset: usize)
        requires
            old(self).wf(),
            old(self)@.len() > 0 && old(self)@.last().line != line ==> old(self)@.last().offset
                < offset,
        ensures
            final(self).wf(),
            final(self)@ == with_byte(old(self)@, line, offset),
    {
        let opens_run = match self.tail() {
            None => true,
            Some(last) => last.line != line,
        };
        if opens_run {
            self.inner.push(LineStart { line, offset });
        }
    }

    /// The line of the byte at `offset`: that of the last run that starts
    /// at or before `offset`.
    pub fn find_line(&self, offset: usize) -> (line: usize)
        requires
            self.wf(),
            self@.len() > 0,
            self@[0].offset <= offset,
        ensures
            line == line_at(self@, offset),
            exists|i: int| covers(self@, i, offset) && line == self@[i].line,
    {
        let last = self.last_idx();
        let mut start: usize = 0;
        let mut end: usize = last;
        loop
            invariant
                self.wf(),
                last == self@.len() - 1,
                start <= end <= last,
                self@[start as int].offset <= offset,
                end < last ==> offset < self@[end + 1].offset,
            ensures
                covers(self@, start as int, offset),
                start <= last,
            decreases end - start,
        {
            let mid: usize = start + (end - start) / 2;
            let run = *self.inner.get(mid);
            if offset < run.offset {
                end = mid - 1;
            } else if mid == last || offset < self.inner.get(mid + 1).offset {
                start = mid;
                break ;
            } else {
                start = mid + 1;
            }
        }
        proof {
            lemma_covering_run_gives_line(self@, start as int, offset);
        }
        self.inner.get(start).line
    }

    /// Index of the last run; 0 for a table without runs.
    fn last_idx(&self) -> (idx: usize)
        ensures
            idx == if self@.len() == 0 {
                0
            } else {
                self@.len() - 1
            },
    {
        if self.inner.is_empty() {
            0
        } else {
            self.inner.len() - 1
        }
    }

    /// The last run, if there is one.
    fn tail(&self) -> (run: Option<LineStart>)
        ensures
            run == if self@.len() == 0 {
                None
            } else {
                Some(self@.last())
            },
    {
        if self.inner.is_empty() {
            None
        } else {
            Some(*self.inner.get(self.last_idx()))
        }
    }
}

} // verus!
