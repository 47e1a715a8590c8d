//! Cutting a text into tokens at whitespace.
//!
//! The cutting itself knows nothing of Unicode: it works on characters that
//! come with the answer to whether they separate tokens. `tokenize` asks
//! the standard library for that answer and feeds the characters to a
//! `Splitter`.

use vstd::prelude::*;
use crate::text::views;
use crate::trusted::unicode_whitespace;

verus! {

/// The characters of a marked text, without their marks.
pub open spec fn letters(marked: Seq<(char, bool)>) -> Seq<char> {
    marked.map_values(|m: (char, bool)| m.0)
}

/// Index at which the run of characters that are no separators, ending just
/// before `end`, begins. It is `end` itself when the character before `end`
/// is a separator or there is none.
pub open spec fn run_start(marked: Seq<(char, bool)>, end: int) -> int
    decreases end,
{
    if end <= 0 {
        0
    } else if marked[end - 1].1 {
        end
    } else {
        run_start(marked, end - 1)
    }
}

/// The runs of a marked text: its maximal stretches of characters that are
/// no separators, in order. Each character comes with `true` where it is a
/// separator. Separators belong to no run, so no run is empty.
pub open spec fn runs(marked: Seq<(char, bool)>) -> Seq<Seq<char>>
    decreases marked.len(),
    via runs_decreases
{
    if marked.len() == 0 {
        Seq::empty()
    } else if marked.last().1 {
        runs(marked.drop_last())
    } else {
        let start = run_start(marked, marked.len() as int);
        runs(marked.take(start)).push(letters(marked.skip(start)))
    }
}

#[via_fn]
proof fn runs_decreases(marked: Seq<(char, bool)>) {
    if marked.len() > 0 && !marked.last().1 {
        lemma_run_start(marked, marked.len() as int);
    }
}

/// `text` with each character marked as whitespace or not.
pub open spec fn marked_whitespace(text: Seq<char>) -> Seq<(char, bool)> {
    text.map_values(|c: char| (c, unicode_whitespace(c)))
}

/// The tokens of `text`: its maximal runs of characters that are not
/// whitespace, in order.
pub open spec fn tokens_of(text: Seq<char>) -> Seq<Seq<char>> {
    runs(marked_whitespace(text))
}

/// What `run_start` finds: the characters from there up to `end` are no
/// separators, and the character before it, if any, is one.
pub proof fn lemma_run_start(marked: Seq<(char, bool)>, end: int)
    requires
        0 <= end <= marked.len(),
    ensures
        0 <= run_start(marked, end) <= end,
        forall|j: int| run_start(marked, end) <= j < end ==> !marked[j].1,
        run_start(marked, end) > 0 ==> marked[run_start(marked, end) - 1].1,
        end > 0 && !marked[end - 1].1 ==> run_start(marked, end) < end,
    decreases end,
{
    if end > 0 && !marked[end - 1].1 {
        lemma_run_start(marked, end - 1);
    }
}

/// `run_start` looks only at the characters before `end`.
pub proof fn lemma_run_start_of_prefix(marked: Seq<(char, bool)>, len: int, end: int)
    requires
        0 <= end <= len <= marked.len(),
    ensures
        run_start(marked.take(len), end) == run_start(marked, end),
    decreases end,
{
    if end > 0 && !marked[end - 1].1 {
        lemma_run_start_of_prefix(marked, len, end - 1);
    }
}

/// The runs of a text that ends inside a run: those of the text before that
/// run, followed by the run.
pub proof fn lemma_runs_of_open_run(marked: Seq<(char, bool)>)
    requires
        run_start(marked, marked.len() as int) < marked.len(),
    ensures
        runs(marked) == runs(marked.take(run_start(marked, marked.len() as int))).push(
            letters(marked.skip(run_start(marked, marked.len() as int))),
        ),
{
    lemma_run_start(marked, marked.len() as int);
}

/// Every run holds at least one character, and where the marks are the
/// answers of `is_separator`, none of its characters is a separator.
pub proof fn lemma_runs_hold_no_separator(
    marked: Seq<(char, bool)>,
    is_separator: spec_fn(char) -> bool,
)
    requires
        forall|i: int| 0 <= i < marked.len() ==> marked[i].1 == is_separator(marked[i].0),
    ensures
        forall|k: int|
            0 <= k < runs(marked).len() ==> (#[trigger] runs(marked)[k]).len() > 0 && forall|
                j: int,
            |
                0 <= j < runs(marked)[k].len() ==> !is_separator(runs(marked)[k][j]),
    decreases marked.len(),
{
    if marked.len() == 0 {
        assert(runs(marked).len() == 0);
    } else if marked.last().1 {
        lemma_runs_hold_no_separator(marked.drop_last(), is_separator);
        assert(runs(marked) == runs(marked.drop_last()));
    } else {
        let start = run_start(marked, marked.len() as int);
        lemma_run_start(marked, marked.len() as int);
        lemma_runs_hold_no_separator(marked.take(start), is_separator);
        let run = letters(marked.skip(start));
        let before = runs(marked.take(start));
        assert(runs(marked) == before.push(run));
        assert forall|k: int| 0 <= k < runs(marked).len() implies (#[trigger] runs(marked)[k]).len()
            > 0 && forall|j: int|
            0 <= j < runs(marked)[k].len() ==> !is_separator(runs(marked)[k][j]) by {
            if k < before.len() {
                assert(runs(marked)[k] == before[k]);
            } else {
                assert(runs(marked)[k] == run);
                assert forall|j: int| 0 <= j < run.len() implies !is_separator(run[j]) by {
                    assert(run[j] == marked[start + j].0);
                }
            }
        }
    }
}

/// Every token holds at least one character and no whitespace.
pub proof fn lemma_tokens_hold_no_whitespace(text: Seq<char>)
    ensures
        forall|k: int|
            0 <= k < tokens_of(text).len() ==> (#[trigger] tokens_of(text)[k]).len() > 0 && forall|
                j: int,
            |
                0 <= j < tokens_of(text)[k].len() ==> !unicode_whitespace(tokens_of(text)[k][j]),
{
    lemma_runs_hold_no_separator(marked_whitespace(text), |c: char| unicode_whitespace(c));
}

/// Collects the runs of a text that is fed to it character by character.
pub struct Splitter {
    done: Vec<String>,
    current: String,
    fed: Ghost<Seq<(char, bool)>>,
}

impl Splitter {
    /// The characters fed so far, each with its mark.
    pub closed spec fn fed(&self) -> Seq<(char, bool)> {
        self.fed@
    }

    /// The invariant of the splitter: the finished runs are those before
    /// the run that is open, and the open run is what was fed of it.
    pub closed spec fn wf(&self) -> bool {
        let start = run_start(self.fed@, self.fed@.len() as int);
        &&& self.current@ == letters(self.fed@.skip(start))
        &&& views(self.done@) == runs(self.fed@.take(start))
    }

    /// A splitter that was fed nothing.
    pub fn new() -> (splitter: Self)
        ensures
            splitter.wf(),
            splitter.fed() == Seq::<(char, bool)>::empty(),
    {
        let splitter = Splitter { done: Vec::new(), current: String::new(), fed: Ghost(Seq::empty()) };
        proof {
            assert(splitter.current@ =~= letters(splitter.fed@.skip(0)));
            assert(views(splitter.done@) =~= runs(splitter.fed@.take(0)));
        }
        splitter
    }

    /// Feeds one character. `is_separator` says whether it separates runs:
    /// a separator closes the open run, if there is one, and any other
    /// character extends the open run or opens one.
    pub fn push(&mut self, c: char, is_separator: bool)
        requires
            old(self).wf(),
        ensures
            final(self).wf(),
            final(self).fed() == old(self).fed().push((c, is_separator)),
    {
        let ghost before = self.fed@;
        let ghost after = before.push((c, is_separator));
        let ghost start = run_start(before, before.len() as int);
        proof {
            lemma_run_start(before, before.len() as int);
            lemma_run_start_of_prefix(after, before.len() as int, before.len() as int);
            assert(after.take(before.len() as int) =~= before);
        }
        if is_separator {
            if !self.current.as_str().is_empty() {
                let mut run = String::new();
                std::mem::swap(&mut self.current, &mut run);
                proof {
                    lemma_runs_of_open_run(before);
                    self.done@.lemma_push_map_commute(|s: String| s@, run);
                }
                self.done.push(run);
            } else {
                assert(before.take(start) =~= before);
            }
            proof {
                assert(after.take(after.len() as int) =~= after);
                assert(after.drop_last() =~= before);
                assert(letters(after.skip(after.len() as int)) =~= Seq::<char>::empty());
            }
        } else {
            self.current.push(c);
            proof {
                assert(after.take(start) =~= before.take(start));
                assert(letters(after.skip(start)) =~= letters(before.skip(start)).push(c));
            }
        }
        self.fed = Ghost(after);
        proof {
            let now = run_start(after, after.len() as int);
            assert(now == if is_separator { after.len() as int } else { start });
            assert(self.current@ == letters(after.skip(now)));
            assert(views(self.done@) == runs(after.take(now)));
        }
    }

    /// Ends the text and hands out its runs. A run that is still open is
    /// the last of them.
    pub fn finish(self) -> (found: Vec<String>)
        requires
            self.wf(),
        ensures
            views(found@) == runs(self.fed()),
    {
        let ghost fed = self.fed@;
        let ghost start = run_start(fed, fed.len() as int);
        let mut done = self.done;
        let current = self.current;
        proof {
            lemma_run_start(fed, fed.len() as int);
        }
        if !current.as_str().is_empty() {
            proof {
                lemma_runs_of_open_run(fed);
                done@.lemma_push_map_commute(|s: String| s@, current);
            }
            done.push(current);
        } else {
            assert(fed.take(start) =~= fed);
        }
        done
    }
}

/// Splits `text` at runs of whitespace and returns the pieces between them,
/// in order. No piece is empty; a text of whitespace alone has none.
pub fn tokenize(text: &str) -> (tokens: Vec<String>)
    ensures
        views(tokens@) == tokens_of(text@),
{
    let mut splitter = Splitter::new();
    proof {
        assert(marked_whitespace(text@).take(0) =~= Seq::<(char, bool)>::empty());
    }
    for c in it: text.chars()
        invariant
            it.seq() == text@,
            splitter.wf(),
            splitter.fed() == marked_whitespace(text@).take(it.index()),
    {
        let ghost i = it.index();
        splitter.push(c, c.is_whitespace());
        proof {
            assert(marked_whitespace(text@).take(i + 1) =~= marked_whitespace(text@).take(i).push(
                (c, unicode_whitespace(c)),
            ));
        }
    }
    proof {
        assert(marked_whitespace(text@).take(text@.len() as int) =~= marked_whitespace(text@));
    }
    splitter.finish()
}

} // verus!
