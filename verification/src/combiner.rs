//! The combiner: one output made of the partitions' logs, in the order of
//! the plan.

use crate::text::{count_lines, lines};
use vstd::prelude::*;
use vstd::string::StringExecFns;

verus! {

/// What the output holds before the first partition is added: in resume mode
/// what it held, else nothing.
pub open spec fn kept(existing: Seq<char>, resume: bool) -> Seq<char> {
    if resume {
        existing
    } else {
        Seq::empty()
    }
}

/// The logs one after the other, in their order. A partition without a log
/// (`None`) adds nothing, and neither does an empty log.
pub open spec fn joined(logs: Seq<Option<String>>) -> Seq<char>
    decreases logs.len(),
{
    if logs.len() == 0 {
        Seq::empty()
    } else {
        let head = joined(logs.drop_last());
        match logs.last() {
            Some(log) => head + log@,
            None => head,
        }
    }
}

/// The number of lines in all logs together.
pub open spec fn joined_lines(logs: Seq<Option<String>>) -> nat
    decreases logs.len(),
{
    if logs.len() == 0 {
        0
    } else {
        let head = joined_lines(logs.drop_last());
        match logs.last() {
            Some(log) => head + lines(log@).len(),
            None => head,
        }
    }
}

/// The whole of a combine run: the output after it.
pub open spec fn combined(existing: Seq<char>, resume: bool, logs: Seq<Option<String>>) -> Seq<char> {
    kept(existing, resume) + joined(logs)
}

/// Whether the output that is there has to be removed before combining: only
/// outside resume mode, and only if there is one.
pub fn must_truncate(resume: bool, output_exists: bool) -> (remove: bool)
    ensures
        remove == (!resume && output_exists),
{
    !resume && output_exists
}

/// The running total of a combine run.
#[derive(Clone, Copy, Debug, PartialEq, Eq, Structural)]
pub struct Combiner {
    /// Lines combined so far.
    pub total_lines: usize,
}

impl Combiner {
    pub fn new() -> (fresh: Combiner)
        ensures
            fresh.total_lines == 0,
    {
        Combiner { total_lines: 0 }
    }

    /// Takes the log of the next partition, `None` where it has no log file.
    /// Says whether the log is to be appended to the output: an empty one is
    /// not. The lines of an appended log are counted.
    pub fn take(&mut self, log: Option<&str>) -> (append: bool)
        requires
            log is Some ==> old(self).total_lines + lines(log->Some_0@).len() <= usize::MAX,
        ensures
            append == (log is Some && log->Some_0@.len() > 0),
            final(self).total_lines == old(self).total_lines + (match log {
                Some(text) => lines(text@).len(),
                None => 0,
            }),
    {
        match log {
            Some(text) => {
                if text.is_empty() {
                    assert(lines(text@) =~= Seq::empty());
                    false
                } else {
                    self.total_lines = self.total_lines + count_lines(text);
                    true
                }
            },
            None => false,
        }
    }
}

/// Combines the logs of all partitions in memory: `output` keeps what it
/// held in resume mode and is emptied otherwise, then every log is appended
/// in order. Returns the number of lines appended.
pub fn combine_daily_files(output: &mut String, logs: &Vec<Option<String>>, resume: bool) -> (total:
    usize)
    requires
        joined_lines(logs@) <= usize::MAX,
    ensures
        final(output)@ == combined(old(output)@, resume, logs@),
        total == joined_lines(logs@),
{
    if !resume {
        *output = String::new();
    }
    let mut combiner = Combiner::new();
    let mut i: usize = 0;
    assert(logs@.subrange(0, 0) =~= Seq::empty());
    while i < logs.len()
        invariant
            i <= logs@.len(),
            joined_lines(logs@) <= usize::MAX,
            output@ == kept(old(output)@, resume) + joined(logs@.subrange(0, i as int)),
            combiner.total_lines == joined_lines(logs@.subrange(0, i as int)),
        decreases logs@.len() - i,
    {
        proof {
            assert(logs@.subrange(0, i + 1).drop_last() =~= logs@.subrange(0, i as int));
            lemma_joined_lines_prefix(logs@, i + 1);
        }
        let ghost before = output@;
        match &logs[i] {
            Some(log) => {
                if combiner.take(Some(log.as_str())) {
                    output.append(log.as_str());
                }
                assert(output@ =~= before + log@);
                assert(kept(old(output)@, resume) + (joined(logs@.subrange(0, i as int)) + log@)
                    =~= before + log@);
            },
            None => {
                combiner.take(None);
            },
        }
        i += 1;
    }
    assert(logs@.subrange(0, i as int) =~= logs@);
    combiner.total_lines
}

/// A part of the logs has no more lines than all of them.
proof fn lemma_joined_lines_prefix(logs: Seq<Option<String>>, upto: int)
    requires
        0 <= upto <= logs.len(),
    ensures
        joined_lines(logs.subrange(0, upto)) <= joined_lines(logs),
    decreases logs.len() - upto,
{
    if upto < logs.len() {
        lemma_joined_lines_prefix(logs, upto + 1);
        assert(logs.subrange(0, upto + 1).drop_last() =~= logs.subrange(0, upto));
    } else {
        assert(logs.subrange(0, upto) =~= logs);
    }
}

/// Whether no partition has anything in its log.
pub open spec fn all_empty(logs: Seq<Option<String>>) -> bool {
    forall|i: int|
        0 <= i < logs.len() ==> (#[trigger] logs[i]) is None || logs[i]->Some_0@.len() == 0
}

/// Where no partition has anything in its log, the logs joined are empty.
pub proof fn lemma_joined_empty(logs: Seq<Option<String>>)
    requires
        all_empty(logs),
    ensures
        joined(logs) == Seq::<char>::empty(),
    decreases logs.len(),
{
    if logs.len() > 0 {
        assert(all_empty(logs.drop_last())) by {
            assert forall|i: int| 0 <= i < logs.drop_last().len() implies (
            #[trigger] logs.drop_last()[i]) is None || logs.drop_last()[i]->Some_0@.len() == 0 by {
                assert(logs.drop_last()[i] == logs[i]);
            }
        }
        lemma_joined_empty(logs.drop_last());
        assert(logs.last() == logs[logs.len() - 1]);
        match logs.last() {
            Some(log) => {
                assert(joined(logs.drop_last()) + log@ =~= Seq::<char>::empty());
            },
            None => {},
        }
    }
}

/// Combining in resume mode adds each partition's log once to what the
/// output held, and nothing else: a second run over partitions that brought
/// nothing new leaves the output of the first as it is, and a run outside
/// resume mode does not depend on what the output held.
pub proof fn lemma_resume_keeps_output(
    existing: Seq<char>,
    first: Seq<Option<String>>,
    second: Seq<Option<String>>,
)
    requires
        all_empty(second),
    ensures
        combined(combined(existing, true, first), true, second) == combined(existing, true, first),
        combined(existing, true, first) == existing + joined(first),
        combined(existing, false, first) == joined(first),
{
    lemma_joined_empty(second);
    assert(combined(existing, true, first) + Seq::<char>::empty() =~= combined(
        existing,
        true,
        first,
    ));
    assert(Seq::<char>::empty() + joined(first) =~= joined(first));
}

} // verus!
