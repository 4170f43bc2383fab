//! A cleanup run as a state machine. The machine decides; its driver lists the directory,
//! asks the operator, probes and removes files, and hands each result back.

use vstd::prelude::*;
use crate::confirm::{affirmative, is_affirmative};
use crate::plan::{deletion_plan, plan_of};
use crate::select::{collect_stems, orphans, select_orphans, stems_of};

verus! {

/// How a run ended.
#[derive(Clone, Copy, Debug, PartialEq, Eq)]
pub enum Ending {
    /// No stem stands alone: nothing was asked and nothing was touched.
    NothingToDo,
    /// The operator did not confirm: nothing was touched.
    Declined,
    /// Every candidate was tried.
    Completed,
}

/// Where a run stands.
#[derive(Clone, Copy, Debug, PartialEq, Eq)]
pub enum Phase {
    /// The operator's answer is awaited.
    Confirming,
    /// The driver is to say whether the current candidate exists.
    Probing,
    /// The driver is to remove the current candidate.
    Removing,
    /// The run is over.
    Stopped(Ending),
}

/// What the machine asks of its driver.
#[derive(Debug, PartialEq, Eq)]
pub enum Action {
    /// Show the candidate stems to the operator and read one line.
    Confirm,
    /// Tell whether a file of this name exists in the directory.
    Probe(String),
    /// Remove the file of this name from the directory.
    Remove(String),
    /// Stop: the run is over.
    Stop(Ending),
}

/// An `Action` with its name as a sequence of characters.
pub enum ActionView {
    Confirm,
    Probe(Seq<char>),
    Remove(Seq<char>),
    Stop(Ending),
}

impl View for Action {
    type V = ActionView;

    open spec fn view(&self) -> ActionView {
        match self {
            Action::Confirm => ActionView::Confirm,
            Action::Probe(name) => ActionView::Probe(name@),
            Action::Remove(name) => ActionView::Remove(name@),
            Action::Stop(ending) => ActionView::Stop(*ending),
        }
    }
}

/// What a run reports of one removal.
#[derive(Debug, PartialEq, Eq)]
pub enum Record {
    /// The file of this name was removed.
    Deleted(String),
    /// The file of this name exists and could not be removed.
    Warning(String),
}

/// A `Record` with its name as a sequence of characters.
pub enum RecordView {
    Deleted(Seq<char>),
    Warning(Seq<char>),
}

impl View for Record {
    type V = RecordView;

    open spec fn view(&self) -> RecordView {
        match self {
            Record::Deleted(name) => RecordView::Deleted(name@),
            Record::Warning(name) => RecordView::Warning(name@),
        }
    }
}

/// The state of a run as contracts speak of it: what a `Cleanup` holds, its names as
/// sequences of characters.
pub struct Run {
    /// The stems that stand alone, in the order in which they were seen.
    pub candidates: Seq<Seq<char>>,
    /// The file names to try, in order.
    pub plan: Seq<Seq<char>>,
    /// How many names of the plan are done with.
    pub cursor: int,
    /// Where the run stands.
    pub phase: Phase,
}

impl Run {
    /// The cursor is within the plan, and on a name of it while that name is worked on.
    pub open spec fn wf(self) -> bool {
        &&& 0 <= self.cursor <= self.plan.len()
        &&& (self.phase is Probing || self.phase is Removing) ==> self.cursor < self.plan.len()
    }

    /// The run with `done` names of its plan behind it: probing the next, or completed.
    pub open spec fn at(self, done: int) -> Run {
        if done < self.plan.len() {
            Run { cursor: done, phase: Phase::Probing, ..self }
        } else {
            Run { cursor: self.plan.len() as int, phase: Phase::Stopped(Ending::Completed), ..self }
        }
    }

    /// The run on a directory with these entries. Where no stem stands alone it has ended;
    /// with `auto_confirm` it goes straight to the first candidate.
    pub open spec fn start(
        entries: Seq<Seq<char>>,
        extensions: Seq<Seq<char>>,
        auto_confirm: bool,
    ) -> Run {
        let candidates = orphans(stems_of(entries, extensions));
        let run = Run {
            candidates,
            plan: plan_of(candidates, extensions),
            cursor: 0,
            phase: Phase::Confirming,
        };
        if candidates.len() == 0 {
            Run { phase: Phase::Stopped(Ending::NothingToDo), ..run }
        } else if auto_confirm {
            run.at(0)
        } else {
            run
        }
    }

    /// What the driver is to do now.
    pub open spec fn pending(self) -> ActionView {
        match self.phase {
            Phase::Confirming => ActionView::Confirm,
            Phase::Probing => ActionView::Probe(self.plan[self.cursor]),
            Phase::Removing => ActionView::Remove(self.plan[self.cursor]),
            Phase::Stopped(ending) => ActionView::Stop(ending),
        }
    }

    /// The run after the operator's answer: on to the first candidate if it confirms,
    /// else declined. An answer that was not asked for changes nothing.
    pub open spec fn answered(self, line: Seq<char>) -> Run {
        if self.phase is Confirming {
            if affirmative(line) {
                self.at(0)
            } else {
                Run { phase: Phase::Stopped(Ending::Declined), ..self }
            }
        } else {
            self
        }
    }

    /// The run after a probe: a candidate that exists is to be removed, one that does not
    /// is passed over. A result that was not asked for changes nothing.
    pub open spec fn probed(self, found: bool) -> Run {
        if self.phase is Probing {
            if found {
                Run { phase: Phase::Removing, ..self }
            } else {
                self.at(self.cursor + 1)
            }
        } else {
            self
        }
    }

    /// The run after a removal, whether it succeeded or not: on to the next candidate.
    /// A result that was not asked for changes nothing.
    pub open spec fn removed(self) -> Run {
        if self.phase is Removing {
            self.at(self.cursor + 1)
        } else {
            self
        }
    }

    /// What is reported of a removal: the candidate as deleted if it succeeded, a warning
    /// if not, and nothing for a result that was not asked for.
    pub open spec fn record(self, ok: bool) -> Option<RecordView> {
        if self.phase is Removing {
            if ok {
                Some(RecordView::Deleted(self.plan[self.cursor]))
            } else {
                Some(RecordView::Warning(self.plan[self.cursor]))
            }
        } else {
            None
        }
    }
}

/// A cleanup run. It is made from the listing of a directory, says by `pending` what its
/// driver is to do, and takes the result by `answer`, `probed` or `removed`. A result
/// that does not answer what is pending is ignored.
pub struct Cleanup {
    candidates: Vec<String>,
    plan: Vec<String>,
    cursor: usize,
    phase: Phase,
}

impl View for Cleanup {
    type V = Run;

    closed spec fn view(&self) -> Run {
        Run {
            candidates: self.candidates.deep_view(),
            plan: self.plan.deep_view(),
            cursor: self.cursor as int,
            phase: self.phase,
        }
    }
}

impl Cleanup {
    #[verifier::type_invariant]
    spec fn inv(&self) -> bool {
        self@.wf()
    }

    /// Starts a run on a directory whose entries have these names.
    pub fn new(entries: &Vec<String>, extensions: &Vec<String>, auto_confirm: bool) -> (run: Cleanup)
        ensures
            run@ == Run::start(entries.deep_view(), extensions.deep_view(), auto_confirm),
            run@.wf(),
    {
        let stems = collect_stems(entries, extensions);
        let candidates = select_orphans(&stems);
        let plan = deletion_plan(&candidates, extensions);
        let phase = if candidates.len() == 0 {
            Phase::Stopped(Ending::NothingToDo)
        } else if !auto_confirm {
            Phase::Confirming
        } else if plan.len() > 0 {
            Phase::Probing
        } else {
            Phase::Stopped(Ending::Completed)
        };
        Cleanup { candidates, plan, cursor: 0, phase }
    }

    /// Moves on to the name after the current one.
    fn advance(&mut self)
        requires
            old(self)@.cursor < old(self)@.plan.len(),
        ensures
            final(self)@ == old(self)@.at(old(self)@.cursor + 1),
    {
        proof {
            use_type_invariant(&*self);
        }
        let n = self.plan.len();
        if self.cursor + 1 < n {
            self.cursor = self.cursor + 1;
            self.phase = Phase::Probing;
        } else {
            self.phase = Phase::Stopped(Ending::Completed);
            self.cursor = n;
        }
    }

    /// Takes the operator's answer.
    pub fn answer(&mut self, line: &str)
        ensures
            final(self)@ == old(self)@.answered(line@),
            final(self)@.wf(),
    {
        proof {
            use_type_invariant(&*self);
        }
        match self.phase {
            Phase::Confirming => {
                if !is_affirmative(line) {
                    self.phase = Phase::Stopped(Ending::Declined);
                } else if self.plan.len() > 0 {
                    self.cursor = 0;
                    self.phase = Phase::Probing;
                } else {
                    self.phase = Phase::Stopped(Ending::Completed);
                    self.cursor = 0;
                }
            },
            _ => {},
        }
    }

    /// Takes the result of a probe: whether the candidate exists.
    pub fn probed(&mut self, found: bool)
        ensures
            final(self)@ == old(self)@.probed(found),
            final(self)@.wf(),
    {
        proof {
            use_type_invariant(&*self);
        }
        match self.phase {
            Phase::Probing => {
                if found {
                    self.phase = Phase::Removing;
                } else {
                    self.advance();
                }
            },
            _ => {},
        }
    }

    /// Takes the result of a removal: whether it succeeded. Returns what is to be reported.
    pub fn removed(&mut self, ok: bool) -> (record: Option<Record>)
        ensures
            final(self)@ == old(self)@.removed(),
            final(self)@.wf(),
            match record {
                Some(r) => old(self)@.record(ok) == Some(r@),
                None => old(self)@.record(ok) is None,
            },
    {
        proof {
            use_type_invariant(&*self);
        }
        match self.phase {
            Phase::Removing => {
                let name = self.plan[self.cursor].clone();
                self.advance();
                if ok {
                    Some(Record::Deleted(name))
                } else {
                    Some(Record::Warning(name))
                }
            },
            _ => None,
        }
    }

    /// What the driver is to do now.
    pub fn pending(&self) -> (action: Action)
        ensures
            action@ == self@.pending(),
    {
        proof {
            use_type_invariant(self);
        }
        match self.phase {
            Phase::Confirming => Action::Confirm,
            Phase::Probing => Action::Probe(self.plan[self.cursor].clone()),
            Phase::Removing => Action::Remove(self.plan[self.cursor].clone()),
            Phase::Stopped(ending) => Action::Stop(ending),
        }
    }

    /// The stems that stand alone, in the order in which they were seen.
    pub fn candidates(&self) -> (stems: &Vec<String>)
        ensures
            stems.deep_view() == self@.candidates,
    {
        &self.candidates
    }
}

} // verus!
