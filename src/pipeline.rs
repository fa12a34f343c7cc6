//! Supervision of a long-running pipeline of external stages: which stage
//! runs next, and what is reported when a stage fails. The worker runs the
//! stages; the decisions are here.
use vstd::prelude::*;

use crate::jetson::Signal;

verus! {

#[derive(Clone, Copy, PartialEq, Eq, Structural, Debug)]
pub enum PipelineState {
    /// The stage with this index is the next to start.
    Pending(usize),
    /// The stage with this index runs.
    Running(usize),
    Completed,
    Aborted,
}

pub struct Pipeline {
    /// The stage-boundary line of each stage, in order.
    pub stages: Vec<String>,
    pub state: PipelineState,
}

pub open spec fn failure_line(stage: Seq<char>, detail: Seq<char>) -> Seq<char> {
    "Stage failed: "@ + stage + " ("@ + detail + ")\n"@
}

impl Pipeline {
    /// A running stage exists; a pending index is at most one past the last stage.
    pub open spec fn wf(&self) -> bool {
        match self.state {
            PipelineState::Pending(i) => i <= self.stages@.len(),
            PipelineState::Running(i) => i < self.stages@.len(),
            _ => true,
        }
    }

    pub fn new(stages: Vec<String>) -> (r: Pipeline)
        ensures
            r.stages == stages,
            r.state == PipelineState::Pending(0),
            r.wf(),
    {
        Pipeline { stages, state: PipelineState::Pending(0) }
    }

    /// Starts the next stage and gives its boundary line to log; once every
    /// stage has run the pipeline is completed. Nothing starts while a stage
    /// runs or after the pipeline ended.
    pub fn start_next(&mut self) -> (r: Option<Signal>)
        requires
            old(self).wf(),
        ensures
            final(self).wf(),
            final(self).stages == old(self).stages,
            match old(self).state {
                PipelineState::Pending(i) => if i < old(self).stages@.len() {
                    &&& final(self).state == PipelineState::Running(i)
                    &&& r matches Some(Signal::Message(m)) && m@ == old(self).stages@[i as int]@
                } else {
                    final(self).state == PipelineState::Completed && r is None
                },
                _ => final(self).state == old(self).state && r is None,
            },
    {
        match self.state {
            PipelineState::Pending(i) => {
                if i < self.stages.len() {
                    self.state = PipelineState::Running(i);
                    Some(Signal::Message(self.stages[i].clone()))
                } else {
                    self.state = PipelineState::Completed;
                    None
                }
            },
            _ => None,
        }
    }

    /// The running stage's process exited with success.
    pub fn stage_succeeded(&mut self)
        requires
            old(self).wf(),
        ensures
            final(self).wf(),
            final(self).stages == old(self).stages,
            match old(self).state {
                PipelineState::Running(i) => final(self).state == PipelineState::Pending(
                    (i + 1) as usize,
                ),
                _ => final(self).state == old(self).state,
            },
    {
        if let PipelineState::Running(i) = self.state {
            let n = self.stages.len();
            assert(i < n);
            self.state = PipelineState::Pending(i + 1);
        }
    }

    /// The running stage's process failed: the pipeline aborts and the one
    /// line that reports it is returned. No later stage starts.
    pub fn stage_failed(&mut self, detail: &str) -> (r: Option<Signal>)
        requires
            old(self).wf(),
        ensures
            final(self).wf(),
            final(self).stages == old(self).stages,
            match old(self).state {
                PipelineState::Running(i) => {
                    &&& final(self).state == PipelineState::Aborted
                    &&& r matches Some(Signal::Message(m)) && m@ == failure_line(
                        old(self).stages@[i as int]@,
                        detail@,
                    )
                },
                _ => final(self).state == old(self).state && r is None,
            },
    {
        if let PipelineState::Running(i) = self.state {
            self.state = PipelineState::Aborted;
            let mut m = String::from_str("Stage failed: ");
            m.append(self.stages[i].as_str());
            m.append(" (");
            m.append(detail);
            m.append(")\n");
            return Some(Signal::Message(m));
        }
        None
    }

    pub fn is_finished(&self) -> (r: bool)
        ensures
            r == (self.state == PipelineState::Completed || self.state == PipelineState::Aborted),
    {
        self.state == PipelineState::Completed || self.state == PipelineState::Aborted
    }
}

} // verus!
