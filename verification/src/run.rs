//! The course of a run: which operation comes next, and how the run ends.
//!
//! The library performs no operation itself. Its caller asks a [`Run`] what
//! to do, does it, and reports how it went.

use vstd::prelude::*;
use crate::errors::{
    filter_not_found_error, not_found_filtered, outcome_view, Error, ErrorView, IoFailure,
    IoFailureView,
};
use crate::plan::{Plan, PlanView, Step, StepView};

verus! {

/// What the caller of a run is to do next.
#[derive(Debug, PartialEq, Eq)]
pub enum Directive<'a> {
    /// Perform this operation and report its outcome.
    Perform(&'a Step),
    /// The run is over: everything was done.
    Succeed,
    /// The run is over: it failed with this error.
    Fail(&'a Error),
}

/// The mathematical value of a [`Directive`].
pub enum DirectiveView {
    Perform(StepView),
    Succeed,
    Fail(ErrorView),
}

impl<'a> View for Directive<'a> {
    type V = DirectiveView;

    open spec fn view(&self) -> DirectiveView {
        match self {
            Directive::Perform(step) => DirectiveView::Perform(step@),
            Directive::Succeed => DirectiveView::Succeed,
            Directive::Fail(error) => DirectiveView::Fail(error@),
        }
    }
}

/// The outcome of `step` as the run counts it: an entry to remove that is
/// not there counts as removed.
pub open spec fn settled(step: StepView, outcome: Result<(), IoFailureView>) -> Result<
    (),
    IoFailureView,
> {
    if step.is_removal() {
        not_found_filtered(outcome)
    } else {
        outcome
    }
}

/// The state of a run: its plan, how many steps are done, and the failure
/// that stopped it, if one did.
pub struct RunView {
    pub plan: PlanView,
    pub done: nat,
    pub halted: Option<IoFailureView>,
}

impl RunView {
    /// The run of `plan` before its first step.
    pub open spec fn start(plan: PlanView) -> RunView {
        RunView { plan, done: 0, halted: None }
    }

    /// What is to happen next: nothing more after a failure; else the next
    /// step; else, with every step done, the end that the plan calls for.
    pub open spec fn directive(self) -> DirectiveView {
        match self.halted {
            Some(failure) => DirectiveView::Fail(ErrorView::Io(failure)),
            None => if self.done < self.plan.steps.len() {
                DirectiveView::Perform(self.plan.steps[self.done as int])
            } else {
                match self.plan.fault {
                    Some(error) => DirectiveView::Fail(error),
                    None => DirectiveView::Succeed,
                }
            },
        }
    }

    /// The run after the step that was due has ended in `outcome`: one step
    /// further if the outcome counts as success, stopped if not. A run that
    /// is over stays as it is.
    pub open spec fn record(self, outcome: Result<(), IoFailureView>) -> RunView {
        match self.directive() {
            DirectiveView::Perform(step) => match settled(step, outcome) {
                Ok(_) => RunView { done: self.done + 1, ..self },
                Err(failure) => RunView { halted: Some(failure), ..self },
            },
            _ => self,
        }
    }

    /// Whether the run is over.
    pub open spec fn is_over(self) -> bool {
        !(self.directive() is Perform)
    }
}

/// The run after the steps that were due, one after the other, have ended
/// in `outcomes`.
pub open spec fn replay(run: RunView, outcomes: Seq<Result<(), IoFailureView>>) -> RunView
    decreases outcomes.len(),
{
    if outcomes.len() == 0 {
        run
    } else {
        replay(run, outcomes.drop_last()).record(outcomes.last())
    }
}

/// How a run ends once every step of its plan is done.
pub open spec fn conclusion(plan: PlanView) -> DirectiveView {
    match plan.fault {
        Some(error) => DirectiveView::Fail(error),
        None => DirectiveView::Succeed,
    }
}

/// A run that is over stays over, whatever is reported to it.
pub proof fn lemma_over_is_final(run: RunView, outcomes: Seq<Result<(), IoFailureView>>)
    requires
        run.is_over(),
    ensures
        replay(run, outcomes) == run,
    decreases outcomes.len(),
{
    if outcomes.len() > 0 {
        lemma_over_is_final(run, outcomes.drop_last());
    }
}

/// The first failure that counts ends the run with that failure: no later
/// step is asked for.
pub proof fn lemma_failure_ends_run(
    run: RunView,
    outcome: Result<(), IoFailureView>,
    later: Seq<Result<(), IoFailureView>>,
)
    requires
        run.directive() matches DirectiveView::Perform(step) && settled(step, outcome) is Err,
    ensures
        replay(run.record(outcome), later).directive() == DirectiveView::Fail(
            ErrorView::Io(settled(run.directive()->Perform_0, outcome)->Err_0),
        ),
{
    lemma_over_is_final(run.record(outcome), later);
}

/// While every outcome counts as success, the steps of the plan are asked
/// for one by one, in order; after the last of them the run ends as the plan
/// says.
pub proof fn lemma_run_follows_plan(plan: PlanView, outcomes: Seq<Result<(), IoFailureView>>)
    requires
        outcomes.len() <= plan.steps.len(),
        forall|i: int| 0 <= i < outcomes.len() ==> settled(plan.steps[i], outcomes[i]) is Ok,
    ensures
        replay(RunView::start(plan), outcomes) == (RunView {
            plan,
            done: outcomes.len(),
            halted: None,
        }),
        outcomes.len() < plan.steps.len() ==> replay(
            RunView::start(plan),
            outcomes,
        ).directive() == DirectiveView::Perform(plan.steps[outcomes.len() as int]),
        outcomes.len() == plan.steps.len() ==> replay(
            RunView::start(plan),
            outcomes,
        ).directive() == conclusion(plan),
    decreases outcomes.len(),
{
    if outcomes.len() > 0 {
        lemma_run_follows_plan(plan, outcomes.drop_last());
    }
}

/// A plan that only removes entries runs to its end when every entry is
/// either removed or not there.
pub proof fn lemma_removals_tolerate_absence(
    plan: PlanView,
    outcomes: Seq<Result<(), IoFailureView>>,
)
    requires
        forall|i: int| 0 <= i < plan.steps.len() ==> plan.steps[i].is_removal(),
        outcomes.len() == plan.steps.len(),
        forall|i: int|
            0 <= i < outcomes.len() ==> outcomes[i] is Ok || outcomes[i]->Err_0.kind is NotFound,
    ensures
        replay(RunView::start(plan), outcomes).directive() == conclusion(plan),
{
    lemma_run_follows_plan(plan, outcomes);
}

/// A run in progress.
#[derive(Debug)]
pub struct Run {
    plan: Plan,
    done: usize,
    halted: Option<Error>,
}

impl View for Run {
    type V = RunView;

    closed spec fn view(&self) -> RunView {
        RunView {
            plan: self.plan@,
            done: self.done as nat,
            halted: match self.halted {
                Some(Error::Io(failure)) => Some(failure@),
                _ => None,
            },
        }
    }
}

impl Run {
    #[verifier::type_invariant]
    spec fn well_formed(&self) -> bool {
        &&& self.done <= self.plan.steps@.len()
        &&& self.halted matches Some(error) ==> error is Io
    }

    /// Starts the run of `plan`.
    pub fn new(plan: Plan) -> (run: Run)
        ensures
            run@ == RunView::start(plan@),
    {
        Run { plan, done: 0, halted: None }
    }

    /// What to do next.
    pub fn directive(&self) -> (next: Directive<'_>)
        ensures
            next@ == self@.directive(),
    {
        proof {
            use_type_invariant(self);
        }
        match &self.halted {
            Some(error) => Directive::Fail(error),
            None => if self.done < self.plan.steps.len() {
                Directive::Perform(&self.plan.steps[self.done])
            } else {
                match &self.plan.fault {
                    Some(error) => Directive::Fail(error),
                    None => Directive::Succeed,
                }
            },
        }
    }

    /// Takes note of how the operation that was due went.
    pub fn record(&mut self, outcome: Result<(), IoFailure>)
        ensures
            final(self)@ == old(self)@.record(outcome_view(outcome)),
    {
        proof {
            use_type_invariant(&*self);
        }
        if self.halted.is_none() && self.done < self.plan.steps.len() {
            let counted = if self.plan.steps[self.done].is_removal() {
                filter_not_found_error(outcome)
            } else {
                outcome
            };
            match counted {
                Ok(_) => {
                    self.done = self.done + 1;
                },
                Err(failure) => {
                    self.halted = Some(Error::Io(failure));
                },
            }
        }
    }
}

} // verus!
