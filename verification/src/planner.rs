//! The life of a request's split layer.
//!
//! A plan creates the layer, writes the learned overrides and the split
//! into it, asks for routes down the ladder, and removes the layer
//! again -- whatever happened in between.  [`LayerRun`] says what to do
//! next; what came of it decides what follows.

use crate::plan;
use crate::json::Json;
use crate::layer;
use crate::plan::{infeasible, settle, Ladder, PlanError, PlanErrorView, PlanResult, Sizing};
use crate::request;
use crate::table::Table;
use vstd::prelude::*;
use vstd::string::*;

verus! {

/// How a run ends.
#[derive(Debug)]
pub enum Ending {
    /// The layer could not be created: there is nothing to remove.
    NotCreated(String),
    /// The split could not be written.
    NotWritten(String),
    /// Routes were found at the rung the ladder stands on.
    Solved,
    /// No rung had usable routes; the last failure.
    Infeasible(String),
}

/// An ending with its text as characters.
pub enum EndingView {
    NotCreated(Seq<char>),
    NotWritten(Seq<char>),
    Solved,
    Infeasible(Seq<char>),
}

impl View for Ending {
    type V = EndingView;

    open spec fn view(&self) -> EndingView {
        match *self {
            Ending::NotCreated(e) => EndingView::NotCreated(e@),
            Ending::NotWritten(e) => EndingView::NotWritten(e@),
            Ending::Solved => EndingView::Solved,
            Ending::Infeasible(e) => EndingView::Infeasible(e@),
        }
    }
}

/// What to do next.
#[derive(Debug)]
pub enum Task {
    /// Create the layer.
    Create,
    /// Apply the override at this position.
    Override(usize),
    /// Make the write of the split at this position.
    Write(usize),
    /// Ask for routes at the rung the ladder stands on.
    Query,
    /// Remove the layer; then the run ends like this.
    Remove(Ending),
    /// Nothing: the run has ended.
    Finished(Ending),
}

/// A task with its text as characters.
pub enum TaskView {
    Create,
    Override(int),
    Write(int),
    Query,
    Remove(EndingView),
    Finished(EndingView),
}

impl View for Task {
    type V = TaskView;

    open spec fn view(&self) -> TaskView {
        match *self {
            Task::Create => TaskView::Create,
            Task::Override(i) => TaskView::Override(i as int),
            Task::Write(i) => TaskView::Write(i as int),
            Task::Query => TaskView::Query,
            Task::Remove(e) => TaskView::Remove(e@),
            Task::Finished(e) => TaskView::Finished(e@),
        }
    }
}

/// What came of a task: None where it succeeded, else the failure.
pub open spec fn failure_of(outcome: Result<(), &str>) -> Option<Seq<char>> {
    match outcome {
        Ok(_) => None,
        Err(e) => Some(e@),
    }
}

/// A run of a request's split layer.
#[derive(Debug)]
pub struct LayerRun {
    /// How many overrides are to be applied.
    pub overrides: usize,
    /// How many writes make the split.
    pub writes: usize,
    /// Where the solve stands.
    pub ladder: Ladder,
    /// What to do next.
    pub task: Task,
}

/// A run with its texts as characters.
pub struct LayerRunView {
    pub overrides: int,
    pub writes: int,
    pub ladder: Ladder,
    pub task: TaskView,
}

impl View for LayerRun {
    type V = LayerRunView;

    open spec fn view(&self) -> LayerRunView {
        LayerRunView {
            overrides: self.overrides as int,
            writes: self.writes as int,
            ladder: self.ladder,
            task: self.task@,
        }
    }
}

impl LayerRunView {
    /// The task's position is in range.
    pub open spec fn wf(self) -> bool {
        &&& self.ladder.wf()
        &&& 0 <= self.overrides
        &&& 0 <= self.writes
        &&& match self.task {
            TaskView::Override(i) => 0 <= i < self.overrides,
            TaskView::Write(i) => 0 <= i < self.writes,
            _ => true,
        }
    }

    /// The write at position `i`, or the query where there is none.
    pub open spec fn from_write(self, i: int) -> TaskView {
        if i < self.writes {
            TaskView::Write(i)
        } else {
            TaskView::Query
        }
    }

    /// The override at position `i`, or what follows the overrides.
    pub open spec fn from_override(self, i: int) -> TaskView {
        if i < self.overrides {
            TaskView::Override(i)
        } else {
            self.from_write(0)
        }
    }

    /// The run once its task came to `failure`.
    pub open spec fn stepped(self, failure: Option<Seq<char>>) -> LayerRunView {
        match self.task {
            TaskView::Create => LayerRunView {
                task: match failure {
                    None => self.from_override(0),
                    Some(e) => TaskView::Finished(EndingView::NotCreated(e)),
                },
                ..self
            },
            // Best-effort: a channel gone from gossip since we learned
            // about it must not fail the plan.
            TaskView::Override(i) => LayerRunView { task: self.from_override(i + 1), ..self },
            TaskView::Write(i) => LayerRunView {
                task: match failure {
                    None => self.from_write(i + 1),
                    Some(e) => TaskView::Remove(EndingView::NotWritten(e)),
                },
                ..self
            },
            TaskView::Query => match failure {
                None => LayerRunView { task: TaskView::Remove(EndingView::Solved), ..self },
                Some(e) => LayerRunView {
                    ladder: self.ladder.after_failure(e),
                    task: if self.ladder.goes_on(e) {
                        TaskView::Query
                    } else {
                        TaskView::Remove(EndingView::Infeasible(e))
                    },
                    ..self
                },
            },
            // Best-effort cleanup; planning outcome takes precedence.
            TaskView::Remove(end) => LayerRunView { task: TaskView::Finished(end), ..self },
            TaskView::Finished(end) => self,
        }
    }

    /// How many tasks a run can still have.
    pub open spec fn rank(self) -> int {
        match self.task {
            TaskView::Create => self.overrides + self.writes + plan::RUNGS + 3,
            TaskView::Override(i) => self.overrides - i + self.writes + plan::RUNGS + 2,
            TaskView::Write(i) => self.writes - i + plan::RUNGS + 2,
            TaskView::Query => plan::RUNGS - self.ladder.step + 2,
            TaskView::Remove(_) => 1,
            TaskView::Finished(_) => 0,
        }
    }

    /// Whether the layer exists because of this run.
    pub open spec fn holds_layer(self) -> bool {
        !(self.task is Create || self.task is Finished)
    }
}

impl LayerRun {
    /// A run before its first task.
    pub fn new(overrides: usize, writes: usize, ladder: Ladder) -> (r: Self)
        requires
            ladder.wf(),
        ensures
            r@.wf(),
            r@ == (LayerRunView {
                overrides: overrides as int,
                writes: writes as int,
                ladder,
                task: TaskView::Create,
            }),
    {
        LayerRun { overrides, writes, ladder, task: Task::Create }
    }

    fn write_at(&self, i: usize) -> (r: Task)
        ensures
            r@ == self@.from_write(i as int),
    {
        if i < self.writes {
            Task::Write(i)
        } else {
            Task::Query
        }
    }

    fn override_at(&self, i: usize) -> (r: Task)
        ensures
            r@ == self@.from_override(i as int),
    {
        if i < self.overrides {
            Task::Override(i)
        } else {
            self.write_at(0)
        }
    }

    /// How the run ended, and where the ladder then stood; the run
    /// itself where it has not ended.
    pub fn ended(self) -> (r: Result<(Ending, Ladder), Self>)
        ensures
            match r {
                Ok((end, ladder)) => self@.task == TaskView::Finished(end@) && ladder
                    == self.ladder,
                Err(run) => run == self && !(self@.task is Finished),
            },
    {
        match self.task {
            Task::Finished(end) => Ok((end, self.ladder)),
            task => Err(LayerRun { task, ..self }),
        }
    }

    /// Take what came of the task, and move on to the next.
    pub fn step(self, outcome: Result<(), &str>) -> (r: Self)
        requires
            self@.wf(),
        ensures
            r@.wf(),
            r@ == self@.stepped(failure_of(outcome)),
    {
        let mut run = self;
        let mut task = Task::Create;
        std::mem::swap(&mut task, &mut run.task);
        run.task = match task {
            Task::Create => match outcome {
                Ok(_) => run.override_at(0),
                Err(e) => Task::Finished(Ending::NotCreated(e.to_owned())),
            },
            Task::Override(i) => run.override_at(i + 1),
            Task::Write(i) => match outcome {
                Ok(_) => run.write_at(i + 1),
                Err(e) => Task::Remove(Ending::NotWritten(e.to_owned())),
            },
            Task::Query => match outcome {
                Ok(_) => Task::Remove(Ending::Solved),
                Err(e) => if run.ladder.descend(e) {
                    Task::Query
                } else {
                    Task::Remove(Ending::Infeasible(e.to_owned()))
                },
            },
            Task::Remove(end) => Task::Finished(end),
            Task::Finished(end) => Task::Finished(end),
        };
        run
    }
}

/// `r` is what a run comes to that ended in `ending` on the rung where
/// `ladder` stands: a layer that could not be made fails the plan; an
/// infeasible solve is a plan without routes, at the clamped ask; a solve
/// is settled at the rung's amount and budget.
pub open spec fn concludes(
    r: Result<PlanResult, PlanError>,
    ending: EndingView,
    ladder: Ladder,
    sizing: Sizing,
    solved: Json,
    self_id: Seq<char>,
    layer_name: Seq<char>,
    unsplit: Map<Seq<char>, Seq<char>>,
    onion_scids: Table<String>,
) -> bool {
    match ending {
        EndingView::NotCreated(e) => r matches Err(f) && f@ == PlanErrorView::Layer(e),
        EndingView::NotWritten(e) => r matches Err(f) && f@ == PlanErrorView::Layer(e),
        EndingView::Infeasible(raw) => r matches Ok(p) && p.moves_nothing(
            sizing.amount_msat,
            sizing.maxfee_msat,
            plan::infeasible_detail(raw, layer_name, ladder.descended),
        ) && p.onion_scids == onion_scids,
        EndingView::Solved => plan::settles(
            r,
            solved,
            self_id,
            unsplit,
            onion_scids,
            ladder.rung_msat,
            ladder.maxfee_msat,
        ),
    }
}

/// What a run comes to.  `solved` is the reply of getroutes where there
/// was one, and `layer_name` the name of the request's layer.
pub fn conclude(
    ending: Ending,
    ladder: &Ladder,
    sizing: &Sizing,
    solved: Json,
    self_id: &str,
    layer_name: &str,
    unsplit: &Table<String>,
    onion_scids: Table<String>,
) -> (r: Result<PlanResult, PlanError>)
    requires
        unsplit.wf(),
    ensures
        concludes(
            r,
            ending@,
            *ladder,
            *sizing,
            solved,
            self_id@,
            layer_name@,
            layer::text_map(unsplit@),
            onion_scids,
        ),
{
    match ending {
        Ending::NotCreated(e) => Err(PlanError::Layer(e)),
        Ending::NotWritten(e) => Err(PlanError::Layer(e)),
        Ending::Infeasible(raw) => Ok(
            infeasible(sizing, raw.as_str(), layer_name, ladder.descended, onion_scids),
        ),
        Ending::Solved => settle(
            solved,
            self_id,
            unsplit,
            onion_scids,
            ladder.rung_msat,
            ladder.maxfee_msat,
        ),
    }
}

/// Whatever happens, a layer that was created is removed before the run
/// ends: the run goes from holding the layer to having ended only
/// through its removal, and a run that never created it ends at once.
pub proof fn law_the_layer_is_always_removed(run: LayerRunView, failure: Option<Seq<char>>)
    requires
        run.wf(),
        run.stepped(failure).task is Finished,
    ensures
        run.holds_layer() ==> run.task is Remove,
        !run.holds_layer() && !(run.task is Finished) ==> run.task is Create && failure is Some,
{
}

/// Removing the layer changes nothing of the outcome, and neither does
/// failing to remove it or to apply an override.
pub proof fn law_best_effort_failures_decide_nothing(
    run: LayerRunView,
    failure: Option<Seq<char>>,
)
    requires
        run.task is Remove || run.task is Override,
    ensures
        run.stepped(failure) == run.stepped(None),
        run.task matches TaskView::Remove(end) ==> run.stepped(failure).task
            == TaskView::Finished(end),
{
}

/// Routes are asked for only once the whole split is written: a query
/// follows the last write's success, or a query that found no route.
pub proof fn law_queries_follow_the_whole_split(run: LayerRunView, failure: Option<Seq<char>>)
    requires
        run.wf(),
        run.stepped(failure).task is Query,
    ensures
        match run.task {
            TaskView::Write(i) => i == run.writes - 1 && failure is None,
            TaskView::Query => failure is Some && plan::is_no_route(failure->0)
                && run.stepped(failure).ladder.rung_msat < run.ladder.rung_msat,
            TaskView::Create => run.overrides == 0 && run.writes == 0 && failure is None,
            TaskView::Override(i) => i == run.overrides - 1 && run.writes == 0,
            _ => false,
        },
{
    if run.task is Query {
        plan::law_ladder_descends(run.ladder.amount_msat, run.ladder.step as int);
    }
}

/// Every run ends: each task that is done leaves fewer to do.
pub proof fn law_runs_end(run: LayerRunView, failure: Option<Seq<char>>)
    requires
        run.wf(),
        !(run.task is Finished),
    ensures
        run.stepped(failure).wf(),
        0 <= run.stepped(failure).rank() < run.rank(),
        run.stepped(failure).task is Finished <==> run.stepped(failure).rank() == 0,
{
    if run.task is Query && failure is Some && run.ladder.goes_on(failure->0) {
        plan::law_ladder_descends(run.ladder.amount_msat, run.ladder.step as int);
        request::law_allowance_is_monotone(
            run.ladder.budget,
            plan::rung(run.ladder.amount_msat, run.ladder.step + 1),
            run.ladder.amount_msat,
        );
    }
}

/// A run goes through its tasks in their order and leaves none out: the
/// layer, each override, each write, then a query; each success leads to
/// the next.
pub proof fn law_tasks_follow_in_order(run: LayerRunView)
    requires
        run.wf(),
    ensures
        ({
            let next = run.stepped(None).task;
            let first_write = if run.writes > 0 {
                TaskView::Write(0)
            } else {
                TaskView::Query
            };
            match run.task {
                TaskView::Create => next == if run.overrides > 0 {
                    TaskView::Override(0)
                } else {
                    first_write
                },
                TaskView::Override(i) => next == if i + 1 == run.overrides {
                    first_write
                } else {
                    TaskView::Override(i + 1)
                },
                TaskView::Write(i) => next == if i + 1 == run.writes {
                    TaskView::Query
                } else {
                    TaskView::Write(i + 1)
                },
                TaskView::Query => next == TaskView::Remove(EndingView::Solved),
                TaskView::Remove(end) => next == TaskView::Finished(end),
                TaskView::Finished(end) => next == TaskView::Finished(end),
            }
        }),
        run.stepped(None).ladder == run.ladder,
        run.stepped(None).overrides == run.overrides,
        run.stepped(None).writes == run.writes,
{
}

/// A failure ends the run with what failed: a layer that could not be
/// created at once, a split that could not be written and a solve without
/// routes by way of the removal.  A missing route goes down the ladder as
/// long as that has rungs; any other failure of a query does not.
pub proof fn law_failures_end_the_run_with_their_cause(run: LayerRunView, e: Seq<char>)
    requires
        run.wf(),
    ensures
        ({
            let next = run.stepped(Some(e));
            &&& run.task is Create ==> next.task == TaskView::Finished(EndingView::NotCreated(e))
            &&& run.task is Write ==> next.task == TaskView::Remove(EndingView::NotWritten(e))
            &&& run.task is Query && !plan::is_no_route(e) ==> next.task == TaskView::Remove(
                EndingView::Infeasible(e),
            ) && next.ladder == run.ladder
            &&& run.task is Query && plan::is_no_route(e) && run.ladder.amount_msat >= 8
                && run.ladder.step < 4 ==> next.task is Query && next.ladder.step == run.ladder.step
                + 1
            &&& run.task is Query && run.ladder.step >= 4 ==> next.task == TaskView::Remove(
                EndingView::Infeasible(e),
            )
            &&& !(run.task is Query) ==> next.ladder == run.ladder
        }),
{
    plan::law_missing_routes_try_every_rung(run.ladder, e);
}

/// What a run comes to: a layer that could not be made is the plan's
/// failure, told as it was; a solve without routes is a plan that moves
/// nothing, at the clamped ask and its budget, and says why; a solve is
/// settled at the amount and the budget of the rung it was found at.
pub proof fn law_endings_decide_the_plan(
    r: Result<PlanResult, PlanError>,
    ending: EndingView,
    ladder: Ladder,
    sizing: Sizing,
    solved: Json,
    self_id: Seq<char>,
    layer_name: Seq<char>,
    unsplit: Map<Seq<char>, Seq<char>>,
    onion_scids: Table<String>,
)
    requires
        concludes(
            r,
            ending,
            ladder,
            sizing,
            solved,
            self_id,
            layer_name,
            unsplit,
            onion_scids,
        ),
    ensures
        ending matches EndingView::NotCreated(e) ==> r is Err && r->Err_0@.message() == e,
        ending matches EndingView::NotWritten(e) ==> r is Err && r->Err_0@.message() == e,
        ending matches EndingView::Infeasible(raw) ==> {
            &&& r is Ok
            &&& r->Ok_0.routes@.len() == 0
            &&& r->Ok_0.delivered_msat == 0
            &&& r->Ok_0.fee_msat == 0
            &&& r->Ok_0.effective_amount_msat == sizing.amount_msat
            &&& r->Ok_0.maxfee_msat == sizing.maxfee_msat
            &&& r->Ok_0.detail is Some
            &&& r->Ok_0.pruned.long == 0
            &&& r->Ok_0.pruned.rates@.len() == 0
        },
        ending is Solved ==> {
            &&& r is Ok ==> r->Ok_0.effective_amount_msat == ladder.rung_msat
                && r->Ok_0.maxfee_msat == ladder.maxfee_msat && r->Ok_0.fee_msat
                <= ladder.maxfee_msat
            &&& plan::settles(
                r,
                solved,
                self_id,
                unsplit,
                onion_scids,
                ladder.rung_msat,
                ladder.maxfee_msat,
            )
        },
{
}

/// A task's outcome is a failure exactly where it is an error, with the
/// error's own words.
pub proof fn law_errors_are_failures(e: &str)
    ensures
        failure_of(Err::<(), &str>(e)) == Some(e@),
        failure_of(Ok::<(), &str>(())) is None,
{
}

} // verus!
