//! Tasks: work that runs off the main thread, and whose completion is
//! delivered on the main thread.
//!
//! The work phase gets no context, so it cannot touch a handle. The
//! completion handler gets a context of its own, in a scope that is entered
//! for it, and runs once, after the work has finished.

use vstd::prelude::*;
use crate::context::Context;
use crate::context::TaskContext;
use crate::env::Env;
use crate::raw::Local;
use crate::result::Completion;
use crate::result::Throw;

verus! {

/// Where a task is in its life.
#[derive(Clone, Copy, PartialEq, Eq, Structural, Debug)]
pub enum TaskState {
    /// Submitted; the work has not started.
    Pending,
    /// A worker thread has taken the task up: once the work has run, its
    /// result waits to be delivered.
    Running,
    /// The completion handler has run.
    Completed,
}

/// What can happen to a task.
#[derive(Clone, Copy, PartialEq, Eq, Structural, Debug)]
pub enum TaskEvent {
    /// A worker thread takes the task up and runs its work.
    Run,
    /// The main thread delivers the completion.
    Complete,
}

/// The state after an event, and whether the event runs the completion
/// handler. An event that the state does not admit changes nothing.
pub open spec fn task_step(state: TaskState, event: TaskEvent) -> (TaskState, bool) {
    match (state, event) {
        (TaskState::Pending, TaskEvent::Run) => (TaskState::Running, false),
        (TaskState::Running, TaskEvent::Complete) => (TaskState::Completed, true),
        _ => (state, false),
    }
}

/// The state of a task after a sequence of events, from its submission on.
pub open spec fn state_after(events: Seq<TaskEvent>) -> TaskState
    decreases events.len(),
{
    if events.len() == 0 {
        TaskState::Pending
    } else {
        task_step(state_after(events.drop_last()), events.last()).0
    }
}

/// How many times the completion handler has run after a sequence of events.
pub open spec fn handler_runs(events: Seq<TaskEvent>) -> nat
    decreases events.len(),
{
    if events.len() == 0 {
        0
    } else {
        let before = handler_runs(events.drop_last());
        if task_step(state_after(events.drop_last()), events.last()).1 {
            before + 1
        } else {
            before
        }
    }
}

/// Whatever happens to a task, its completion handler runs at most once; it
/// has run exactly when the task is completed; and a completed task stays
/// completed.
pub proof fn law_completion_runs_once(events: Seq<TaskEvent>)
    ensures
        handler_runs(events) <= 1,
        handler_runs(events) == 1 <==> state_after(events) == TaskState::Completed,
        forall|event: TaskEvent|
            state_after(events) == TaskState::Completed ==> task_step(
                state_after(events),
                event,
            ) == (TaskState::Completed, false),
    decreases events.len(),
{
    if events.len() > 0 {
        law_completion_runs_once(events.drop_last());
    }
}

/// The completion handler runs only after the work has: where the event at
/// `at` runs the handler, an earlier event ran the work.
pub proof fn law_completion_follows_work(events: Seq<TaskEvent>, at: int)
    requires
        0 <= at < events.len(),
        task_step(state_after(events.take(at)), events[at]).1,
    ensures
        events[at] == TaskEvent::Complete,
        exists|earlier: int|
            0 <= earlier < at && events[earlier] == TaskEvent::Run && state_after(
                events.take(earlier),
            ) == TaskState::Pending,
{
    lemma_running_was_run(events.take(at));
    let earlier = choose|earlier: int|
        0 <= earlier < events.take(at).len() && events.take(at)[earlier] == TaskEvent::Run
            && state_after(events.take(at).take(earlier)) == TaskState::Pending;
    assert(events.take(at).take(earlier) =~= events.take(earlier));
}

/// A task whose work has run has seen a `Run` event while it was pending.
proof fn lemma_running_was_run(events: Seq<TaskEvent>)
    requires
        state_after(events) != TaskState::Pending,
    ensures
        exists|earlier: int|
            0 <= earlier < events.len() && events[earlier] == TaskEvent::Run && state_after(
                events.take(earlier),
            ) == TaskState::Pending,
    decreases events.len(),
{
    let front = events.drop_last();
    if state_after(front) == TaskState::Pending {
        let last = events.len() - 1;
        assert(events.take(last) =~= front);
        assert(events[last] == TaskEvent::Run);
    } else {
        lemma_running_was_run(front);
        let earlier = choose|earlier: int|
            0 <= earlier < front.len() && front[earlier] == TaskEvent::Run && state_after(
                front.take(earlier),
            ) == TaskState::Pending;
        assert(front.take(earlier) =~= events.take(earlier));
        assert(events[earlier] == front[earlier]);
    }
}

/// A unit of work with the handler of its completion.
pub struct Task<T, W, H> {
    work: Option<W>,
    handler: Option<H>,
    result: Option<T>,
    state: TaskState,
}

impl<T, W: FnOnce() -> T, H: FnOnce(&mut TaskContext, T) -> Result<Local, Throw>> Task<T, W, H> {
    /// Where the task is in its life.
    pub closed spec fn phase(&self) -> TaskState {
        self.state
    }

    /// The work, until it has run.
    pub closed spec fn work(&self) -> Option<W> {
        self.work
    }

    /// The completion handler, until it has run.
    pub closed spec fn handler(&self) -> Option<H> {
        self.handler
    }

    /// The result of the work, from when the work has run until the
    /// completion is delivered.
    pub closed spec fn result(&self) -> Option<T> {
        self.result
    }

    /// A pending task holds its work and its handler; a task whose work has
    /// run holds the result and the handler; a completed task holds nothing.
    pub open spec fn wf(&self) -> bool {
        match self.phase() {
            TaskState::Pending => self.work() is Some && self.handler() is Some
                && self.result() is None,
            TaskState::Running => self.work() is None && self.handler() is Some
                && self.result() is Some,
            TaskState::Completed => self.work() is None && self.handler() is None
                && self.result() is None,
        }
    }

    /// Submits work and the handler of its completion.
    pub fn new(work: W, handler: H) -> (task: Task<T, W, H>)
        ensures
            task.wf(),
            task.phase() == TaskState::Pending,
            task.work() == Some(work),
            task.handler() == Some(handler),
    {
        Task { work: Some(work), handler: Some(handler), result: None, state: TaskState::Pending }
    }

    /// Where the task is in its life.
    pub fn state(&self) -> (state: TaskState)
        ensures
            state == self.phase(),
    {
        self.state
    }

    /// Runs the work, as a worker thread does. Returns whether the work ran:
    /// it runs where the task is pending, and then the task holds its result.
    /// Else nothing changes.
    pub fn run(&mut self) -> (ran: bool)
        requires
            old(self).wf(),
            old(self).phase() == TaskState::Pending ==> call_requires(old(self).work()->0, ()),
        ensures
            final(self).wf(),
            ran == (old(self).phase() == TaskState::Pending),
            (final(self).phase(), false) == task_step(old(self).phase(), TaskEvent::Run),
            final(self).handler() == old(self).handler(),
            ran ==> final(self).result() is Some && call_ensures(
                old(self).work()->0,
                (),
                final(self).result()->0,
            ),
            !ran ==> final(self).result() == old(self).result()
                && final(self).work() == old(self).work(),
    {
        match self.state {
            TaskState::Pending => {
                match self.work.take() {
                    Some(work) => {
                        self.result = Some(work());
                        self.state = TaskState::Running;
                        true
                    },
                    None => false,
                }
            },
            _ => false,
        }
    }

    /// Delivers the completion, as the main thread does. Where the work has
    /// run and the completion has not been delivered, a scope is entered, the
    /// handler runs in a context of its own with the result of the work, what
    /// it produced is taken out of the scope, and the scope is left: the task
    /// is then completed. Else nothing happens and `None` is returned.
    pub fn complete(&mut self, env: Env) -> (r: (Env, Option<Completion>))
        requires
            old(self).wf(),
            env.wf(),
            old(self).phase() == TaskState::Running ==> forall|cx: &mut TaskContext|
                mut_ref_current(cx).begun_in(env@) ==> call_requires(
                    old(self).handler()->0,
                    (cx, old(self).result()->0),
                ),
            old(self).phase() == TaskState::Running ==> forall|
                cx: &mut TaskContext,
                t: T,
                produced: Result<Local, Throw>,
            |
                mut_ref_current(cx).env().wf() && #[trigger] call_ensures(
                    old(self).handler()->0,
                    (cx, t),
                    produced,
                ) ==> mut_ref_future(cx).env().wf(),
        ensures
            final(self).wf(),
            r.0.wf(),
            (final(self).phase(), r.1 is Some) == task_step(
                old(self).phase(),
                TaskEvent::Complete,
            ),
            r.1 is None ==> {
                &&& r.0 == env
                &&& final(self).work() == old(self).work()
                &&& final(self).handler() == old(self).handler()
                &&& final(self).result() == old(self).result()
            },
            r.1 matches Some(completion) ==> exists|
                cx: &mut TaskContext,
                produced: Result<Local, Throw>,
            |
                mut_ref_current(cx).begun_in(env@) && #[trigger] call_ensures(
                    old(self).handler()->0,
                    (cx, old(self).result()->0),
                    produced,
                ) && (r.0@, completion) == mut_ref_future(cx).delivering(produced),
    {
        match self.state {
            TaskState::Running => {
                match (self.handler.take(), self.result.take()) {
                    (Some(handler), Some(result)) => {
                        self.state = TaskState::Completed;
                        let mut cx = TaskContext::begin(env);
                        let produced = handler(&mut cx, result);
                        let (env, completion) = cx.deliver(produced);
                        (env, Some(completion))
                    },
                    _ => (env, None),
                }
            },
            _ => (env, None),
        }
    }
}

} // verus!
