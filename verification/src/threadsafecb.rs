//! Running a callback on the main thread, on request from any thread.
//!
//! A thread-safe callback keeps a function of the engine and the value that it
//! is bound to alive beyond any scope. Any thread may ask for a run; each
//! request is served once, on the main thread, in a scope that is entered for
//! it. In which order the requests are served is not promised.

use vstd::prelude::*;
use std::collections::VecDeque;
use crate::context::Context;
use crate::context::TaskContext;
use crate::env::Env;
use crate::raw::Local;

verus! {

/// What can happen to a thread-safe callback.
#[derive(Clone, Copy, PartialEq, Eq, Structural, Debug)]
pub enum CallbackEvent {
    /// Some thread asks for a run.
    Call,
    /// The main thread serves a request, if there is one.
    Serve,
}

/// How many requests wait after an event, where `waiting` waited before it,
/// and whether the event runs the trampoline. A `Serve` that finds no request
/// changes nothing.
pub open spec fn callback_step(waiting: nat, event: CallbackEvent) -> (nat, bool) {
    match event {
        CallbackEvent::Call => (waiting + 1, false),
        CallbackEvent::Serve => if waiting > 0 {
            ((waiting - 1) as nat, true)
        } else {
            (0, false)
        },
    }
}

/// How many requests have been made after a sequence of events.
pub open spec fn requests(events: Seq<CallbackEvent>) -> nat
    decreases events.len(),
{
    if events.len() == 0 {
        0
    } else if events.last() == CallbackEvent::Call {
        requests(events.drop_last()) + 1
    } else {
        requests(events.drop_last())
    }
}

/// How many requests wait to be served after a sequence of events.
pub open spec fn waiting(events: Seq<CallbackEvent>) -> nat
    decreases events.len(),
{
    if events.len() == 0 {
        0
    } else {
        callback_step(waiting(events.drop_last()), events.last()).0
    }
}

/// How many times the trampoline has run after a sequence of events.
pub open spec fn trampoline_runs(events: Seq<CallbackEvent>) -> nat
    decreases events.len(),
{
    if events.len() == 0 {
        0
    } else if callback_step(waiting(events.drop_last()), events.last()).1 {
        trampoline_runs(events.drop_last()) + 1
    } else {
        trampoline_runs(events.drop_last())
    }
}

/// Every request is served once: at any time the requests that were made are
/// those that were served and those that wait, so that when none waits the
/// trampoline has run as many times as requests were made.
pub proof fn law_each_request_runs_once(events: Seq<CallbackEvent>)
    ensures
        requests(events) == trampoline_runs(events) + waiting(events),
        waiting(events) == 0 ==> trampoline_runs(events) == requests(events),
    decreases events.len(),
{
    if events.len() > 0 {
        law_each_request_runs_once(events.drop_last());
    }
}

/// A callback that any thread may ask the main thread to run.
pub struct ThreadSafeCallback<A> {
    this: usize,
    callback: usize,
    queue: VecDeque<A>,
}

impl<A> ThreadSafeCallback<A> {
    /// The engine value that the callback is bound to.
    pub closed spec fn bound_to(&self) -> usize {
        self.this
    }

    /// The engine's function.
    pub closed spec fn function(&self) -> usize {
        self.callback
    }

    /// The arguments of the requests that wait to be served.
    pub closed spec fn waiting(&self) -> Seq<A> {
        self.queue@
    }

    /// Makes a thread-safe callback of the function that `callback`
    /// designates, bound to the value that `this` designates; `None` where
    /// one of the handles designates no value.
    pub fn new<C: Context>(cx: &C, this: Local, callback: Local) -> (r: Option<
        ThreadSafeCallback<A>,
    >)
        requires
            cx.env().wf(),
        ensures
            r is Some <==> cx.env()@.scopes.live(this) && cx.env()@.scopes.live(callback),
            r matches Some(made) ==> {
                &&& made.bound_to() == cx.env()@.scopes.value_of(this)
                &&& made.function() == cx.env()@.scopes.value_of(callback)
                &&& made.waiting() == Seq::<A>::empty()
            },
    {
        match (cx.resolve(this), cx.resolve(callback)) {
            (Some(this), Some(callback)) => Some(
                ThreadSafeCallback { this, callback, queue: VecDeque::new() },
            ),
            _ => None,
        }
    }

    /// The engine value that the callback is bound to.
    pub fn this(&self) -> (this: usize)
        ensures
            this == self.bound_to(),
    {
        self.this
    }

    /// The engine's function.
    pub fn callback(&self) -> (callback: usize)
        ensures
            callback == self.function(),
    {
        self.callback
    }

    /// How many requests wait to be served.
    pub fn pending(&self) -> (count: usize)
        ensures
            count == self.waiting().len(),
    {
        self.queue.len()
    }

    /// Asks for a run of the callback with this argument. Any thread may ask.
    pub fn call(&mut self, argument: A)
        ensures
            final(self).waiting() == old(self).waiting().push(argument),
            (final(self).waiting().len(), false) == callback_step(
                old(self).waiting().len(),
                CallbackEvent::Call,
            ),
            final(self).bound_to() == old(self).bound_to(),
            final(self).function() == old(self).function(),
    {
        self.queue.push_back(argument);
    }

    /// Serves one request, as the main thread does: a scope is entered, the
    /// trampoline runs in a context of its own with the value that the
    /// callback is bound to, the engine's function and the argument of the
    /// request, and the scope is left. Returns whether a request was served;
    /// where none waits, nothing happens.
    ///
    /// Which of the waiting requests is served is not promised.
    pub fn serve<F: FnOnce(&mut TaskContext, usize, usize, A)>(
        &mut self,
        env: Env,
        trampoline: F,
    ) -> (r: (Env, bool))
        requires
            env.wf(),
            forall|cx: &mut TaskContext, argument: A|
                mut_ref_current(cx).begun_in(env@) && old(self).waiting().contains(argument)
                    ==> call_requires(
                    trampoline,
                    (cx, old(self).bound_to(), old(self).function(), argument),
                ),
            forall|cx: &mut TaskContext, this: usize, callback: usize, argument: A|
                mut_ref_current(cx).env().wf() && #[trigger] call_ensures(
                    trampoline,
                    (cx, this, callback, argument),
                    (),
                ) ==> mut_ref_future(cx).env().wf(),
        ensures
            r.0.wf(),
            (final(self).waiting().len(), r.1) == callback_step(
                old(self).waiting().len(),
                CallbackEvent::Serve,
            ),
            final(self).bound_to() == old(self).bound_to(),
            final(self).function() == old(self).function(),
            !r.1 ==> r.0 == env && final(self).waiting() == old(self).waiting(),
            r.1 ==> exists|cx: &mut TaskContext, i: int|
                {
                    &&& 0 <= i < old(self).waiting().len()
                    &&& final(self).waiting() == old(self).waiting().remove(i)
                    &&& mut_ref_current(cx).begun_in(env@)
                    &&& #[trigger] call_ensures(
                        trampoline,
                        (cx, old(self).bound_to(), old(self).function(), old(self).waiting()[i]),
                        (),
                    )
                    &&& r.0@ == mut_ref_future(cx).ended()
                },
    {
        match self.queue.pop_front() {
            None => (env, false),
            Some(argument) => {
                assert(self.waiting() =~= old(self).waiting().remove(0));
                assert(argument == old(self).waiting()[0]);
                assert(old(self).waiting().contains(argument));
                assert(self.this == old(self).bound_to() && self.callback == old(self).function());
                let mut cx = TaskContext::begin(env);
                assert(cx.begun_in(env@));
                trampoline(&mut cx, self.this, self.callback, argument);
                (cx.finish(), true)
            },
        }
    }

    /// Releases the callback and hands back the arguments of the requests
    /// that were not served.
    pub fn delete(self) -> (unserved: VecDeque<A>)
        ensures
            unserved@ == self.waiting(),
    {
        self.queue
    }
}

} // verus!
