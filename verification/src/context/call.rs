//! The context of a call from script code.

use vstd::prelude::*;
use crate::call::CallRecord;
use crate::call::FunctionCallbackInfo;
use crate::context::scope_is_innermost;
use crate::context::Context;
use crate::context::Scoped;
use crate::env::Env;
use crate::env::EnvModel;
use crate::raw::InheritedHandleScope;
use crate::raw::Isolate;
use crate::raw::Local;
use crate::result::completion_of;
use crate::result::Completion;
use crate::result::Exception;
use crate::result::Throw;
use crate::root_set::ScopeKind;
use crate::scope::ScopeError;

verus! {

/// How a function was called.
#[derive(Clone, Copy, PartialEq, Eq, Structural, Debug)]
pub enum CallKind {
    /// As a free function.
    Function,
    /// As a method of an instance of a native-backed class.
    Method,
    /// As a constructor.
    Construct,
}

/// The context of a call from script code: besides what every context offers,
/// it knows the arguments of the call, the value that the function is bound
/// to, the data that was attached to the function, and whether the call
/// constructs an object.
pub struct CallContext {
    env: Env,
    depth: usize,
    info: FunctionCallbackInfo,
    called: CallKind,
}

impl Context for CallContext {
    closed spec fn env(&self) -> Env {
        self.env
    }

    open spec fn kind(&self) -> ScopeKind {
        ScopeKind::Inherited
    }

    open spec fn storage(&self) -> Seq<u8> {
        Seq::empty()
    }

    closed spec fn base(&self) -> nat {
        self.depth as nat
    }

    closed spec fn with_env(&self, env: Env) -> Self {
        CallContext { env, depth: self.depth, info: self.info, called: self.called }
    }

    proof fn lemma_with_env(&self, env: Env) {
    }

    fn env_ref(&self) -> (env: &Env) {
        &self.env
    }

    fn env_mut(&mut self) -> (env: &mut Env) {
        &mut self.env
    }
}

impl CallContext {
    /// The record of the call.
    pub closed spec fn info(&self) -> CallRecord {
        self.info@
    }

    /// How the function was called.
    pub closed spec fn called(&self) -> CallKind {
        self.called
    }

    /// `with_env` keeps the record of the call: what every context offers
    /// leaves the call as it is.
    pub proof fn lemma_with_env_call(&self, env: Env)
        ensures
            self.with_env(env).info() == self.info(),
            self.with_env(env).called() == self.called(),
    {
    }

    /// The engine value that the call is bound to; `None` where the handle
    /// of it designates no value.
    pub open spec fn receiver(&self) -> Option<usize> {
        if self.env()@.scopes.live(self.info().this) {
            Some(self.env()@.scopes.value_of(self.info().this))
        } else {
            None
        }
    }

    /// The state in which the value that the call returns is taken out of
    /// the scope: a handle that native code set for it and that designates no
    /// value is a misuse, which is left pending.
    pub open spec fn returning(&self) -> EnvModel {
        match self.info().returned {
            Some(h) => if self.env()@.scopes.live(h) {
                self.env()@
            } else {
                self.env()@.failed(Exception::Misuse(ScopeError::DeadHandle))
            },
            None => self.env()@,
        }
    }

    /// The engine value that the call returns: the one that the handle which
    /// native code set designates; `None`, the engine's default, where it set
    /// none.
    pub open spec fn returned_value(&self) -> Option<usize> {
        match self.info().returned {
            Some(h) => if self.env()@.scopes.live(h) {
                Some(self.env()@.scopes.value_of(h))
            } else {
                None
            },
            None => None,
        }
    }

    /// The record of a call whose handles carry the numbers from `first` on:
    /// first the value that the function is bound to, then the data that was
    /// attached to the function, then the arguments.
    pub open spec fn record(isolate: Isolate, first: usize, count: nat, called: CallKind)
        -> CallRecord {
        CallRecord {
            isolate,
            this: Local { handle: first },
            data: Local { handle: (first + 1) as usize },
            arguments: Seq::new(count, |i: int| Local { handle: (first + 2 + i) as usize }),
            construct: called == CallKind::Construct,
            returned: None,
        }
    }

    /// Takes note of the scope that the engine entered for the call, makes
    /// handles in it for the value that the function is bound to, for the
    /// data that was attached to the function and for the arguments, and
    /// hands the engine instance to a new context.
    ///
    /// Where fewer handle numbers are left than the call needs, no context is
    /// made: the engine instance is handed back with that left pending.
    pub fn begin(
        env: Env,
        this: usize,
        data: usize,
        arguments: &Vec<usize>,
        called: CallKind,
    ) -> (r: Result<CallContext, Env>)
        requires
            env.wf(),
            arguments@.len() <= i32::MAX,
        ensures
            r is Ok <==> env@.scopes.next + 2 + arguments@.len() <= usize::MAX,
            r matches Err(back) ==> back.wf() && back@ == env@.failed(
                Exception::Misuse(ScopeError::HandlesExhausted),
            ),
            r matches Ok(cx) ==> {
                &&& cx.env().wf()
                &&& cx.base() == env@.scopes.depth()
                &&& cx.called() == called
                &&& cx.env()@ == env@.with_scopes(
                    env@.scopes.entered(ScopeKind::Inherited).rooted_all(
                        seq![this, data] + arguments@,
                    ),
                )
                &&& cx.info() == CallContext::record(
                    env@.scopes.isolate,
                    env@.scopes.next,
                    arguments@.len(),
                    called,
                )
                &&& scope_is_innermost(cx.env()@.scopes, ScopeKind::Inherited, cx.storage())
            },
    {
        let mut env = env;
        if env.scopes().remaining() < 2 || env.scopes().remaining() - 2 < arguments.len() {
            env.fail(Exception::Misuse(ScopeError::HandlesExhausted));
            return Err(env);
        }
        let depth = env.depth();
        let isolate = env.isolate();
        let ghost first = env@.scopes.next;
        let mut values: Vec<usize> = Vec::new();
        values.push(this);
        values.push(data);
        let mut i: usize = 0;
        while i < arguments.len()
            invariant
                i <= arguments.len(),
                values@ == (seq![this, data] + arguments@.take(i as int)),
            decreases arguments.len() - i,
        {
            values.push(arguments[i]);
            assert(arguments@.take(i + 1) =~= arguments@.take(i as int).push(arguments@[i as int]));
            i = i + 1;
        }
        assert(arguments@.take(i as int) =~= arguments@);
        env.open_inherited(InheritedHandleScope);
        proof {
            env.lemma_wf();
            env@.scopes.lemma_rooted_all(values@);
        }
        match env.root_all(&values) {
            Err(_) => Err(env),
            Ok(handles) => {
                let mut rest: Vec<Local> = Vec::new();
                let mut k: usize = 2;
                while k < handles.len()
                    invariant
                        2 <= k <= handles.len(),
                        rest@.len() == k - 2,
                        forall|j: int| 0 <= j < rest@.len() ==> rest@[j] == handles@[j + 2],
                    decreases handles.len() - k,
                {
                    rest.push(handles[k]);
                    k = k + 1;
                }
                let construct = match called {
                    CallKind::Construct => true,
                    _ => false,
                };
                match FunctionCallbackInfo::new(isolate, handles[0], handles[1], rest, construct) {
                    None => Err(env),
                    Some(info) => {
                        assert(info@.arguments =~= CallContext::record(
                            isolate,
                            first,
                            arguments@.len(),
                            called,
                        ).arguments);
                        Ok(CallContext { env, depth, info, called })
                    },
                }
            },
        }
    }

    /// Takes the value that the call returns out of the scope of the context,
    /// leaves that scope, and hands back the engine instance and how the call
    /// completes. What is pending is taken out of the engine instance and
    /// thrown.
    pub fn finish(self, result: Result<(), Throw>) -> (r: (Env, Completion))
        requires
            self.env().wf(),
        ensures
            r.0.wf(),
            r.0@ == (EnvModel { pending: None, ..self.finishing(result is Err) }),
            r.1 == completion_of(
                self.finishing(result is Err).pending,
                result is Err,
                self.returned_value(),
            ),
    {
        let CallContext { mut env, depth, info, called } = self;
        let returned = match result {
            Err(_) => None,
            Ok(()) => match info.returned() {
                None => None,
                Some(h) => match env.resolve(h) {
                    Some(value) => Some(value),
                    None => {
                        env.fail(Exception::Misuse(ScopeError::DeadHandle));
                        None
                    },
                },
            },
        };
        env.close_inherited(InheritedHandleScope, depth);
        let completion = match env.take_pending() {
            Some(exception) => Completion::Throw(exception),
            None => match result {
                Err(_) => Completion::Throw(Exception::Unspecified),
                Ok(()) => Completion::Return(returned),
            },
        };
        (env, completion)
    }

    /// The state that the call leaves when its scope is left: where native
    /// code signalled no failure, a handle that it set for the call's value
    /// and that designates none is a misuse, which is left pending.
    pub open spec fn finishing(&self, signalled: bool) -> EnvModel {
        let before = if signalled {
            self.env()@
        } else {
            self.returning()
        };
        before.closed(
            scope_is_innermost(self.env()@.scopes, self.kind(), self.storage()),
            self.base(),
        )
    }

    /// How the function was called.
    pub fn call_kind(&self) -> (kind: CallKind)
        ensures
            kind == self.called(),
    {
        self.called
    }

    /// Whether the call constructs an object.
    pub fn is_construct_call(&self) -> (construct: bool)
        ensures
            construct == self.info().construct,
    {
        crate::call::is_construct(&self.info)
    }

    /// The value that the function is bound to.
    pub fn this(&self) -> (this: Local)
        ensures
            this == self.info().this,
    {
        let mut out = Local::null();
        crate::call::this(&self.info, &mut out);
        out
    }

    /// The data that was attached to the function when it was made.
    pub fn callee_data(&self) -> (data: Local)
        ensures
            data == self.info().data,
    {
        let mut out = Local::null();
        crate::call::data(&self.info, &mut out);
        out
    }

    /// How many arguments the call has.
    pub fn argument_count(&self) -> (count: i32)
        ensures
            count == self.info().arguments.len(),
    {
        crate::call::len(&self.info)
    }

    /// The argument at `i`, or `None` where the call has no such argument.
    pub fn argument_opt(&self, i: i32) -> (argument: Option<Local>)
        ensures
            argument is Some <==> 0 <= i < self.info().arguments.len(),
            argument matches Some(a) ==> a == self.info().arguments[i as int],
    {
        if 0 <= i && i < crate::call::len(&self.info) {
            let mut out = Local::null();
            crate::call::get(&self.info, i, &mut out);
            Some(out)
        } else {
            None
        }
    }

    /// The argument at `i`. An index outside the arguments is rejected: the
    /// missing argument is left pending and `Err` is returned.
    pub fn argument(&mut self, i: i32) -> (r: Result<Local, Throw>)
        requires
            old(self).env().wf(),
        ensures
            final(self).env().wf(),
            *final(self) == old(self).with_env(final(self).env()),
            r is Ok <==> 0 <= i < old(self).info().arguments.len(),
            r matches Ok(a) ==> a == old(self).info().arguments[i as int] && final(self).env()
                == old(self).env(),
            r is Err ==> final(self).env()@ == old(self).env()@.failed(
                Exception::MissingArgument(i),
            ),
    {
        match self.argument_opt(i) {
            Some(a) => Ok(a),
            None => Err(self.env.fail(Exception::MissingArgument(i))),
        }
    }

    /// Sets the value that the call returns.
    pub fn set_return(&mut self, value: Local)
        ensures
            final(self).env() == old(self).env(),
            final(self).base() == old(self).base(),
            final(self).called() == old(self).called(),
            final(self).info() == (CallRecord { returned: Some(value), ..old(self).info() }),
    {
        crate::call::set_return(&mut self.info, value);
    }
}

impl Scoped for CallContext {

}

} // verus!
