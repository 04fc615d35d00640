//! Contexts: what native code may do, by where in the engine's call lifecycle
//! it runs.
//!
//! A context owns the native side of the engine instance for as long as it
//! lives, and with it the scope that was entered for it. Every context makes
//! values and enters nested scopes. What else it offers depends on its type:
//! only a call context knows of arguments, only a module context of exports.

use vstd::prelude::*;
use crate::env::Env;
use crate::env::EnvModel;
use crate::raw::EscapableHandleScope;
use crate::raw::HandleScope;
use crate::raw::Isolate;
use crate::raw::Local;
use crate::result::completion_of;
use crate::result::Completion;
use crate::result::Exception;
use crate::result::Throw;
use crate::root_set::RootSet;
use crate::root_set::ScopeKind;
use crate::scope::is_innermost;
use crate::scope::ScopeError;

pub mod call;
pub mod module;

pub use call::CallContext;
pub use call::CallKind;
pub use module::Export;
pub use module::ExportModel;
pub use module::ModuleContext;

verus! {

/// Whether the scope of a context is the innermost scope. A scope that native
/// code entered is known by the stamp on its storage; an inherited scope has
/// no storage and is known by its kind.
pub open spec fn scope_is_innermost(scopes: RootSet, kind: ScopeKind, storage: Seq<u8>) -> bool {
    if kind == ScopeKind::Inherited {
        scopes.depth() > 0 && scopes.top().kind == ScopeKind::Inherited
    } else {
        is_innermost(scopes, kind, storage)
    }
}

/// What every context offers.
pub trait Context: Sized {
    /// The native side of the engine instance, which the context owns.
    spec fn env(&self) -> Env;

    /// The kind of the scope that was entered for the context.
    spec fn kind(&self) -> ScopeKind;

    /// The storage of that scope.
    spec fn storage(&self) -> Seq<u8>;

    /// How many scopes were entered before that scope.
    spec fn base(&self) -> nat;

    /// The context with another state of the engine instance's native side.
    spec fn with_env(&self, env: Env) -> Self;

    /// `with_env` changes the state of the native side and nothing else.
    proof fn lemma_with_env(&self, env: Env)
        ensures
            self.with_env(env).env() == env,
            self.with_env(env).kind() == self.kind(),
            self.with_env(env).storage() == self.storage(),
            self.with_env(env).base() == self.base(),
    ;

    /// The native side of the engine instance.
    fn env_ref(&self) -> (env: &Env)
        ensures
            *env == self.env(),
    ;

    /// The native side of the engine instance, to change it.
    fn env_mut(&mut self) -> (env: &mut Env)
        ensures
            *env == old(self).env(),
            *final(self) == old(self).with_env(*final(env)),
    ;

    /// The context is that of a scope which was just entered in `outer`.
    open spec fn begun_in(&self, outer: EnvModel) -> bool {
        &&& self.env().wf()
        &&& self.env()@ == outer.opened(self.kind())
        &&& self.base() == outer.scopes.depth()
        &&& scope_is_innermost(self.env()@.scopes, self.kind(), self.storage())
    }

    /// The state that the context leaves when its scope is left.
    open spec fn ended(&self) -> EnvModel {
        self.env()@.closed(
            scope_is_innermost(self.env()@.scopes, self.kind(), self.storage()),
            self.base(),
        )
    }

    /// The engine instance.
    fn isolate(&self) -> (isolate: Isolate)
        ensures
            isolate == self.env()@.scopes.isolate,
    {
        self.env_ref().isolate()
    }

    /// Whether an exception is pending.
    fn is_throwing(&self) -> (throwing: bool)
        ensures
            throwing == self.env()@.pending is Some,
    {
        self.env_ref().is_throwing()
    }

    /// The engine value that `h` designates, if it designates one.
    fn resolve(&self, h: Local) -> (value: Option<usize>)
        requires
            self.env().wf(),
        ensures
            value is Some <==> self.env()@.scopes.live(h),
            value matches Some(v) ==> v == self.env()@.scopes.value_of(h),
    {
        self.env_ref().resolve(h)
    }

    /// Makes a handle, in the innermost scope, for the value that the engine
    /// made; `made` is `None` where the engine could not make one. While an
    /// exception is pending no handle is made and `Err` is returned.
    fn root(&mut self, made: Option<usize>) -> (r: Result<Local, Throw>)
        requires
            old(self).env().wf(),
        ensures
            final(self).env().wf(),
            *final(self) == old(self).with_env(final(self).env()),
            (r, final(self).env()@) == old(self).env()@.rooting(made),
            r matches Ok(h) ==> final(self).env()@.scopes.live(h)
                && final(self).env()@.scopes.value_of(h) == made->0,
    {
        let env = self.env_mut();
        let r = env.root(made);
        proof {
            old(self).lemma_with_env(*env);
        }
        r
    }

    /// Leaves `exception` pending, unless something is pending already, and
    /// returns the signal to hand on.
    fn fail(&mut self, exception: Exception) -> (signal: Throw)
        requires
            old(self).env().wf(),
        ensures
            final(self).env().wf(),
            *final(self) == old(self).with_env(final(self).env()),
            final(self).env()@ == old(self).env()@.failed(exception),
            final(self).env()@.pending is Some,
    {
        let env = self.env_mut();
        let signal = env.fail(exception);
        proof {
            old(self).lemma_with_env(*env);
        }
        signal
    }

    /// Throws the value that `error` designates, and returns the signal to
    /// hand on.
    fn throw(&mut self, error: Local) -> (signal: Throw)
        requires
            old(self).env().wf(),
        ensures
            final(self).env().wf(),
            *final(self) == old(self).with_env(final(self).env()),
            final(self).env()@ == old(self).env()@.thrown(error),
            final(self).env()@.pending is Some,
    {
        let env = self.env_mut();
        let signal = env.throw(error);
        proof {
            old(self).lemma_with_env(*env);
        }
        signal
    }
}

/// The context of work that needs the engine but belongs to no call.
pub struct ExecuteContext {
    env: Env,
    scope: HandleScope,
    depth: usize,
}

impl Context for ExecuteContext {
    closed spec fn env(&self) -> Env {
        self.env
    }

    open spec fn kind(&self) -> ScopeKind {
        ScopeKind::Plain
    }

    closed spec fn storage(&self) -> Seq<u8> {
        self.scope.fields@
    }

    closed spec fn base(&self) -> nat {
        self.depth as nat
    }

    closed spec fn with_env(&self, env: Env) -> Self {
        ExecuteContext { env, scope: self.scope, depth: self.depth }
    }

    proof fn lemma_with_env(&self, env: Env) {
    }

    fn env_ref(&self) -> (env: &Env) {
        &self.env
    }

    fn env_mut(&mut self) -> (env: &mut Env) {
        &mut self.env
    }
}

impl ExecuteContext {
    /// Enters a scope in the engine instance and hands the instance to a new
    /// context.
    pub fn begin(env: Env) -> (cx: ExecuteContext)
        requires
            env.wf(),
        ensures
            cx.begun_in(env@),
    {
        let mut env = env;
        let depth = env.depth();
        let mut scope = HandleScope::new();
        env.open_plain(&mut scope);
        ExecuteContext { env, scope, depth }
    }

    /// Leaves the scope of the context and hands the engine instance back.
    pub fn finish(self) -> (env: Env)
        requires
            self.env().wf(),
        ensures
            env.wf(),
            env@ == self.ended(),
    {
        let ExecuteContext { mut env, mut scope, depth } = self;
        env.close_plain(&mut scope, depth);
        env
    }
}

/// The context of a computation that makes one value and hands it out of its
/// scope.
pub struct ComputeContext {
    env: Env,
    scope: EscapableHandleScope,
    depth: usize,
}

impl Context for ComputeContext {
    closed spec fn env(&self) -> Env {
        self.env
    }

    open spec fn kind(&self) -> ScopeKind {
        ScopeKind::Escapable
    }

    closed spec fn storage(&self) -> Seq<u8> {
        self.scope.fields@
    }

    closed spec fn base(&self) -> nat {
        self.depth as nat
    }

    closed spec fn with_env(&self, env: Env) -> Self {
        ComputeContext { env, scope: self.scope, depth: self.depth }
    }

    proof fn lemma_with_env(&self, env: Env) {
    }

    fn env_ref(&self) -> (env: &Env) {
        &self.env
    }

    fn env_mut(&mut self) -> (env: &mut Env) {
        &mut self.env
    }
}

impl ComputeContext {
    /// What the computation hands out, and the state that it leaves, where it
    /// produced `produced`: a handle that it produced is promoted into the
    /// enclosing scope, and then the scope of the computation is left.
    pub open spec fn computed(&self, produced: Result<Local, Throw>) -> (
        Result<Local, Throw>,
        EnvModel,
    ) {
        let innermost = scope_is_innermost(self.env()@.scopes, self.kind(), self.storage());
        match produced {
            Ok(h) => {
                let (r, promoted) = self.env()@.promoting(self.storage(), h);
                (r, promoted.closed(innermost, self.base()))
            },
            Err(signal) => (Err(signal), self.env()@.closed(innermost, self.base())),
        }
    }

    /// Promotes the handle that the computation produced into the enclosing
    /// scope, leaves the scope of the context, and hands back the engine
    /// instance and the promoted handle.
    pub fn finish(self, produced: Result<Local, Throw>) -> (r: (Env, Result<Local, Throw>))
        requires
            self.env().wf(),
        ensures
            r.0.wf(),
            (r.1, r.0@) == self.computed(produced),
    {
        let ComputeContext { mut env, mut scope, depth } = self;
        let promoted = match produced {
            Ok(h) => env.promote(&scope, h),
            Err(signal) => Err(signal),
        };
        env.close_escapable(&mut scope, depth);
        (env, promoted)
    }
}

/// The context of the completion of a task: it runs on the main thread, in a
/// scope that was entered for it.
pub struct TaskContext {
    env: Env,
    scope: HandleScope,
    depth: usize,
}

impl Context for TaskContext {
    closed spec fn env(&self) -> Env {
        self.env
    }

    open spec fn kind(&self) -> ScopeKind {
        ScopeKind::Plain
    }

    closed spec fn storage(&self) -> Seq<u8> {
        self.scope.fields@
    }

    closed spec fn base(&self) -> nat {
        self.depth as nat
    }

    closed spec fn with_env(&self, env: Env) -> Self {
        TaskContext { env, scope: self.scope, depth: self.depth }
    }

    proof fn lemma_with_env(&self, env: Env) {
    }

    fn env_ref(&self) -> (env: &Env) {
        &self.env
    }

    fn env_mut(&mut self) -> (env: &mut Env) {
        &mut self.env
    }
}

impl TaskContext {
    /// Enters a fresh scope in the engine instance and hands the instance to
    /// a new context.
    pub fn begin(env: Env) -> (cx: TaskContext)
        requires
            env.wf(),
        ensures
            cx.begun_in(env@),
    {
        let mut env = env;
        let depth = env.depth();
        let mut scope = HandleScope::new();
        env.open_plain(&mut scope);
        TaskContext { env, scope, depth }
    }

    /// Leaves the scope of the context and hands the engine instance back.
    pub fn finish(self) -> (env: Env)
        requires
            self.env().wf(),
        ensures
            env.wf(),
            env@ == self.ended(),
    {
        let TaskContext { mut env, mut scope, depth } = self;
        env.close_plain(&mut scope, depth);
        env
    }
}

impl TaskContext {
    /// The state in which the completion handler's product is taken out of
    /// the scope: a handle that it produced and that designates no value is a
    /// misuse, which is left pending.
    pub open spec fn yielding(&self, produced: Result<Local, Throw>) -> EnvModel {
        match produced {
            Ok(h) => if self.env()@.scopes.live(h) {
                self.env()@
            } else {
                self.env()@.failed(Exception::Misuse(ScopeError::DeadHandle))
            },
            Err(_) => self.env()@,
        }
    }

    /// The engine value that the completion handler produced, if it produced
    /// one.
    pub open spec fn yielded(&self, produced: Result<Local, Throw>) -> Option<usize> {
        match produced {
            Ok(h) => if self.env()@.scopes.live(h) {
                Some(self.env()@.scopes.value_of(h))
            } else {
                None
            },
            Err(_) => None,
        }
    }

    /// What delivering the completion handler's product leaves and gives: the
    /// state after the scope of the context is left, with nothing pending,
    /// and how the completion ends.
    pub open spec fn delivering(&self, produced: Result<Local, Throw>) -> (EnvModel, Completion) {
        let left = self.yielding(produced).closed(
            scope_is_innermost(self.env()@.scopes, self.kind(), self.storage()),
            self.base(),
        );
        (
            EnvModel { pending: None, ..left },
            completion_of(left.pending, produced is Err, self.yielded(produced)),
        )
    }

    /// Takes the value that the completion handler produced out of the scope
    /// of the context, leaves that scope, and hands back the engine instance
    /// and how the completion ends. What is pending is taken out of the
    /// engine instance and thrown.
    pub fn deliver(self, produced: Result<Local, Throw>) -> (r: (Env, Completion))
        requires
            self.env().wf(),
        ensures
            r.0.wf(),
            (r.0@, r.1) == self.delivering(produced),
    {
        let TaskContext { mut env, mut scope, depth } = self;
        let value = match produced {
            Err(_) => None,
            Ok(h) => match env.resolve(h) {
                Some(value) => Some(value),
                None => {
                    env.fail(Exception::Misuse(ScopeError::DeadHandle));
                    None
                },
            },
        };
        env.close_plain(&mut scope, depth);
        let completion = match env.take_pending() {
            Some(exception) => Completion::Throw(exception),
            None => match produced {
                Err(_) => Completion::Throw(Exception::Unspecified),
                Ok(_) => Completion::Return(value),
            },
        };
        (env, completion)
    }
}

/// Nested scopes, which every context offers.
pub trait Scoped: Context {
    /// Runs `f` in a nested scope. The handles that `f` makes end when it
    /// returns; what it returns must not be one of them.
    fn execute_scoped<T, F: FnOnce(&mut ExecuteContext) -> T>(&mut self, f: F) -> (r: T)
        requires
            old(self).env().wf(),
            forall|cx: &mut ExecuteContext|
                mut_ref_current(cx).begun_in(old(self).env()@) ==> call_requires(f, (cx,)),
            forall|cx: &mut ExecuteContext, t: T|
                mut_ref_current(cx).env().wf() && #[trigger] call_ensures(f, (cx,), t)
                    ==> mut_ref_future(cx).env().wf(),
        ensures
            final(self).env().wf(),
            *final(self) == old(self).with_env(final(self).env()),
            exists|cx: &mut ExecuteContext|
                {
                    &&& mut_ref_current(cx).begun_in(old(self).env()@)
                    &&& #[trigger] call_ensures(f, (cx,), r)
                    &&& final(self).env()@ == mut_ref_future(cx).ended()
                },
    {
        let env = self.env_mut();
        let depth = env.depth();
        let mut scope = HandleScope::new();
        env.open_plain(&mut scope);
        let mut inner = Env::new(env.isolate());
        core::mem::swap(env, &mut inner);
        let mut child = ExecuteContext { env: inner, scope, depth };
        assert(child.begun_in(old(self).env()@));
        let r = f(&mut child);
        *env = child.finish();
        proof {
            old(self).lemma_with_env(*env);
        }
        r
    }

    /// Runs `f` in a nested escapable scope and promotes the handle that it
    /// returns into the scope of this context. The handle that is returned
    /// designates the same engine value as the one that `f` returned; every
    /// other handle that `f` made ends when it returns.
    ///
    /// Where the escapable scope cannot be entered, `f` does not run: the
    /// refusal is left pending and `Err` is returned.
    fn compute_scoped<F: FnOnce(&mut ComputeContext) -> Result<Local, Throw>>(
        &mut self,
        f: F,
    ) -> (r: Result<Local, Throw>)
        requires
            old(self).env().wf(),
            forall|cx: &mut ComputeContext|
                mut_ref_current(cx).begun_in(old(self).env()@) ==> call_requires(f, (cx,)),
            forall|cx: &mut ComputeContext, t: Result<Local, Throw>|
                mut_ref_current(cx).env().wf() && #[trigger] call_ensures(f, (cx,), t)
                    ==> mut_ref_future(cx).env().wf(),
        ensures
            final(self).env().wf(),
            *final(self) == old(self).with_env(final(self).env()),
            match old(self).env()@.refusal_to_nest() {
                Some(refusal) => {
                    &&& r is Err
                    &&& final(self).env()@ == old(self).env()@.failed(Exception::Misuse(refusal))
                },
                None => exists|cx: &mut ComputeContext, produced: Result<Local, Throw>|
                    {
                        &&& mut_ref_current(cx).begun_in(old(self).env()@)
                        &&& #[trigger] call_ensures(f, (cx,), produced)
                        &&& (r, final(self).env()@) == mut_ref_future(cx).computed(produced)
                    },
            },
    {
        let env = self.env_mut();
        let depth = env.depth();
        let mut scope = EscapableHandleScope::new();
        match env.open_escapable(&mut scope) {
            Err(signal) => {
                proof {
                    old(self).lemma_with_env(*env);
                }
                Err(signal)
            },
            Ok(()) => {
                let mut inner = Env::new(env.isolate());
                core::mem::swap(env, &mut inner);
                let mut child = ComputeContext { env: inner, scope, depth };
                assert(child.begun_in(old(self).env()@));
                let produced = f(&mut child);
                let (inner, r) = child.finish(produced);
                *env = inner;
                proof {
                    old(self).lemma_with_env(*env);
                }
                r
            },
        }
    }
}

impl Scoped for ExecuteContext {

}

impl Scoped for ComputeContext {

}

impl Scoped for TaskContext {

}

} // verus!
