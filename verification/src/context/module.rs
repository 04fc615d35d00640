//! The context of the initialisation of a module.

use vstd::prelude::*;
use crate::context::scope_is_innermost;
use crate::context::Context;
use crate::context::Scoped;
use crate::env::Env;
use crate::env::EnvModel;
use crate::raw::HandleScope;
use crate::raw::Local;
use crate::result::completion_of;
use crate::result::Completion;
use crate::result::Exception;
use crate::result::Throw;
use crate::root_set::ScopeKind;
use crate::scope::ScopeError;

verus! {

/// One export of a module, as the contracts see it.
pub struct ExportModel {
    pub name: Seq<u8>,
    pub value: usize,
}

/// One export of a module: a name and the engine value under it.
pub struct Export {
    name: Vec<u8>,
    value: usize,
}

impl View for Export {
    type V = ExportModel;

    closed spec fn view(&self) -> ExportModel {
        ExportModel { name: self.name@, value: self.value }
    }
}

impl Export {
    /// The name of the export.
    pub fn name(&self) -> (name: &Vec<u8>)
        ensures
            name@ == self@.name,
    {
        &self.name
    }

    /// The engine value that is exported.
    pub fn value(&self) -> (value: usize)
        ensures
            value == self@.value,
    {
        self.value
    }
}

/// The exports, as the contracts see them.
pub open spec fn models(exports: Seq<Export>) -> Seq<ExportModel> {
    Seq::new(exports.len(), |i: int| exports[i]@)
}

/// The context of the initialisation of a module: besides what every context
/// offers, it populates the module's exports.
pub struct ModuleContext {
    env: Env,
    scope: HandleScope,
    depth: usize,
    exports: Local,
    exported: Vec<Export>,
}

impl Context for ModuleContext {
    closed spec fn env(&self) -> Env {
        self.env
    }

    open spec fn kind(&self) -> ScopeKind {
        ScopeKind::Plain
    }

    closed spec fn storage(&self) -> Seq<u8> {
        self.scope.fields@
    }

    closed spec fn base(&self) -> nat {
        self.depth as nat
    }

    closed spec fn with_env(&self, env: Env) -> Self {
        ModuleContext {
            env,
            scope: self.scope,
            depth: self.depth,
            exports: self.exports,
            exported: self.exported,
        }
    }

    proof fn lemma_with_env(&self, env: Env) {
    }

    fn env_ref(&self) -> (env: &Env) {
        &self.env
    }

    fn env_mut(&mut self) -> (env: &mut Env) {
        &mut self.env
    }
}

impl ModuleContext {
    /// The handle of the exports object; the null handle where none could be
    /// made.
    pub closed spec fn exports_handle(&self) -> Local {
        self.exports
    }

    /// What has been exported, in the order in which it was.
    pub closed spec fn exported(&self) -> Seq<ExportModel> {
        models(self.exported@)
    }

    /// `with_env` keeps the exports: what every context offers leaves them
    /// as they are.
    pub proof fn lemma_with_env_exports(&self, env: Env)
        ensures
            self.with_env(env).exports_handle() == self.exports_handle(),
            self.with_env(env).exported() == self.exported(),
    {
    }

    /// Enters a scope in the engine instance, makes a handle in it for the
    /// exports object, and hands the instance to a new context.
    pub fn begin(env: Env, exports: usize) -> (cx: ModuleContext)
        requires
            env.wf(),
        ensures
            cx.env().wf(),
            cx.base() == env@.scopes.depth(),
            cx.exported() == Seq::<ExportModel>::empty(),
            cx.env()@ == env@.opened(ScopeKind::Plain).rooting(Some(exports)).1,
            cx.exports_handle() == match env@.opened(ScopeKind::Plain).rooting(Some(exports)).0 {
                Ok(h) => h,
                Err(_) => Local { handle: 0 },
            },
            scope_is_innermost(cx.env()@.scopes, ScopeKind::Plain, cx.storage()),
    {
        let mut env = env;
        let depth = env.depth();
        let mut scope = HandleScope::new();
        env.open_plain(&mut scope);
        let exports = match env.root(Some(exports)) {
            Ok(h) => h,
            Err(_) => Local::null(),
        };
        let cx = ModuleContext { env, scope, depth, exports, exported: Vec::new() };
        assert(cx.exported() =~= Seq::<ExportModel>::empty());
        cx
    }

    /// The handle of the exports object.
    pub fn exports(&self) -> (exports: Local)
        ensures
            exports == self.exports_handle(),
    {
        self.exports
    }

    /// Exports the value that `value` designates under `name`.
    ///
    /// While an exception is pending nothing is exported. Where `value`
    /// designates no value, that misuse is left pending. Each of these gives
    /// `Err`.
    pub fn export(&mut self, name: Vec<u8>, value: Local) -> (r: Result<(), Throw>)
        requires
            old(self).env().wf(),
        ensures
            final(self).env().wf(),
            final(self).storage() == old(self).storage(),
            final(self).base() == old(self).base(),
            final(self).exports_handle() == old(self).exports_handle(),
            r is Ok <==> old(self).env()@.pending is None && old(self).env()@.scopes.live(value),
            r is Ok ==> final(self).env() == old(self).env()
                && final(self).exported() == old(self).exported().push(
                ExportModel { name: name@, value: old(self).env()@.scopes.value_of(value) },
            ),
            r is Err ==> final(self).exported() == old(self).exported() && final(self).env()@
                == old(self).env()@.failed(Exception::Misuse(ScopeError::DeadHandle)),
    {
        if self.env.is_throwing() {
            return Err(Throw);
        }
        match self.env.resolve(value) {
            None => Err(self.env.fail(Exception::Misuse(ScopeError::DeadHandle))),
            Some(v) => {
                let ghost before = self.exported();
                let ghost entry = ExportModel { name: name@, value: v };
                self.exported.push(Export { name, value: v });
                assert(self.exported() =~= before.push(entry));
                Ok(())
            },
        }
    }

    /// Leaves the scope of the context and hands back the engine instance
    /// and, where the initialisation has succeeded, what was exported. What
    /// is pending is taken out of the engine instance and handed back as the
    /// failure; a failure that was signalled with nothing pending is handed
    /// back as unspecified.
    pub fn finish(self, result: Result<(), Throw>) -> (r: (Env, Result<Vec<Export>, Exception>))
        requires
            self.env().wf(),
        ensures
            r.0.wf(),
            r.0@ == (EnvModel { pending: None, ..self.ended() }),
            r.1 is Ok <==> self.ended().pending is None && result is Ok,
            r.1 matches Ok(exported) ==> models(exported@) == self.exported(),
            r.1 matches Err(exception) ==> Completion::Throw(exception) == completion_of(
                self.ended().pending,
                result is Err,
                None,
            ),
    {
        let ModuleContext { mut env, mut scope, depth, exports, exported } = self;
        env.close_plain(&mut scope, depth);
        let outcome = match env.take_pending() {
            Some(exception) => Err(exception),
            None => match result {
                Ok(()) => Ok(exported),
                Err(_) => Err(Exception::Unspecified),
            },
        };
        (env, outcome)
    }
}

impl Scoped for ModuleContext {

}

} // verus!
