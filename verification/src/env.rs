//! The native side of one engine instance: its scopes, the exception that is
//! pending in it, and its class map.

use vstd::prelude::*;
use crate::class::registered;
use crate::class::ClassMap;
use crate::class::ClassMetadata;
use crate::class::ClassModel;
use crate::raw::EscapableHandleScope;
use crate::raw::HandleScope;
use crate::raw::InheritedHandleScope;
use crate::raw::Isolate;
use crate::raw::Local;
use crate::result::Exception;
use crate::result::Throw;
use crate::root_set::RootSet;
use crate::root_set::ScopeKind;
use crate::scope::escape_refusal;
use crate::scope::is_innermost;
use crate::scope::rooting;
use crate::scope::ScopeError;
use crate::scope::ScopeStack;
use crate::stamp::word_at;

verus! {

/// The state of an engine instance's native side.
pub struct EnvModel {
    pub scopes: RootSet,
    /// What is pending, if anything is.
    pub pending: Option<Exception>,
    /// The class map; `None` until the first class is registered.
    pub classes: Option<Map<u64, ClassModel>>,
}

impl EnvModel {
    /// The state in which `exception` is pending, unless something was
    /// pending before: the first exception stays.
    pub open spec fn failed(self, exception: Exception) -> EnvModel {
        if self.pending is Some {
            self
        } else {
            EnvModel { pending: Some(exception), ..self }
        }
    }

    /// The state with other scopes.
    pub open spec fn with_scopes(self, scopes: RootSet) -> EnvModel {
        EnvModel { scopes, ..self }
    }

    /// What making a handle for the engine's value gives, and the state that
    /// it leaves. While an exception is pending no handle is made and nothing
    /// changes. Else a failure of the engine to make the value, and a refusal
    /// of the scope stack, is left pending.
    pub open spec fn rooting(self, made: Option<usize>) -> (Result<Local, Throw>, EnvModel) {
        if self.pending is Some {
            (Err(Throw), self)
        } else {
            match made {
                None => (Err(Throw), self.failed(Exception::AllocationFailure)),
                Some(value) => match rooting(self.scopes) {
                    Ok(h) => (Ok(h), self.with_scopes(self.scopes.rooted(value))),
                    Err(e) => (Err(Throw), self.failed(Exception::Misuse(e))),
                },
            }
        }
    }

    /// The state after the value that `error` designates is thrown. Where
    /// `error` designates no value, that misuse is what is left pending.
    pub open spec fn thrown(self, error: Local) -> EnvModel {
        if self.scopes.live(error) {
            self.failed(Exception::Thrown(self.scopes.value_of(error)))
        } else {
            self.failed(Exception::Misuse(ScopeError::DeadHandle))
        }
    }

    /// Why an escapable scope cannot be entered, where it cannot: no scope is
    /// entered that it could promote into, or every handle number has been
    /// given out.
    pub open spec fn refusal_to_nest(self) -> Option<ScopeError> {
        if self.scopes.depth() == 0 {
            Some(ScopeError::NoActiveScope)
        } else if self.scopes.next == usize::MAX {
            Some(ScopeError::HandlesExhausted)
        } else {
            None
        }
    }

    /// The state after a scope has been entered.
    pub open spec fn opened(self, kind: ScopeKind) -> EnvModel {
        if kind == ScopeKind::Escapable {
            self.with_scopes(self.scopes.entered_escapable())
        } else {
            self.with_scopes(self.scopes.entered(kind))
        }
    }

    /// The state after the scope that was entered at depth `depth` has been
    /// left. Where the scope is the innermost one, it exits. Where it is not,
    /// the scope discipline was broken inside it: every scope from that depth
    /// on exits, and the misuse is left pending.
    pub open spec fn closed(self, innermost: bool, depth: nat) -> EnvModel {
        if innermost {
            self.with_scopes(self.scopes.exited())
        } else {
            self.with_scopes(self.scopes.unwound_to(depth)).failed(
                Exception::Misuse(ScopeError::NotInnermost),
            )
        }
    }

    /// What promoting `h` out of the escapable scope with this storage gives,
    /// and the state that it leaves. A refusal of the scope stack is left
    /// pending.
    pub open spec fn promoting(self, storage: Seq<u8>, h: Local) -> (
        Result<Local, Throw>,
        EnvModel,
    ) {
        if is_innermost(self.scopes, ScopeKind::Escapable, storage) && self.scopes.may_promote(h) {
            (Ok(self.scopes.escape_handle()), self.with_scopes(self.scopes.promoted(h)))
        } else {
            (
                Err(Throw),
                self.failed(Exception::Misuse(escape_refusal(self.scopes, storage, h))),
            )
        }
    }

    /// The class map, an empty one where none has been created.
    pub open spec fn class_map(self) -> Map<u64, ClassModel> {
        match self.classes {
            Some(classes) => classes,
            None => Map::empty(),
        }
    }
}

/// Of the exceptions that are raised while one is pending, the first is the
/// one that stays pending.
pub proof fn law_first_exception_stays(state: EnvModel, first: Exception, second: Exception)
    ensures
        state.failed(first).failed(second) == state.failed(first),
        state.failed(first).pending is Some,
        state.pending is None ==> state.failed(first).pending == Some(first),
        state.failed(first).rooting(None).0 is Err,
        forall|value: usize| (#[trigger] state.failed(first).rooting(Some(value))).0 is Err,
{
}

/// The native side of one engine instance.
pub struct Env {
    scopes: ScopeStack,
    pending: Option<Exception>,
    classes: Option<ClassMap>,
}

impl View for Env {
    type V = EnvModel;

    closed spec fn view(&self) -> EnvModel {
        EnvModel {
            scopes: self.scopes@,
            pending: self.pending,
            classes: match self.classes {
                Some(classes) => Some(classes@),
                None => None,
            },
        }
    }
}

impl Env {
    /// The invariant of an engine instance's native side: its scope stack and
    /// its class map are well formed.
    pub closed spec fn wf(&self) -> bool {
        &&& self.scopes.wf()
        &&& self.classes matches Some(classes) ==> classes.wf()
    }

    /// What the invariant says of the state.
    pub proof fn lemma_wf(&self)
        requires
            self.wf(),
        ensures
            self@.scopes.wf(),
            forall|id: u64| #[trigger]
                self@.class_map().contains_key(id) ==> self@.class_map()[id].wf(),
    {
    }

    /// The native side of an engine instance: no scope entered, nothing
    /// pending, no class map.
    pub fn new(isolate: Isolate) -> (env: Env)
        ensures
            env.wf(),
            env@ == (EnvModel { scopes: RootSet::empty(isolate), pending: None, classes: None }),
    {
        Env { scopes: ScopeStack::new(isolate), pending: None, classes: None }
    }

    /// The native side of the engine instance that these scopes belong to:
    /// nothing pending, no class map.
    pub fn from_scopes(scopes: ScopeStack) -> (env: Env)
        requires
            scopes.wf(),
        ensures
            env.wf(),
            env@ == (EnvModel { scopes: scopes@, pending: None, classes: None }),
    {
        Env { scopes, pending: None, classes: None }
    }

    /// The engine instance.
    pub fn isolate(&self) -> (isolate: Isolate)
        ensures
            isolate == self@.scopes.isolate,
    {
        self.scopes.isolate()
    }

    /// The scopes of the engine instance.
    pub fn scopes(&self) -> (scopes: &ScopeStack)
        ensures
            scopes@ == self@.scopes,
            self.wf() ==> scopes.wf(),
    {
        &self.scopes
    }

    /// How many scopes are entered.
    pub fn depth(&self) -> (depth: usize)
        ensures
            depth == self@.scopes.depth(),
    {
        self.scopes.depth()
    }

    /// What is pending, if anything is.
    pub fn pending(&self) -> (pending: Option<Exception>)
        ensures
            pending == self@.pending,
    {
        self.pending
    }

    /// Whether an exception is pending.
    pub fn is_throwing(&self) -> (throwing: bool)
        ensures
            throwing == self@.pending is Some,
    {
        self.pending.is_some()
    }

    /// Takes what is pending out of the engine instance, as a native entry
    /// point does before it hands control back.
    pub fn take_pending(&mut self) -> (pending: Option<Exception>)
        requires
            old(self).wf(),
        ensures
            final(self).wf(),
            pending == old(self)@.pending,
            final(self)@ == (EnvModel { pending: None, ..old(self)@ }),
    {
        let pending = self.pending;
        self.pending = None;
        pending
    }

    /// Leaves `exception` pending, unless something is pending already, and
    /// returns the signal to hand on.
    pub fn fail(&mut self, exception: Exception) -> (signal: Throw)
        requires
            old(self).wf(),
        ensures
            final(self).wf(),
            final(self)@ == old(self)@.failed(exception),
            final(self)@.pending is Some,
    {
        if self.pending.is_none() {
            self.pending = Some(exception);
        }
        Throw
    }

    /// Throws the value that `error` designates, and returns the signal to
    /// hand on. Where `error` designates no value, what is left pending is
    /// that misuse.
    pub fn throw(&mut self, error: Local) -> (signal: Throw)
        requires
            old(self).wf(),
        ensures
            final(self).wf(),
            final(self)@ == old(self)@.thrown(error),
            final(self)@.pending is Some,
    {
        match self.scopes.resolve(error) {
            Some(value) => self.fail(Exception::Thrown(value)),
            None => self.fail(Exception::Misuse(ScopeError::DeadHandle)),
        }
    }

    /// The engine value that `h` designates, if it designates one.
    pub fn resolve(&self, h: Local) -> (value: Option<usize>)
        requires
            self.wf(),
        ensures
            value is Some <==> self@.scopes.live(h),
            value matches Some(v) ==> v == self@.scopes.value_of(h),
    {
        self.scopes.resolve(h)
    }

    /// Makes a handle, in the innermost scope, for the value that the engine
    /// made; `made` is `None` where the engine could not make one.
    ///
    /// While an exception is pending no handle is made and nothing changes.
    /// Else a failure of the engine, and a refusal of the scope stack, is left
    /// pending. Each of these gives `Err`.
    pub fn root(&mut self, made: Option<usize>) -> (r: Result<Local, Throw>)
        requires
            old(self).wf(),
        ensures
            final(self).wf(),
            (r, final(self)@) == old(self)@.rooting(made),
            old(self)@.scopes.step(final(self)@.scopes),
            r matches Ok(h) ==> {
                &&& !old(self)@.scopes.holds(h)
                &&& final(self)@.scopes.live(h)
                &&& final(self)@.scopes.value_of(h) == made->0
                &&& final(self)@.scopes.owner_of(h) == old(self)@.scopes.depth() - 1
                &&& final(self)@.scopes.same_handles_but(old(self)@.scopes, h)
            },
            r is Err ==> final(self)@.pending is Some,
    {
        proof {
            self@.scopes.lemma_steps();
        }
        if self.pending.is_some() {
            return Err(Throw);
        }
        match made {
            None => Err(self.fail(Exception::AllocationFailure)),
            Some(value) => match self.scopes.root(value) {
                Ok(h) => Ok(h),
                Err(e) => Err(self.fail(Exception::Misuse(e))),
            },
        }
    }

    /// Whether the class map has been created.
    pub fn has_class_map(&self) -> (created: bool)
        ensures
            created == self@.classes is Some,
    {
        self.classes.is_some()
    }

    /// The metadata of a class, if the class is registered.
    pub fn class(&self, id: u64) -> (metadata: Option<&ClassMetadata>)
        requires
            self.wf(),
        ensures
            metadata is Some <==> self@.class_map().contains_key(id),
            metadata matches Some(m) ==> m@ == self@.class_map()[id] && m.wf(),
    {
        match &self.classes {
            None => None,
            Some(classes) => classes.get(id),
        }
    }

    /// Registers a class, creating the class map where there is none yet.
    /// Where the class is registered already, its metadata stays what it is
    /// and `false` is returned. Else the metadata is installed and `true` is
    /// returned.
    pub fn register_class(&mut self, id: u64, metadata: ClassMetadata) -> (installed: bool)
        requires
            old(self).wf(),
            metadata.wf(),
        ensures
            final(self).wf(),
            installed == !old(self)@.class_map().contains_key(id),
            final(self)@ == (EnvModel {
                classes: Some(registered(old(self)@.class_map(), id, metadata@)),
                ..old(self)@
            }),
    {
        let mut classes = match self.classes.take() {
            Some(classes) => classes,
            None => ClassMap::new(),
        };
        let installed = classes.register(id, metadata);
        self.classes = Some(classes);
        installed
    }

    /// Enters a plain scope on fresh storage.
    pub(crate) fn open_plain(&mut self, storage: &mut HandleScope)
        requires
            old(self).wf(),
            word_at(old(storage).fields@, 1) == 0,
        ensures
            final(self).wf(),
            final(self)@ == old(self)@.opened(ScopeKind::Plain),
            is_innermost(final(self)@.scopes, ScopeKind::Plain, final(storage).fields@),
    {
        let _ = self.scopes.enter(storage);
    }

    /// Leaves the plain scope that was entered at depth `depth`.
    pub(crate) fn close_plain(&mut self, storage: &mut HandleScope, depth: usize)
        requires
            old(self).wf(),
        ensures
            final(self).wf(),
            final(self)@ == old(self)@.closed(
                is_innermost(old(self)@.scopes, ScopeKind::Plain, old(storage).fields@),
                depth as nat,
            ),
    {
        if self.scopes.exit(storage).is_err() {
            self.scopes.unwind_to(depth);
            self.fail(Exception::Misuse(ScopeError::NotInnermost));
        }
    }

    /// Enters an escapable scope on fresh storage. Where the scope stack
    /// refuses, the refusal is left pending.
    pub(crate) fn open_escapable(&mut self, storage: &mut EscapableHandleScope) -> (r: Result<
        (),
        Throw,
    >)
        requires
            old(self).wf(),
            word_at(old(storage).fields@, 1) == 0,
        ensures
            final(self).wf(),
            r is Ok <==> old(self)@.refusal_to_nest() is None,
            r is Ok ==> final(self)@ == old(self)@.opened(ScopeKind::Escapable) && is_innermost(
                final(self)@.scopes,
                ScopeKind::Escapable,
                final(storage).fields@,
            ),
            r is Err ==> final(self)@ == old(self)@.failed(
                Exception::Misuse(old(self)@.refusal_to_nest()->0),
            ),
    {
        match self.scopes.enter_escapable(storage) {
            Ok(()) => Ok(()),
            Err(e) => Err(self.fail(Exception::Misuse(e))),
        }
    }

    /// Leaves the escapable scope that was entered at depth `depth`.
    pub(crate) fn close_escapable(&mut self, storage: &mut EscapableHandleScope, depth: usize)
        requires
            old(self).wf(),
        ensures
            final(self).wf(),
            final(self)@ == old(self)@.closed(
                is_innermost(old(self)@.scopes, ScopeKind::Escapable, old(storage).fields@),
                depth as nat,
            ),
    {
        if self.scopes.exit_escapable(storage).is_err() {
            self.scopes.unwind_to(depth);
            self.fail(Exception::Misuse(ScopeError::NotInnermost));
        }
    }

    /// Takes note of the scope that the engine entered before it called into
    /// native code.
    pub(crate) fn open_inherited(&mut self, scope: InheritedHandleScope)
        requires
            old(self).wf(),
        ensures
            final(self).wf(),
            final(self)@ == old(self)@.opened(ScopeKind::Inherited),
    {
        self.scopes.enter_inherited(scope);
    }

    /// Leaves the inherited scope that was entered at depth `depth`.
    pub(crate) fn close_inherited(&mut self, scope: InheritedHandleScope, depth: usize)
        requires
            old(self).wf(),
        ensures
            final(self).wf(),
            final(self)@ == old(self)@.closed(
                old(self)@.scopes.depth() > 0 && old(self)@.scopes.top().kind
                    == ScopeKind::Inherited,
                depth as nat,
            ),
    {
        if self.scopes.exit_inherited(scope).is_err() {
            self.scopes.unwind_to(depth);
            self.fail(Exception::Misuse(ScopeError::NotInnermost));
        }
    }

    /// Promotes a handle out of the innermost scope, an escapable one. A
    /// refusal of the scope stack is left pending.
    pub(crate) fn promote(&mut self, storage: &EscapableHandleScope, h: Local) -> (r: Result<
        Local,
        Throw,
    >)
        requires
            old(self).wf(),
        ensures
            final(self).wf(),
            (r, final(self)@) == old(self)@.promoting(storage.fields@, h),
    {
        match self.scopes.escape(storage, h) {
            Ok(p) => Ok(p),
            Err(e) => Err(self.fail(Exception::Misuse(e))),
        }
    }

    /// Makes a handle in the innermost scope for each of the values, whether
    /// or not an exception is pending.
    pub(crate) fn root_all(&mut self, values: &Vec<usize>) -> (r: Result<Vec<Local>, ScopeError>)
        requires
            old(self).wf(),
        ensures
            final(self).wf(),
            r is Ok <==> old(self)@.scopes.depth() > 0 && old(self)@.scopes.next + values@.len()
                <= usize::MAX,
            r is Err ==> final(self)@ == old(self)@,
            r matches Ok(handles) ==> {
                &&& final(self)@ == old(self)@.with_scopes(old(self)@.scopes.rooted_all(values@))
                &&& handles@.len() == values@.len()
                &&& forall|k: int|
                    0 <= k < handles@.len() ==> (#[trigger] handles@[k]).handle
                        == old(self)@.scopes.next + k
            },
    {
        self.scopes.root_all(values)
    }
}

} // verus!
