//! The scope stack: the root set of one engine instance.
//!
//! Scopes nest strictly. A handle is made in the innermost scope and
//! designates its value until that scope exits. The storage of a scope is
//! stamped when the scope is entered, so that an exit out of turn is told from
//! the exit of the innermost scope and refused.

use vstd::prelude::*;
use crate::raw::EscapableHandleScope;
use crate::raw::HandleScope;
use crate::raw::InheritedHandleScope;
use crate::raw::Isolate;
use crate::raw::Local;
use crate::root_set::Frame;
use crate::root_set::RootSet;
use crate::root_set::ScopeKind;
use crate::root_set::Slot;
use crate::stamp::lemma_with_word;
use crate::stamp::load_word;
use crate::stamp::store_word;
use crate::stamp::with_word;
use crate::stamp::word_at;

verus! {

/// Why an operation on a scope stack was refused.
#[derive(Clone, Copy, PartialEq, Eq, Structural, Debug)]
pub enum ScopeError {
    /// No scope is entered.
    NoActiveScope,
    /// Every handle number has been given out.
    HandlesExhausted,
    /// The storage is that of a scope that is entered already.
    AlreadyEntered,
    /// The storage is not that of the innermost scope, or that scope is of
    /// another kind.
    NotInnermost,
    /// The escapable scope has promoted a handle already.
    AlreadyEscaped,
    /// The handle designates no value.
    DeadHandle,
}

/// Whether the storage carries the stamp of the innermost scope of `state`.
pub open spec fn is_innermost(state: RootSet, kind: ScopeKind, bytes: Seq<u8>) -> bool {
    &&& state.depth() > 0
    &&& state.top().kind == kind
    &&& word_at(bytes, 0) == state.isolate.address as u64
    &&& word_at(bytes, 1) == state.depth() as u64
    &&& word_at(bytes, 2) == state.top().base as u64
}

/// Whether the scope with this storage may promote `h`: it is the innermost
/// scope, an escapable one that has promoted no handle yet, and `h` designates
/// a value.
pub open spec fn can_escape(state: RootSet, bytes: Seq<u8>, h: Local) -> bool {
    is_innermost(state, ScopeKind::Escapable, bytes) && state.may_promote(h)
}

/// What making a handle gives: the handle with the next number, unless no
/// scope is entered or every number has been given out.
pub open spec fn rooting(state: RootSet) -> Result<Local, ScopeError> {
    if state.depth() == 0 {
        Err(ScopeError::NoActiveScope)
    } else if state.next == usize::MAX {
        Err(ScopeError::HandlesExhausted)
    } else {
        Ok(Local { handle: state.next })
    }
}

/// What entering an escapable scope on this storage gives.
pub open spec fn entering_escapable(state: RootSet, bytes: Seq<u8>) -> Result<(), ScopeError> {
    if word_at(bytes, 1) != 0 {
        Err(ScopeError::AlreadyEntered)
    } else if state.depth() == 0 {
        Err(ScopeError::NoActiveScope)
    } else if state.next == usize::MAX {
        Err(ScopeError::HandlesExhausted)
    } else {
        Ok(())
    }
}

/// Why a promotion of `h` out of the scope with this storage is refused, where
/// it is.
pub open spec fn escape_refusal(state: RootSet, bytes: Seq<u8>, h: Local) -> ScopeError {
    if !is_innermost(state, ScopeKind::Escapable, bytes) {
        ScopeError::NotInnermost
    } else if state.has_escaped() {
        ScopeError::AlreadyEscaped
    } else {
        ScopeError::DeadHandle
    }
}

/// The storage after the innermost scope of `state` has been stamped on it.
pub open spec fn stamped(state: RootSet, bytes: Seq<u8>) -> Seq<u8> {
    with_word(
        with_word(with_word(bytes, 0, state.isolate.address as u64), 1, state.depth() as u64),
        2,
        state.top().base as u64,
    )
}

/// Storage that has been stamped with the innermost scope carries its stamp,
/// and keeps its other words.
pub proof fn lemma_stamped(state: RootSet, kind: ScopeKind, bytes: Seq<u8>)
    requires
        state.depth() > 0,
        state.depth() <= usize::MAX,
        state.top().kind == kind,
        bytes.len() >= 24,
    ensures
        is_innermost(state, kind, stamped(state, bytes)),
        word_at(stamped(state, bytes), 1) != 0,
        stamped(state, bytes).len() == bytes.len(),
        bytes.len() >= 32 ==> word_at(stamped(state, bytes), 3) == word_at(bytes, 3),
{
    let a = with_word(bytes, 0, state.isolate.address as u64);
    let b = with_word(a, 1, state.depth() as u64);
    lemma_with_word(bytes, 0, state.isolate.address as u64, 0);
    lemma_with_word(a, 1, state.depth() as u64, 0);
    lemma_with_word(a, 1, state.depth() as u64, 1);
    lemma_with_word(b, 2, state.top().base as u64, 0);
    lemma_with_word(b, 2, state.top().base as u64, 1);
    lemma_with_word(b, 2, state.top().base as u64, 2);
    if bytes.len() >= 32 {
        lemma_with_word(bytes, 0, state.isolate.address as u64, 3);
        lemma_with_word(a, 1, state.depth() as u64, 3);
        lemma_with_word(b, 2, state.top().base as u64, 3);
    }
}

/// The root set of one engine instance: the entered scopes, innermost last,
/// and the handles that they hold.
pub struct ScopeStack {
    isolate: Isolate,
    slots: Vec<Slot>,
    frames: Vec<Frame>,
    next: usize,
}

impl View for ScopeStack {
    type V = RootSet;

    closed spec fn view(&self) -> RootSet {
        RootSet { isolate: self.isolate, slots: self.slots@, frames: self.frames@, next: self.next }
    }
}

impl ScopeStack {
    /// The invariant of a scope stack.
    pub open spec fn wf(&self) -> bool {
        self@.wf()
    }

    /// A scope stack for an engine instance, with no scope entered.
    pub fn new(isolate: Isolate) -> (stack: ScopeStack)
        ensures
            stack.wf(),
            stack@ == RootSet::empty(isolate),
    {
        ScopeStack { isolate, slots: Vec::new(), frames: Vec::new(), next: 1 }
    }

    /// A scope stack for an engine instance, with no scope entered, whose
    /// handles are numbered from `first` on; from 1 on where `first` is 0,
    /// the number of the null handle.
    pub fn numbering_from(isolate: Isolate, first: usize) -> (stack: ScopeStack)
        ensures
            stack.wf(),
            stack@ == (RootSet {
                next: if first == 0 {
                    1
                } else {
                    first
                },
                ..RootSet::empty(isolate)
            }),
    {
        let next = if first == 0 {
            1
        } else {
            first
        };
        ScopeStack { isolate, slots: Vec::new(), frames: Vec::new(), next }
    }

    /// The engine instance that the scopes belong to.
    pub fn isolate(&self) -> (isolate: Isolate)
        ensures
            isolate == self@.isolate,
    {
        self.isolate
    }

    /// How many scopes are entered.
    pub fn depth(&self) -> (depth: usize)
        ensures
            depth == self@.depth(),
    {
        self.frames.len()
    }

    /// How many more handles can be made.
    pub fn remaining(&self) -> (count: usize)
        ensures
            count == usize::MAX - self@.next,
    {
        usize::MAX - self.next
    }

    /// The kind of the innermost scope, if a scope is entered.
    pub fn innermost_kind(&self) -> (kind: Option<ScopeKind>)
        ensures
            self@.depth() == 0 ==> kind is None,
            self@.depth() > 0 ==> kind == Some(self@.top().kind),
    {
        let depth = self.frames.len();
        if depth == 0 {
            None
        } else {
            Some(self.frames[depth - 1].kind)
        }
    }

    /// Where the root that carries `h` stands, if there is one.
    fn find(&self, h: Local) -> (at: Option<usize>)
        requires
            self.wf(),
        ensures
            at is Some <==> self@.holds(h),
            at matches Some(i) ==> i == self@.position(h) && i < self@.slots.len()
                && self@.slots[i as int].handle == h,
    {
        let mut low: usize = 0;
        let mut high: usize = self.slots.len();
        while low < high
            invariant
                self.wf(),
                low <= high <= self.slots.len(),
                forall|i: int|
                    0 <= i < low ==> (#[trigger] self.slots@[i]).handle.handle < h.handle,
                forall|i: int|
                    high <= i < self.slots.len() ==> h.handle < (
                    #[trigger] self.slots@[i]).handle.handle,
            decreases high - low,
        {
            let middle = low + (high - low) / 2;
            let number = self.slots[middle].handle.handle;
            if number == h.handle {
                proof {
                    self@.lemma_position(h, middle as int);
                }
                return Some(middle);
            } else if number < h.handle {
                low = middle + 1;
            } else {
                high = middle;
            }
        }
        proof {
            if self@.holds(h) {
                let p = self@.position(h);
                assert(self.slots@[p].handle == h);
            }
        }
        None
    }

    /// The engine value that `h` designates, or `None` where it designates
    /// none: where no handle of that number was made, where the scope that it
    /// was made in has exited, and where it is kept for a promotion that has
    /// not taken place.
    pub fn resolve(&self, h: Local) -> (value: Option<usize>)
        requires
            self.wf(),
        ensures
            value is Some <==> self@.live(h),
            value matches Some(v) ==> v == self@.value_of(h),
    {
        match self.find(h) {
            Some(i) => self.slots[i].value,
            None => None,
        }
    }

    /// Whether `h` designates a value.
    pub fn is_live(&self, h: Local) -> (live: bool)
        requires
            self.wf(),
        ensures
            live == self@.live(h),
    {
        self.resolve(h).is_some()
    }

    /// Whether two handles designate the same engine value.
    pub fn same_handle(&self, h1: Local, h2: Local) -> (same: bool)
        requires
            self.wf(),
        ensures
            same <==> self@.live(h1) && self@.live(h2) && self@.value_of(h1) == self@.value_of(h2),
    {
        match (self.resolve(h1), self.resolve(h2)) {
            (Some(v1), Some(v2)) => v1 == v2,
            _ => false,
        }
    }

    /// Which scope owns `h`, counted from the outermost, which is 0; `None`
    /// where no root carries `h`.
    pub fn owner(&self, h: Local) -> (owner: Option<usize>)
        requires
            self.wf(),
        ensures
            owner is Some <==> self@.holds(h),
            owner matches Some(k) ==> k == self@.owner_of(h) && k < self@.depth(),
    {
        match self.find(h) {
            None => None,
            Some(i) => {
                let mut k: usize = self.frames.len();
                proof {
                    crate::root_set::lemma_owner_range(self@.frames, i as int);
                    assert(self@.frames.take(k as int) =~= self@.frames);
                }
                while k > 0 && self.frames[k - 1].base > i
                    invariant
                        self.wf(),
                        0 <= k <= self.frames.len(),
                        i < self.slots.len(),
                        crate::root_set::owner_at(self@.frames, i as int)
                            == crate::root_set::owner_at(self@.frames.take(k as int), i as int),
                    decreases k,
                {
                    proof {
                        assert(self@.frames.take(k as int).drop_last() =~= self@.frames.take(
                            k - 1,
                        ));
                    }
                    k = k - 1;
                }
                proof {
                    crate::root_set::lemma_owner_range(self@.frames, i as int);
                    assert(self@.frames[0].base == 0);
                }
                Some(k - 1)
            },
        }
    }

    /// Makes a handle for an engine value in the innermost scope.
    ///
    /// Refused with `NoActiveScope` where no scope is entered, and with
    /// `HandlesExhausted` where every handle number has been given out.
    pub fn root(&mut self, value: usize) -> (r: Result<Local, ScopeError>)
        requires
            old(self).wf(),
        ensures
            final(self).wf(),
            old(self)@.step(final(self)@),
            r == rooting(old(self)@),
            r is Err ==> final(self)@ == old(self)@,
            r matches Ok(h) ==> {
                &&& final(self)@ == old(self)@.rooted(value)
                &&& !old(self)@.holds(h)
                &&& final(self)@.live(h)
                &&& final(self)@.value_of(h) == value
                &&& final(self)@.owner_of(h) == old(self)@.depth() - 1
                &&& final(self)@.same_handles_but(old(self)@, h)
            },
    {
        proof {
            self@.lemma_steps();
        }
        if self.frames.len() == 0 {
            return Err(ScopeError::NoActiveScope);
        }
        if self.next == usize::MAX {
            return Err(ScopeError::HandlesExhausted);
        }
        proof {
            self@.lemma_rooted(value);
        }
        let h = Local { handle: self.next };
        self.slots.push(Slot { handle: h, value: Some(value) });
        self.next = self.next + 1;
        Ok(h)
    }

    /// Makes a handle in the innermost scope for each of the values, in
    /// turn: the handles have consecutive numbers.
    ///
    /// Refused, with nothing changed, with `NoActiveScope` where no scope is
    /// entered, and with `HandlesExhausted` where fewer handle numbers are
    /// left than there are values.
    pub fn root_all(&mut self, values: &Vec<usize>) -> (r: Result<Vec<Local>, ScopeError>)
        requires
            old(self).wf(),
        ensures
            final(self).wf(),
            old(self)@.step(final(self)@),
            r is Ok <==> old(self)@.depth() > 0 && old(self)@.next + values@.len() <= usize::MAX,
            r matches Err(e) ==> final(self)@ == old(self)@ && e == if old(self)@.depth() == 0 {
                ScopeError::NoActiveScope
            } else {
                ScopeError::HandlesExhausted
            },
            r matches Ok(handles) ==> {
                &&& final(self)@ == old(self)@.rooted_all(values@)
                &&& handles@.len() == values@.len()
                &&& forall|k: int|
                    0 <= k < handles@.len() ==> (#[trigger] handles@[k]).handle
                        == old(self)@.next + k
            },
    {
        proof {
            self@.lemma_steps();
        }
        if self.frames.len() == 0 {
            return Err(ScopeError::NoActiveScope);
        }
        if values.len() > usize::MAX - self.next {
            return Err(ScopeError::HandlesExhausted);
        }
        let mut handles: Vec<Local> = Vec::new();
        let mut i: usize = 0;
        while i < values.len()
            invariant
                self.wf(),
                i <= values.len(),
                old(self)@.wf(),
                old(self)@.depth() > 0,
                old(self)@.next + values@.len() <= usize::MAX,
                self@ == old(self)@.rooted_all(values@.take(i as int)),
                handles@.len() == i,
                forall|k: int|
                    0 <= k < i ==> (#[trigger] handles@[k]).handle == old(self)@.next + k,
            decreases values.len() - i,
        {
            proof {
                old(self)@.lemma_rooted_all(values@.take(i as int));
                assert(values@.take(i + 1).drop_last() =~= values@.take(i as int));
            }
            if let Ok(h) = self.root(values[i]) {
                handles.push(h);
            }
            i = i + 1;
        }
        assert(values@.take(i as int) =~= values@);
        Ok(handles)
    }

    /// Enters a plain scope and stamps its storage.
    ///
    /// Refused with `AlreadyEntered` where the storage is that of a scope that
    /// is entered.
    pub fn enter(&mut self, scope: &mut HandleScope) -> (r: Result<(), ScopeError>)
        requires
            old(self).wf(),
        ensures
            final(self).wf(),
            old(self)@.step(final(self)@),
            r is Ok <==> word_at(old(scope).fields@, 1) == 0,
            r matches Err(e) ==> {
                &&& e == ScopeError::AlreadyEntered
                &&& final(self)@ == old(self)@
                &&& *final(scope) == *old(scope)
            },
            r is Ok ==> {
                &&& final(self)@ == old(self)@.entered(ScopeKind::Plain)
                &&& final(scope).fields@ == stamped(final(self)@, old(scope).fields@)
                &&& is_innermost(final(self)@, ScopeKind::Plain, final(scope).fields@)
                &&& final(self)@.same_handles(old(self)@)
            },
    {
        proof {
            self@.lemma_steps();
        }
        if load_word(&scope.fields, 1) != 0 {
            return Err(ScopeError::AlreadyEntered);
        }
        proof {
            self@.lemma_entered(ScopeKind::Plain);
        }
        let base = self.slots.len();
        self.frames.push(Frame { kind: ScopeKind::Plain, base });
        store_word(&mut scope.fields, 0, self.isolate.address as u64);
        store_word(&mut scope.fields, 1, self.frames.len() as u64);
        store_word(&mut scope.fields, 2, base as u64);
        proof {
            lemma_stamped(self@, ScopeKind::Plain, old(scope).fields@);
        }
        Ok(())
    }

    /// Exits the innermost scope, a plain one, and clears its storage's mark.
    /// Every handle that was made in the scope ceases to designate a value.
    ///
    /// Refused with `NotInnermost` where the storage is not that of the
    /// innermost scope.
    pub fn exit(&mut self, scope: &mut HandleScope) -> (r: Result<(), ScopeError>)
        requires
            old(self).wf(),
        ensures
            final(self).wf(),
            old(self)@.step(final(self)@),
            r is Ok <==> is_innermost(old(self)@, ScopeKind::Plain, old(scope).fields@),
            r matches Err(e) ==> {
                &&& e == ScopeError::NotInnermost
                &&& final(self)@ == old(self)@
                &&& *final(scope) == *old(scope)
            },
            r is Ok ==> {
                &&& final(self)@ == old(self)@.exited()
                &&& final(scope).fields@ == with_word(old(scope).fields@, 1, 0)
                &&& final(self)@.same_handles_below(old(self)@, old(self)@.depth() - 1)
            },
    {
        proof {
            self@.lemma_steps();
        }
        if !self.carries_stamp(ScopeKind::Plain, &scope.fields) {
            return Err(ScopeError::NotInnermost);
        }
        self.pop();
        store_word(&mut scope.fields, 1, 0);
        Ok(())
    }

    /// Enters an escapable scope and stamps its storage. The scope keeps, in
    /// the scope that encloses it, a place for the one handle that it may
    /// promote.
    ///
    /// Refused with `AlreadyEntered` where the storage is that of a scope that
    /// is entered; else with `NoActiveScope` where no scope is entered, since
    /// there is then no scope to promote into; else with `HandlesExhausted`
    /// where every handle number has been given out.
    pub fn enter_escapable(&mut self, scope: &mut EscapableHandleScope) -> (r: Result<
        (),
        ScopeError,
    >)
        requires
            old(self).wf(),
        ensures
            final(self).wf(),
            old(self)@.step(final(self)@),
            r == entering_escapable(old(self)@, old(scope).fields@),
            r is Err ==> final(self)@ == old(self)@ && *final(scope) == *old(scope),
            r is Ok ==> {
                &&& final(self)@ == old(self)@.entered_escapable()
                &&& final(scope).fields@ == stamped(final(self)@, old(scope).fields@)
                &&& is_innermost(final(self)@, ScopeKind::Escapable, final(scope).fields@)
                &&& !final(self)@.has_escaped()
                &&& final(self)@.same_handles(old(self)@)
            },
    {
        proof {
            self@.lemma_steps();
        }
        if load_word(&scope.fields, 1) != 0 {
            return Err(ScopeError::AlreadyEntered);
        }
        if self.frames.len() == 0 {
            return Err(ScopeError::NoActiveScope);
        }
        if self.next == usize::MAX {
            return Err(ScopeError::HandlesExhausted);
        }
        proof {
            self@.lemma_entered_escapable();
        }
        self.slots.push(Slot { handle: Local { handle: self.next }, value: None });
        self.next = self.next + 1;
        let base = self.slots.len();
        self.frames.push(Frame { kind: ScopeKind::Escapable, base });
        store_word(&mut scope.fields, 0, self.isolate.address as u64);
        store_word(&mut scope.fields, 1, self.frames.len() as u64);
        store_word(&mut scope.fields, 2, base as u64);
        proof {
            lemma_stamped(self@, ScopeKind::Escapable, old(scope).fields@);
        }
        Ok(())
    }

    /// Exits the innermost scope, an escapable one, and clears its storage's
    /// mark. Every handle that was made in the scope ceases to designate a
    /// value; the handle that it promoted stays with the enclosing scope.
    ///
    /// Refused with `NotInnermost` where the storage is not that of the
    /// innermost scope.
    pub fn exit_escapable(&mut self, scope: &mut EscapableHandleScope) -> (r: Result<
        (),
        ScopeError,
    >)
        requires
            old(self).wf(),
        ensures
            final(self).wf(),
            old(self)@.step(final(self)@),
            r is Ok <==> is_innermost(old(self)@, ScopeKind::Escapable, old(scope).fields@),
            r matches Err(e) ==> {
                &&& e == ScopeError::NotInnermost
                &&& final(self)@ == old(self)@
                &&& *final(scope) == *old(scope)
            },
            r is Ok ==> {
                &&& final(self)@ == old(self)@.exited()
                &&& final(scope).fields@ == with_word(old(scope).fields@, 1, 0)
                &&& final(self)@.same_handles_below(old(self)@, old(self)@.depth() - 1)
            },
    {
        proof {
            self@.lemma_steps();
        }
        if !self.carries_stamp(ScopeKind::Escapable, &scope.fields) {
            return Err(ScopeError::NotInnermost);
        }
        self.pop();
        store_word(&mut scope.fields, 1, 0);
        Ok(())
    }

    /// Takes note of the scope that the engine entered before it called into
    /// native code.
    pub fn enter_inherited(&mut self, scope: InheritedHandleScope)
        requires
            old(self).wf(),
        ensures
            final(self).wf(),
            old(self)@.step(final(self)@),
            final(self)@ == old(self)@.entered(ScopeKind::Inherited),
            final(self)@.same_handles(old(self)@),
    {
        proof {
            self@.lemma_steps();
        }
        proof {
            self@.lemma_entered(ScopeKind::Inherited);
        }
        let base = self.slots.len();
        self.frames.push(Frame { kind: ScopeKind::Inherited, base });
    }

    /// Leaves the scope that the engine entered before it called into native
    /// code. Every handle that was made in the scope ceases to designate a
    /// value.
    ///
    /// Refused with `NotInnermost` where the innermost scope is not an
    /// inherited one.
    pub fn exit_inherited(&mut self, scope: InheritedHandleScope) -> (r: Result<(), ScopeError>)
        requires
            old(self).wf(),
        ensures
            final(self).wf(),
            old(self)@.step(final(self)@),
            r is Ok <==> old(self)@.depth() > 0 && old(self)@.top().kind == ScopeKind::Inherited,
            r matches Err(e) ==> e == ScopeError::NotInnermost && final(self)@ == old(self)@,
            r is Ok ==> {
                &&& final(self)@ == old(self)@.exited()
                &&& final(self)@.same_handles_below(old(self)@, old(self)@.depth() - 1)
            },
    {
        proof {
            self@.lemma_steps();
        }
        let depth = self.frames.len();
        if depth == 0 {
            return Err(ScopeError::NotInnermost);
        }
        match self.frames[depth - 1].kind {
            ScopeKind::Inherited => {
                self.pop();
                Ok(())
            },
            _ => Err(ScopeError::NotInnermost),
        }
    }

    /// Promotes a handle out of the innermost scope, an escapable one, into
    /// the scope that encloses it. The handle that is returned designates the
    /// same engine value as `value` and lives as long as the enclosing scope.
    ///
    /// Refused with `NotInnermost` where the storage is not that of the
    /// innermost scope; else with `AlreadyEscaped` where the scope has
    /// promoted a handle before; else with `DeadHandle` where `value`
    /// designates no value.
    pub fn escape(&mut self, scope: &EscapableHandleScope, value: Local) -> (r: Result<
        Local,
        ScopeError,
    >)
        requires
            old(self).wf(),
        ensures
            final(self).wf(),
            old(self)@.step(final(self)@),
            r is Ok <==> can_escape(old(self)@, scope.fields@, value),
            r matches Err(e) ==> {
                &&& e == escape_refusal(old(self)@, scope.fields@, value)
                &&& final(self)@ == old(self)@
            },
            r matches Ok(h) ==> {
                &&& final(self)@ == old(self)@.promoted(value)
                &&& h == old(self)@.escape_handle()
                &&& !old(self)@.live(h)
                &&& final(self)@.live(h)
                &&& final(self)@.value_of(h) == old(self)@.value_of(value)
                &&& final(self)@.owner_of(h) == old(self)@.depth() - 2
                &&& final(self)@.same_handles_but(old(self)@, h)
            },
    {
        proof {
            self@.lemma_steps();
        }
        if !self.carries_stamp(ScopeKind::Escapable, &scope.fields) {
            return Err(ScopeError::NotInnermost);
        }
        let depth = self.frames.len();
        let at = self.frames[depth - 1].base - 1;
        if self.slots[at].value.is_some() {
            return Err(ScopeError::AlreadyEscaped);
        }
        match self.resolve(value) {
            None => Err(ScopeError::DeadHandle),
            Some(v) => {
                proof {
                    self@.lemma_promoted(value);
                }
                let h = self.slots[at].handle;
                self.slots[at] = Slot { handle: h, value: Some(v) };
                Ok(h)
            },
        }
    }

    /// Exits every scope from depth `depth` on, innermost first. Where no
    /// more scopes are entered than that, nothing changes.
    pub fn unwind_to(&mut self, depth: usize)
        requires
            old(self).wf(),
        ensures
            final(self).wf(),
            old(self)@.step(final(self)@),
            final(self)@ == old(self)@.unwound_to(depth as nat),
            final(self)@.depth() <= depth,
            depth < old(self)@.depth() ==> final(self)@.same_handles_below(
                old(self)@,
                depth as int,
            ),
    {
        proof {
            self@.lemma_steps();
        }
        if depth < self.frames.len() {
            proof {
                self@.lemma_unwound_to(depth as nat);
            }
            let base = self.frames[depth].base;
            self.frames.truncate(depth);
            self.slots.truncate(base);
            assert(self@.frames =~= old(self)@.frames.take(depth as int));
            assert(self@.slots =~= old(self)@.slots.take(base as int));
        }
    }

    /// Whether the storage carries the stamp of the innermost scope, and that
    /// scope is of the given kind.
    fn carries_stamp<const N: usize>(&self, kind: ScopeKind, fields: &[u8; N]) -> (carries: bool)
        requires
            self.wf(),
            N >= 24,
        ensures
            carries == is_innermost(self@, kind, fields@),
            carries && kind == ScopeKind::Escapable ==> self@.top().base >= 1,
    {
        let depth = self.frames.len();
        if depth == 0 {
            return false;
        }
        let top = self.frames[depth - 1];
        proof {
            if top.kind == ScopeKind::Escapable {
                assert(self@.frames[depth - 2].base < self@.frames[depth - 1].base);
            }
        }
        kind_eq(top.kind, kind) && load_word(fields, 0) == self.isolate.address as u64
            && load_word(fields, 1) == depth as u64 && load_word(fields, 2) == top.base as u64
    }

    /// Removes the innermost scope and its roots.
    fn pop(&mut self)
        requires
            old(self).wf(),
            old(self)@.depth() > 0,
        ensures
            final(self).wf(),
            final(self)@ == old(self)@.exited(),
            final(self)@.same_handles_below(old(self)@, old(self)@.depth() - 1),
    {
        let depth = self.frames.len() - 1;
        self.unwind_to(depth);
    }
}

/// Whether two scope kinds are the same.
fn kind_eq(a: ScopeKind, b: ScopeKind) -> (same: bool)
    ensures
        same == (a == b),
{
    match (a, b) {
        (ScopeKind::Plain, ScopeKind::Plain) => true,
        (ScopeKind::Escapable, ScopeKind::Escapable) => true,
        (ScopeKind::Inherited, ScopeKind::Inherited) => true,
        _ => false,
    }
}

} // verus!
