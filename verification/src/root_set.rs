//! The mathematical model of a scope stack, and what holds of it.
//!
//! A root set is a sequence of roots and a sequence of frames. A root pairs a
//! handle with the engine value that it designates. A frame stands for one
//! entered scope and records how many roots there were when it was entered:
//! the roots from there up to the next frame's mark belong to it. Handles are
//! numbered in the order in which they are made, and no number is given twice.

use vstd::prelude::*;
use crate::raw::Local;
use crate::raw::Isolate;

verus! {

/// What kind of scope a frame stands for.
#[derive(Clone, Copy, PartialEq, Eq, Structural, Debug)]
pub enum ScopeKind {
    /// A scope that native code entered.
    Plain,
    /// A scope from which one handle may be promoted into the enclosing scope.
    Escapable,
    /// A scope that the engine entered before it called into native code.
    Inherited,
}

/// One root: a handle and the engine value that it designates. A root without
/// a value is the place that an escapable scope keeps in its enclosing scope
/// for the handle that it may promote.
#[derive(Clone, Copy, Debug)]
pub struct Slot {
    pub handle: Local,
    pub value: Option<usize>,
}

/// One entered scope: its kind, and how many roots there were when it was entered.
#[derive(Clone, Copy, Debug)]
pub struct Frame {
    pub kind: ScopeKind,
    pub base: usize,
}

/// The scope that owns the root at position `i`: the innermost frame whose
/// mark is not above `i`.
pub open spec fn owner_at(frames: Seq<Frame>, i: int) -> int
    decreases frames.len(),
{
    if frames.len() == 0 {
        -1
    } else if frames.last().base <= i {
        frames.len() - 1
    } else {
        owner_at(frames.drop_last(), i)
    }
}

/// The state of a scope stack.
pub struct RootSet {
    /// The engine instance that the scopes belong to.
    pub isolate: Isolate,
    /// The roots, oldest first.
    pub slots: Seq<Slot>,
    /// The entered scopes, outermost first.
    pub frames: Seq<Frame>,
    /// The number that the next handle will carry.
    pub next: usize,
}

impl RootSet {
    /// The root set of an engine instance in which no scope is entered.
    pub open spec fn empty(isolate: Isolate) -> RootSet {
        RootSet { isolate, slots: Seq::empty(), frames: Seq::empty(), next: 1 }
    }

    /// How many scopes are entered.
    pub open spec fn depth(self) -> nat {
        self.frames.len()
    }

    /// The innermost scope.
    pub open spec fn top(self) -> Frame {
        self.frames.last()
    }

    /// Handle numbers grow along the roots and stay below `next`; the frames'
    /// marks grow outwards-in and lie within the roots; every root lies in a
    /// scope; and below the mark of an escapable scope lies, in its enclosing
    /// scope, the place that it keeps.
    pub open spec fn wf(self) -> bool {
        &&& self.next >= 1
        &&& self.slots.len() < self.next
        &&& forall|i: int, j: int|
            0 <= i < j < self.slots.len() ==> (#[trigger] self.slots[i]).handle.handle < (
            #[trigger] self.slots[j]).handle.handle
        &&& forall|i: int|
            0 <= i < self.slots.len() ==> 0 < (#[trigger] self.slots[i]).handle.handle < self.next
        &&& forall|j: int, k: int|
            0 <= j < k < self.frames.len() ==> (#[trigger] self.frames[j]).base <= (
            #[trigger] self.frames[k]).base
        &&& forall|k: int|
            0 <= k < self.frames.len() ==> (#[trigger] self.frames[k]).base <= self.slots.len()
        &&& self.slots.len() > 0 ==> self.frames.len() > 0
        &&& self.frames.len() > 0 ==> self.frames[0].base == 0 && self.frames[0].kind
            != ScopeKind::Escapable
        &&& forall|j: int, k: int|
            0 <= j && j + 1 == k && k < self.frames.len() && (#[trigger] self.frames[k]).kind
                == ScopeKind::Escapable ==> (#[trigger] self.frames[j]).base < self.frames[k].base
    }

    /// Whether a root carries this handle.
    pub open spec fn holds(self, h: Local) -> bool {
        exists|i: int| 0 <= i < self.slots.len() && (#[trigger] self.slots[i]).handle == h
    }

    /// Where the root that carries this handle stands.
    pub open spec fn position(self, h: Local) -> int {
        choose|i: int| 0 <= i < self.slots.len() && (#[trigger] self.slots[i]).handle == h
    }

    /// Whether the handle designates a value.
    pub open spec fn live(self, h: Local) -> bool {
        self.holds(h) && self.slots[self.position(h)].value is Some
    }

    /// The engine value that a live handle designates.
    pub open spec fn value_of(self, h: Local) -> usize {
        self.slots[self.position(h)].value->0
    }

    /// The scope that owns a handle, counted from the outermost, which is 0.
    pub open spec fn owner_of(self, h: Local) -> int {
        owner_at(self.frames, self.position(h))
    }

    /// The handle that the innermost scope, an escapable one, keeps for the
    /// value that it promotes.
    pub open spec fn escape_handle(self) -> Local {
        self.slots[self.top().base - 1].handle
    }

    /// Whether the innermost scope, an escapable one, has promoted a handle.
    pub open spec fn has_escaped(self) -> bool {
        self.slots[self.top().base - 1].value is Some
    }

    /// Whether scope `k` is an escapable scope that keeps `h` for a handle
    /// that it has not promoted yet.
    pub open spec fn keeps(self, k: int, h: Local) -> bool {
        &&& 0 <= k < self.frames.len()
        &&& self.frames[k].kind == ScopeKind::Escapable
        &&& 1 <= self.frames[k].base <= self.slots.len()
        &&& self.slots[self.frames[k].base - 1].handle == h
        &&& self.slots[self.frames[k].base - 1].value is None
    }

    /// Whether the handle is kept by an entered escapable scope that has not
    /// promoted a handle yet.
    pub open spec fn reserved(self, h: Local) -> bool {
        exists|k: int| #[trigger] self.keeps(k, h)
    }

    /// Whether the handle was given out and has ceased to designate a value.
    pub open spec fn retired(self, h: Local) -> bool {
        0 < h.handle < self.next && !self.live(h) && !self.reserved(h)
    }

    /// The state after a plain or an inherited scope is entered.
    pub open spec fn entered(self, kind: ScopeKind) -> RootSet {
        RootSet {
            frames: self.frames.push(Frame { kind, base: self.slots.len() as usize }),
            ..self
        }
    }

    /// The state after an escapable scope is entered: it keeps a place in the
    /// enclosing scope, and its own roots start above that place.
    pub open spec fn entered_escapable(self) -> RootSet {
        RootSet {
            isolate: self.isolate,
            slots: self.slots.push(Slot { handle: Local { handle: self.next }, value: None }),
            frames: self.frames.push(
                Frame { kind: ScopeKind::Escapable, base: (self.slots.len() + 1) as usize },
            ),
            next: (self.next + 1) as usize,
        }
    }

    /// The state after every scope from depth `depth` on is exited.
    pub open spec fn unwound_to(self, depth: nat) -> RootSet {
        if depth < self.frames.len() {
            RootSet {
                slots: self.slots.take(self.frames[depth as int].base as int),
                frames: self.frames.take(depth as int),
                ..self
            }
        } else {
            self
        }
    }

    /// The state after the innermost scope is exited.
    pub open spec fn exited(self) -> RootSet {
        self.unwound_to((self.frames.len() - 1) as nat)
    }

    /// The state after a handle for `value` is made in the innermost scope.
    pub open spec fn rooted(self, value: usize) -> RootSet {
        RootSet {
            slots: self.slots.push(
                Slot { handle: Local { handle: self.next }, value: Some(value) },
            ),
            next: (self.next + 1) as usize,
            ..self
        }
    }

    /// The state after a handle has been made, in the innermost scope, for
    /// each of the values in turn.
    pub open spec fn rooted_all(self, values: Seq<usize>) -> RootSet
        decreases values.len(),
    {
        if values.len() == 0 {
            self
        } else {
            self.rooted_all(values.drop_last()).rooted(values.last())
        }
    }

    /// The state after the innermost scope, an escapable one, promotes `h`.
    pub open spec fn promoted(self, h: Local) -> RootSet {
        RootSet {
            slots: self.slots.update(
                self.top().base - 1,
                Slot { handle: self.escape_handle(), value: Some(self.value_of(h)) },
            ),
            ..self
        }
    }

    /// Whether the innermost scope is an escapable one that may promote `h`.
    pub open spec fn may_promote(self, h: Local) -> bool {
        &&& self.depth() > 0
        &&& self.top().kind == ScopeKind::Escapable
        &&& !self.has_escaped()
        &&& self.live(h)
    }

    /// Whether every handle is in this state what it was in `before`.
    pub open spec fn same_handles(self, before: RootSet) -> bool {
        &&& forall|x: Local| self.live(x) == before.live(x)
        &&& forall|x: Local|
            before.holds(x) ==> self.value_of(x) == before.value_of(x) && self.owner_of(x)
                == before.owner_of(x)
    }

    /// Whether every handle but `h` is in this state what it was in `before`.
    pub open spec fn same_handles_but(self, before: RootSet, h: Local) -> bool {
        &&& forall|x: Local| x != h ==> self.live(x) == before.live(x)
        &&& forall|x: Local|
            x != h && before.holds(x) ==> self.value_of(x) == before.value_of(x)
                && self.owner_of(x) == before.owner_of(x)
    }

    /// Whether the handles that scopes below depth `depth` owned in `before`
    /// are in this state what they were, and no other handle designates a
    /// value.
    pub open spec fn same_handles_below(self, before: RootSet, depth: int) -> bool {
        &&& forall|x: Local| self.live(x) <==> before.live(x) && before.owner_of(x) < depth
        &&& forall|x: Local|
            before.holds(x) && before.owner_of(x) < depth ==> self.value_of(x) == before.value_of(
                x,
            ) && self.owner_of(x) == before.owner_of(x)
    }

    /// Whether `after` is reached from this state by one operation of a scope
    /// stack.
    pub open spec fn step(self, after: RootSet) -> bool {
        ||| after == self.entered(ScopeKind::Plain)
        ||| after == self.entered(ScopeKind::Inherited)
        ||| self.depth() > 0 && self.next < usize::MAX && after == self.entered_escapable()
        ||| self.depth() > 0 && after == self.exited()
        ||| exists|depth: nat| after == self.unwound_to(depth)
        ||| exists|values: Seq<usize>|
            self.depth() > 0 && self.next + values.len() <= usize::MAX && after
                == self.rooted_all(values)
        ||| exists|h: Local| self.may_promote(h) && after == self.promoted(h)
    }
}

/// Whether the frames' marks grow from the outermost scope inwards.
pub open spec fn marks_grow(frames: Seq<Frame>) -> bool {
    forall|j: int, k: int|
        0 <= j < k < frames.len() ==> (#[trigger] frames[j]).base <= (#[trigger] frames[k]).base
}

/// The scope that owns a position is the one between whose mark and the next
/// scope's mark the position lies.
pub proof fn lemma_owner_at(frames: Seq<Frame>, i: int, k: int)
    requires
        marks_grow(frames),
        0 <= k < frames.len(),
        frames[k].base <= i,
        k + 1 < frames.len() ==> i < frames[k + 1].base,
    ensures
        owner_at(frames, i) == k,
    decreases frames.len(),
{
    if frames.last().base <= i {
        if k < frames.len() - 1 {
            assert(frames[k + 1].base <= frames[frames.len() - 1].base);
        }
    } else {
        let rest = frames.drop_last();
        assert(marks_grow(rest)) by {
            assert forall|a: int, b: int| 0 <= a < b < rest.len() implies (#[trigger] rest[a]).base
                <= (#[trigger] rest[b]).base by {
                assert(rest[a] == frames[a] && rest[b] == frames[b]);
            }
        }
        assert(rest[k] == frames[k]);
        if k + 1 < rest.len() {
            assert(rest[k + 1] == frames[k + 1]);
        }
        lemma_owner_at(rest, i, k);
    }
}

/// The owner of a position is a scope of the stack, or -1 where the position
/// lies below every mark.
pub proof fn lemma_owner_range(frames: Seq<Frame>, i: int)
    ensures
        -1 <= owner_at(frames, i) < frames.len(),
        owner_at(frames, i) >= 0 ==> frames[owner_at(frames, i)].base <= i,
        frames.len() > 0 && frames[0].base <= i ==> owner_at(frames, i) >= 0,
    decreases frames.len(),
{
    if frames.len() > 0 && !(frames.last().base <= i) {
        let rest = frames.drop_last();
        lemma_owner_range(rest, i);
        if owner_at(rest, i) >= 0 {
            assert(rest[owner_at(rest, i)] == frames[owner_at(rest, i)]);
        }
        if frames[0].base <= i {
            assert(rest.len() > 0);
            assert(rest[0] == frames[0]);
        }
    }
}

/// Positions below the mark of a scope are owned alike with and without the
/// scopes from it inwards.
pub proof fn lemma_owner_below(frames: Seq<Frame>, depth: int, i: int)
    requires
        marks_grow(frames),
        0 <= depth < frames.len(),
        i < frames[depth].base,
    ensures
        owner_at(frames, i) == owner_at(frames.take(depth), i),
        owner_at(frames, i) < depth,
    decreases frames.len(),
{
    assert(frames[depth].base <= frames[frames.len() - 1].base);
    let rest = frames.drop_last();
    if depth == frames.len() - 1 {
        assert(rest =~= frames.take(depth));
        lemma_owner_range(rest, i);
    } else {
        assert(marks_grow(rest)) by {
            assert forall|a: int, b: int| 0 <= a < b < rest.len() implies (#[trigger] rest[a]).base
                <= (#[trigger] rest[b]).base by {
                assert(rest[a] == frames[a] && rest[b] == frames[b]);
            }
        }
        assert(rest[depth] == frames[depth]);
        lemma_owner_below(rest, depth, i);
        assert(rest.take(depth) =~= frames.take(depth));
    }
}

/// Positions from the mark of a scope on are owned by that scope or by one
/// inside it.
pub proof fn lemma_owner_above(frames: Seq<Frame>, depth: int, i: int)
    requires
        marks_grow(frames),
        0 <= depth < frames.len(),
        frames[depth].base <= i,
    ensures
        owner_at(frames, i) >= depth,
    decreases frames.len(),
{
    if !(frames.last().base <= i) {
        let rest = frames.drop_last();
        assert(marks_grow(rest)) by {
            assert forall|a: int, b: int| 0 <= a < b < rest.len() implies (#[trigger] rest[a]).base
                <= (#[trigger] rest[b]).base by {
                assert(rest[a] == frames[a] && rest[b] == frames[b]);
            }
        }
        assert(rest[depth] == frames[depth]);
        lemma_owner_above(rest, depth, i);
    }
}

impl RootSet {
    /// No two roots carry the same handle: a root that carries `h` is the one
    /// at `position(h)`.
    pub proof fn lemma_position(self, h: Local, i: int)
        requires
            self.wf(),
            0 <= i < self.slots.len(),
            self.slots[i].handle == h,
        ensures
            self.holds(h),
            self.position(h) == i,
    {
        let p = self.position(h);
        assert(0 <= p < self.slots.len() && self.slots[p].handle == h);
        if p < i {
            assert(self.slots[p].handle.handle < self.slots[i].handle.handle);
        }
        if i < p {
            assert(self.slots[i].handle.handle < self.slots[p].handle.handle);
        }
    }

    /// A handle that a root carries stands at a position among the roots.
    pub proof fn lemma_holds(self, h: Local)
        requires
            self.holds(h),
        ensures
            0 <= self.position(h) < self.slots.len(),
            self.slots[self.position(h)].handle == h,
            0 <= self.position(h),
    {
    }

    /// Entering a plain or an inherited scope keeps the state well formed and
    /// every handle as it was.
    pub proof fn lemma_entered(self, kind: ScopeKind)
        requires
            self.wf(),
            kind != ScopeKind::Escapable,
        ensures
            self.entered(kind).wf(),
            self.entered(kind).depth() == self.depth() + 1,
            forall|h: Local| self.entered(kind).live(h) == self.live(h),
            forall|h: Local| self.entered(kind).value_of(h) == self.value_of(h),
            forall|h: Local| self.holds(h) ==> self.entered(kind).owner_of(h) == self.owner_of(h),
            forall|h: Local| self.entered(kind).reserved(h) == self.reserved(h),
    {
        let after = self.entered(kind);
        assert(self.slots.len() as usize == self.slots.len());
        assert forall|j: int, k: int| 0 <= j < k < after.frames.len() implies (
        #[trigger] after.frames[j]).base <= (#[trigger] after.frames[k]).base by {
            if k < self.frames.len() {
                assert(after.frames[j] == self.frames[j] && after.frames[k] == self.frames[k]);
            } else {
                assert(after.frames[j] == self.frames[j]);
            }
        }
        assert forall|j: int, k: int|
            0 <= j && j + 1 == k && k < after.frames.len() && (#[trigger] after.frames[k]).kind
                == ScopeKind::Escapable implies (#[trigger] after.frames[j]).base
            < after.frames[k].base by {
            assert(after.frames[k] == self.frames[k]);
            assert(after.frames[j] == self.frames[j]);
        }
        assert(after.wf());
        assert forall|h: Local| self.holds(h) implies after.owner_of(h) == self.owner_of(h) by {
            assert(after.frames.drop_last() =~= self.frames);
        }
        assert forall|h: Local| after.reserved(h) == self.reserved(h) by {
            if self.reserved(h) {
                let k = choose|k: int| #[trigger] self.keeps(k, h);
                assert(after.keeps(k, h));
            }
            if after.reserved(h) {
                let k = choose|k: int| #[trigger] after.keeps(k, h);
                assert(self.keeps(k, h));
            }
        }
    }

    /// Making a handle keeps the state well formed, makes the new handle
    /// designate the value in the innermost scope, and leaves every other
    /// handle as it was.
    pub proof fn lemma_rooted(self, value: usize)
        requires
            self.wf(),
            self.depth() > 0,
            self.next < usize::MAX,
        ensures
            self.rooted(value).wf(),
            self.rooted(value).frames == self.frames,
            !self.holds(Local { handle: self.next }),
            self.rooted(value).live(Local { handle: self.next }),
            self.rooted(value).value_of(Local { handle: self.next }) == value,
            self.rooted(value).owner_of(Local { handle: self.next }) == self.depth() - 1,
            forall|h: Local|
                h.handle != self.next ==> self.rooted(value).live(h) == self.live(h)
                    && self.rooted(value).holds(h) == self.holds(h),
            forall|h: Local|
                self.holds(h) ==> self.rooted(value).value_of(h) == self.value_of(h)
                    && self.rooted(value).owner_of(h) == self.owner_of(h),
            forall|h: Local| self.rooted(value).reserved(h) == self.reserved(h),
    {
        let after = self.rooted(value);
        let fresh = Local { handle: self.next };
        let n = self.slots.len() as int;
        assert forall|i: int, j: int| 0 <= i < j < after.slots.len() implies (
        #[trigger] after.slots[i]).handle.handle < (#[trigger] after.slots[j]).handle.handle by {
            assert(after.slots[i] == self.slots[i]);
            if j < n {
                assert(after.slots[j] == self.slots[j]);
            }
        }
        assert forall|i: int| 0 <= i < after.slots.len() implies 0 < (
        #[trigger] after.slots[i]).handle.handle < after.next by {
            if i < n {
                assert(after.slots[i] == self.slots[i]);
            }
        }
        assert(after.wf());
        if self.holds(fresh) {
            assert(self.slots[self.position(fresh)].handle.handle < self.next);
        }
        assert(after.slots[n].handle == fresh);
        after.lemma_position(fresh, n);
        lemma_owner_at(after.frames, n, self.depth() - 1);
        assert forall|h: Local| h.handle != self.next implies after.live(h) == self.live(h)
            && after.holds(h) == self.holds(h) by {
            if self.holds(h) {
                let p = self.position(h);
                assert(after.slots[p] == self.slots[p]);
                after.lemma_position(h, p);
            }
            if after.holds(h) {
                let p = after.position(h);
                assert(p < n);
                assert(after.slots[p] == self.slots[p]);
                self.lemma_position(h, p);
            }
        }
        assert forall|h: Local| self.holds(h) implies after.value_of(h) == self.value_of(h)
            && after.owner_of(h) == self.owner_of(h) by {
            let p = self.position(h);
            assert(after.slots[p] == self.slots[p]);
            after.lemma_position(h, p);
        }
        assert forall|h: Local| after.reserved(h) == self.reserved(h) by {
            if self.reserved(h) {
                let k = choose|k: int| #[trigger] self.keeps(k, h);
                assert(after.slots[self.frames[k].base - 1] == self.slots[self.frames[k].base - 1]);
                assert(after.keeps(k, h));
            }
            if after.reserved(h) {
                let k = choose|k: int| #[trigger] after.keeps(k, h);
                assert(after.slots[self.frames[k].base - 1] == self.slots[self.frames[k].base - 1]);
                assert(self.keeps(k, h));
            }
        }
    }

    /// Entering an escapable scope keeps the state well formed, keeps a fresh
    /// handle in the enclosing scope, and leaves every other handle as it was.
    pub proof fn lemma_entered_escapable(self)
        requires
            self.wf(),
            self.depth() > 0,
            self.next < usize::MAX,
        ensures
            self.entered_escapable().wf(),
            self.entered_escapable().depth() == self.depth() + 1,
            self.entered_escapable().top().kind == ScopeKind::Escapable,
            self.entered_escapable().top().base == self.slots.len() + 1,
            self.entered_escapable().escape_handle() == (Local { handle: self.next }),
            !self.entered_escapable().has_escaped(),
            !self.holds(Local { handle: self.next }),
            self.entered_escapable().keeps(self.depth() as int, Local { handle: self.next }),
            forall|h: Local| self.entered_escapable().live(h) == self.live(h),
            forall|h: Local|
                self.holds(h) ==> self.entered_escapable().value_of(h) == self.value_of(h)
                    && self.entered_escapable().owner_of(h) == self.owner_of(h),
            forall|h: Local|
                h.handle != self.next ==> self.entered_escapable().reserved(h) == self.reserved(h),
    {
        let after = self.entered_escapable();
        let fresh = Local { handle: self.next };
        let n = self.slots.len() as int;
        let d = self.frames.len() as int;
        assert forall|i: int, j: int| 0 <= i < j < after.slots.len() implies (
        #[trigger] after.slots[i]).handle.handle < (#[trigger] after.slots[j]).handle.handle by {
            assert(after.slots[i] == self.slots[i]);
            if j < n {
                assert(after.slots[j] == self.slots[j]);
            }
        }
        assert forall|i: int| 0 <= i < after.slots.len() implies 0 < (
        #[trigger] after.slots[i]).handle.handle < after.next by {
            if i < n {
                assert(after.slots[i] == self.slots[i]);
            }
        }
        assert forall|j: int, k: int| 0 <= j < k < after.frames.len() implies (
        #[trigger] after.frames[j]).base <= (#[trigger] after.frames[k]).base by {
            assert(after.frames[j] == self.frames[j]);
            if k < d {
                assert(after.frames[k] == self.frames[k]);
            }
        }
        assert forall|k: int| 0 <= k < after.frames.len() implies (#[trigger] after.frames[k]).base
            <= after.slots.len() by {
            if k < d {
                assert(after.frames[k] == self.frames[k]);
            }
        }
        assert(after.frames[0] == self.frames[0]);
        assert forall|j: int, k: int|
            0 <= j && j + 1 == k && k < after.frames.len() && (#[trigger] after.frames[k]).kind
                == ScopeKind::Escapable implies (#[trigger] after.frames[j]).base
            < after.frames[k].base by {
            assert(after.frames[j] == self.frames[j]);
            if k < d {
                assert(after.frames[k] == self.frames[k]);
            }
        }
        assert(after.wf());
        if self.holds(fresh) {
            assert(self.slots[self.position(fresh)].handle.handle < self.next);
        }
        assert(after.slots[n].handle == fresh);
        after.lemma_position(fresh, n);
        assert(after.keeps(d, fresh));
        assert forall|h: Local| after.live(h) == self.live(h) by {
            if self.holds(h) {
                let p = self.position(h);
                assert(after.slots[p] == self.slots[p]);
                after.lemma_position(h, p);
            }
            if after.holds(h) {
                let p = after.position(h);
                if p < n {
                    assert(after.slots[p] == self.slots[p]);
                    self.lemma_position(h, p);
                } else {
                    after.lemma_position(fresh, n);
                }
            }
        }
        assert forall|h: Local| self.holds(h) implies after.value_of(h) == self.value_of(h)
            && after.owner_of(h) == self.owner_of(h) by {
            let p = self.position(h);
            assert(after.slots[p] == self.slots[p]);
            after.lemma_position(h, p);
            assert(after.frames.drop_last() =~= self.frames);
        }
        assert forall|h: Local| h.handle != self.next implies after.reserved(h) == self.reserved(
            h,
        ) by {
            if self.reserved(h) {
                let k = choose|k: int| #[trigger] self.keeps(k, h);
                assert(after.frames[k] == self.frames[k]);
                assert(after.slots[self.frames[k].base - 1] == self.slots[self.frames[k].base - 1]);
                assert(after.keeps(k, h));
            }
            if after.reserved(h) {
                let k = choose|k: int| #[trigger] after.keeps(k, h);
                if k < d {
                    assert(after.frames[k] == self.frames[k]);
                    assert(after.slots[self.frames[k].base - 1] == self.slots[self.frames[k].base
                        - 1]);
                    assert(self.keeps(k, h));
                }
            }
        }
    }

    /// Exiting every scope from depth `depth` on keeps the state well formed,
    /// ends the handles that those scopes own, and leaves the handles of the
    /// scopes that stay as they were.
    pub proof fn lemma_unwound_to(self, depth: nat)
        requires
            self.wf(),
            depth < self.depth(),
        ensures
            self.unwound_to(depth).wf(),
            self.unwound_to(depth).depth() == depth,
            self.unwound_to(depth).next == self.next,
            forall|h: Local|
                self.unwound_to(depth).holds(h) <==> self.holds(h) && self.owner_of(h) < depth,
            forall|h: Local|
                self.unwound_to(depth).live(h) <==> self.live(h) && self.owner_of(h) < depth,
            forall|h: Local|
                self.holds(h) && self.owner_of(h) < depth ==> self.unwound_to(depth).value_of(h)
                    == self.value_of(h) && self.unwound_to(depth).owner_of(h) == self.owner_of(h),
            forall|h: Local| self.unwound_to(depth).reserved(h) ==> self.reserved(h),
    {
        let after = self.unwound_to(depth);
        let b = self.frames[depth as int].base as int;
        let d = depth as int;
        assert(marks_grow(self.frames));
        assert forall|j: int, k: int| 0 <= j < k < after.frames.len() implies (
        #[trigger] after.frames[j]).base <= (#[trigger] after.frames[k]).base by {
            assert(after.frames[j] == self.frames[j] && after.frames[k] == self.frames[k]);
        }
        assert forall|k: int| 0 <= k < after.frames.len() implies (#[trigger] after.frames[k]).base
            <= after.slots.len() by {
            assert(after.frames[k] == self.frames[k]);
            assert(self.frames[k].base <= self.frames[d].base);
        }
        assert forall|j: int, k: int|
            0 <= j && j + 1 == k && k < after.frames.len() && (#[trigger] after.frames[k]).kind
                == ScopeKind::Escapable implies (#[trigger] after.frames[j]).base
            < after.frames[k].base by {
            assert(after.frames[j] == self.frames[j] && after.frames[k] == self.frames[k]);
        }
        if after.slots.len() > 0 {
            assert(self.frames[0].base == 0);
            assert(d > 0);
        }
        if after.frames.len() > 0 {
            assert(after.frames[0] == self.frames[0]);
        }
        assert(after.wf());
        assert forall|h: Local| after.holds(h) <==> self.holds(h) && self.owner_of(h) < depth by {
            if after.holds(h) {
                let p = after.position(h);
                assert(after.slots[p] == self.slots[p]);
                self.lemma_position(h, p);
                lemma_owner_below(self.frames, d, p);
            }
            if self.holds(h) && self.owner_of(h) < depth {
                let p = self.position(h);
                if p >= b {
                    lemma_owner_above(self.frames, d, p);
                }
                assert(after.slots[p] == self.slots[p]);
                after.lemma_position(h, p);
            }
        }
        assert forall|h: Local| self.holds(h) && self.owner_of(h) < depth implies after.value_of(h)
            == self.value_of(h) && after.owner_of(h) == self.owner_of(h) && after.live(h)
            == self.live(h) by {
            let p = self.position(h);
            if p >= b {
                lemma_owner_above(self.frames, d, p);
            }
            assert(after.slots[p] == self.slots[p]);
            after.lemma_position(h, p);
            lemma_owner_below(self.frames, d, p);
        }
        assert forall|h: Local| after.reserved(h) implies self.reserved(h) by {
            let k = choose|k: int| #[trigger] after.keeps(k, h);
            assert(after.frames[k] == self.frames[k]);
            assert(self.frames[k].base <= self.frames[d].base);
            assert(after.slots[self.frames[k].base - 1] == self.slots[self.frames[k].base - 1]);
            assert(self.keeps(k, h));
        }
    }

    /// Promoting a handle keeps the state well formed and makes the handle
    /// that the escapable scope kept designate, in the enclosing scope, the
    /// value that the promoted handle designates. Every other handle stays as
    /// it was.
    pub proof fn lemma_promoted(self, h: Local)
        requires
            self.wf(),
            self.may_promote(h),
        ensures
            self.promoted(h).wf(),
            self.promoted(h).frames == self.frames,
            self.promoted(h).next == self.next,
            self.keeps(self.depth() - 1, self.escape_handle()),
            !self.live(self.escape_handle()),
            self.promoted(h).live(self.escape_handle()),
            self.promoted(h).value_of(self.escape_handle()) == self.value_of(h),
            self.promoted(h).owner_of(self.escape_handle()) == self.depth() - 2,
            self.promoted(h).has_escaped(),
            forall|x: Local| self.promoted(h).holds(x) == self.holds(x),
            forall|x: Local| x != self.escape_handle() ==> self.promoted(h).live(x) == self.live(x),
            forall|x: Local|
                x != self.escape_handle() && self.holds(x) ==> self.promoted(h).value_of(x)
                    == self.value_of(x),
            forall|x: Local| self.holds(x) ==> self.promoted(h).owner_of(x) == self.owner_of(x),
            forall|x: Local|
                self.promoted(h).reserved(x) <==> self.reserved(x) && x != self.escape_handle(),
    {
        let after = self.promoted(h);
        let e = self.escape_handle();
        let t = self.depth() - 1;
        assert(self.frames[t - 1].base < self.frames[t].base);
        let at = self.frames[t].base - 1;
        assert(self.slots[at].handle == e);
        assert forall|i: int| 0 <= i < after.slots.len() implies (#[trigger] after.slots[i]).handle
            == self.slots[i].handle by {}
        assert forall|i: int, j: int| 0 <= i < j < after.slots.len() implies (
        #[trigger] after.slots[i]).handle.handle < (#[trigger] after.slots[j]).handle.handle by {
            assert(after.slots[i].handle == self.slots[i].handle);
            assert(after.slots[j].handle == self.slots[j].handle);
        }
        assert forall|i: int| 0 <= i < after.slots.len() implies 0 < (
        #[trigger] after.slots[i]).handle.handle < after.next by {
            assert(after.slots[i].handle == self.slots[i].handle);
        }
        assert(after.wf());
        self.lemma_position(e, at);
        after.lemma_position(e, at);
        assert(self.keeps(t, e));
        lemma_owner_at(self.frames, at, t - 1);
        assert forall|x: Local| after.holds(x) == self.holds(x) by {
            if self.holds(x) {
                let p = self.position(x);
                assert(after.slots[p].handle == self.slots[p].handle);
            }
            if after.holds(x) {
                let p = after.position(x);
                assert(after.slots[p].handle == self.slots[p].handle);
            }
        }
        assert forall|x: Local| self.holds(x) implies after.position(x) == self.position(x) by {
            let p = self.position(x);
            assert(after.slots[p].handle == self.slots[p].handle);
            after.lemma_position(x, p);
        }
        assert forall|x: Local| x != e implies after.live(x) == self.live(x) && (self.holds(x)
            ==> after.value_of(x) == self.value_of(x)) by {
            if self.holds(x) {
                let p = self.position(x);
                assert(p != at);
                assert(after.slots[p] == self.slots[p]);
            }
        }
        assert forall|x: Local| after.reserved(x) <==> self.reserved(x) && x != e by {
            if after.reserved(x) {
                let k = choose|k: int| #[trigger] after.keeps(k, x);
                assert(after.slots[self.frames[k].base - 1].handle == self.slots[self.frames[k].base
                    - 1].handle);
                assert(self.frames[k].base - 1 != at);
                assert(self.keeps(k, x));
                self.lemma_position(x, self.frames[k].base - 1);
            }
            if self.reserved(x) && x != e {
                let k = choose|k: int| #[trigger] self.keeps(k, x);
                assert(self.frames[k].base - 1 != at);
                assert(after.keeps(k, x));
            }
        }
    }

    /// Making handles for a sequence of values keeps the state well formed.
    /// The handles carry consecutive numbers, each designates its value in the
    /// innermost scope, and every other handle stays as it was.
    pub proof fn lemma_rooted_all(self, values: Seq<usize>)
        requires
            self.wf(),
            self.depth() > 0,
            self.next + values.len() <= usize::MAX,
        ensures
            self.rooted_all(values).wf(),
            self.rooted_all(values).frames == self.frames,
            self.rooted_all(values).isolate == self.isolate,
            self.rooted_all(values).next == self.next + values.len(),
            forall|h: Local|
                self.next <= h.handle < self.next + values.len() ==> {
                    &&& !self.holds(h)
                    &&& (#[trigger] self.rooted_all(values).live(h))
                    &&& self.rooted_all(values).value_of(h) == values[h.handle - self.next]
                    &&& self.rooted_all(values).owner_of(h) == self.depth() - 1
                },
            forall|h: Local|
                self.holds(h) ==> {
                    &&& self.rooted_all(values).holds(h)
                    &&& self.rooted_all(values).live(h) == self.live(h)
                    &&& self.rooted_all(values).value_of(h) == self.value_of(h)
                    &&& self.rooted_all(values).owner_of(h) == self.owner_of(h)
                },
            forall|h: Local|
                h.handle < self.next ==> self.rooted_all(values).live(h) == self.live(h),
            forall|h: Local| self.rooted_all(values).reserved(h) == self.reserved(h),
        decreases values.len(),
    {
        if values.len() > 0 {
            let front = values.drop_last();
            let mid = self.rooted_all(front);
            let after = self.rooted_all(values);
            self.lemma_rooted_all(front);
            mid.lemma_rooted(values.last());
            assert forall|h: Local| self.next <= h.handle < self.next + values.len() implies {
                &&& !self.holds(h)
                &&& (#[trigger] after.live(h))
                &&& after.value_of(h) == values[h.handle - self.next]
                &&& after.owner_of(h) == self.depth() - 1
            } by {
                let k = h.handle - self.next;
                if k < front.len() {
                    assert(mid.live(h));
                    assert(front[k] == values[k]);
                } else {
                    assert(h == Local { handle: mid.next });
                    if self.holds(h) {
                        assert(self.slots[self.position(h)].handle.handle < self.next);
                    }
                }
            }
            assert forall|h: Local| self.holds(h) implies after.holds(h) && after.live(h)
                == self.live(h) && after.value_of(h) == self.value_of(h) && after.owner_of(h)
                == self.owner_of(h) by {
                assert(self.slots[self.position(h)].handle.handle < self.next);
                assert(mid.holds(h));
            }
            assert forall|h: Local| h.handle < self.next implies after.live(h) == self.live(
                h,
            ) by {
                assert(mid.live(h) == self.live(h));
            }
            assert forall|h: Local| after.reserved(h) == self.reserved(h) by {
                assert(mid.reserved(h) == self.reserved(h));
            }
        }
    }

    /// Leaving the state as it is counts as an operation, as does exiting the
    /// scopes from a depth on, and as does making a handle.
    pub proof fn lemma_steps(self)
        ensures
            self.step(self),
            forall|depth: nat| self.step(#[trigger] self.unwound_to(depth)),
            forall|value: usize|
                self.depth() > 0 && self.next < usize::MAX ==> self.step(
                    #[trigger] self.rooted(value),
                ),
            forall|values: Seq<usize>|
                self.depth() > 0 && self.next + values.len() <= usize::MAX ==> self.step(
                    #[trigger] self.rooted_all(values),
                ),
            forall|h: Local| self.may_promote(h) ==> self.step(#[trigger] self.promoted(h)),
    {
        assert(self == self.unwound_to(self.depth()));
        assert forall|value: usize|
            self.depth() > 0 && self.next < usize::MAX implies self.step(
            #[trigger] self.rooted(value),
        ) by {
            let values = seq![value];
            assert(values.drop_last() =~= Seq::<usize>::empty());
            assert(self.rooted_all(values.drop_last()) == self);
            assert(self.rooted_all(values) == self.rooted(value));
        }
    }
}

} // verus!
