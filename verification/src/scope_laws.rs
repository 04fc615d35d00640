//! What holds of every scope stack, whatever is done with it.

use vstd::prelude::*;
use crate::raw::Local;
use crate::root_set::lemma_owner_range;
use crate::root_set::RootSet;
use crate::root_set::ScopeKind;
use crate::scope::is_innermost;
use crate::stamp::word_at;

verus! {

/// Whether each state of the sequence is reached from the one before it by one
/// operation of a scope stack.
pub open spec fn is_run(states: Seq<RootSet>) -> bool {
    forall|i: int| 0 <= i < states.len() - 1 ==> (#[trigger] states[i]).step(states[i + 1])
}

/// Every operation of a scope stack keeps the state well formed and gives out
/// no handle number a second time.
pub proof fn law_step_keeps_wf(before: RootSet, after: RootSet)
    requires
        before.wf(),
        before.step(after),
    ensures
        after.wf(),
        before.next <= after.next,
        after.isolate == before.isolate,
{
    if after == before.entered(ScopeKind::Plain) {
        before.lemma_entered(ScopeKind::Plain);
    } else if after == before.entered(ScopeKind::Inherited) {
        before.lemma_entered(ScopeKind::Inherited);
    } else if before.depth() > 0 && before.next < usize::MAX && after
        == before.entered_escapable() {
        before.lemma_entered_escapable();
    } else if before.depth() > 0 && after == before.exited() {
        before.lemma_unwound_to((before.depth() - 1) as nat);
    } else if exists|depth: nat| after == before.unwound_to(depth) {
        let depth = choose|depth: nat| after == before.unwound_to(depth);
        if depth < before.depth() {
            before.lemma_unwound_to(depth);
        }
    } else if exists|values: Seq<usize>|
        before.depth() > 0 && before.next + values.len() <= usize::MAX && after
            == before.rooted_all(values) {
        let values = choose|values: Seq<usize>|
            before.depth() > 0 && before.next + values.len() <= usize::MAX && after
                == before.rooted_all(values);
        before.lemma_rooted_all(values);
    } else {
        let h = choose|h: Local| before.may_promote(h) && after == before.promoted(h);
        before.lemma_promoted(h);
    }
}

/// When a scope exits, and with it the scopes inside it, every handle that
/// was made in them ceases to designate a value, and the handles of the
/// scopes that stay designate what they did.
pub proof fn law_exit_ends_handles(state: RootSet, depth: nat, h: Local)
    requires
        state.wf(),
        depth < state.depth(),
        state.holds(h),
    ensures
        state.owner_of(h) >= depth ==> !state.unwound_to(depth).live(h) && state.unwound_to(
            depth,
        ).retired(h),
        state.owner_of(h) < depth ==> state.unwound_to(depth).live(h) == state.live(h)
            && state.unwound_to(depth).value_of(h) == state.value_of(h),
{
    state.lemma_unwound_to(depth);
    state.lemma_holds(h);
    if state.owner_of(h) >= depth {
        let after = state.unwound_to(depth);
        assert(!after.holds(h));
        if after.reserved(h) {
            let k = choose|k: int| #[trigger] after.keeps(k, h);
            assert(after.slots[after.frames[k].base - 1].handle == h);
            assert(after.holds(h));
        }
    }
}

/// A handle that has ceased to designate a value designates none after any
/// further operation.
pub proof fn law_retired_stays_retired(before: RootSet, after: RootSet, h: Local)
    requires
        before.wf(),
        before.step(after),
        before.retired(h),
    ensures
        after.retired(h),
{
    law_step_keeps_wf(before, after);
    if after == before.entered(ScopeKind::Plain) {
        before.lemma_entered(ScopeKind::Plain);
    } else if after == before.entered(ScopeKind::Inherited) {
        before.lemma_entered(ScopeKind::Inherited);
    } else if before.depth() > 0 && before.next < usize::MAX && after
        == before.entered_escapable() {
        before.lemma_entered_escapable();
    } else if before.depth() > 0 && after == before.exited() {
        before.lemma_unwound_to((before.depth() - 1) as nat);
    } else if exists|depth: nat| after == before.unwound_to(depth) {
        let depth = choose|depth: nat| after == before.unwound_to(depth);
        if depth < before.depth() {
            before.lemma_unwound_to(depth);
        }
    } else if exists|values: Seq<usize>|
        before.depth() > 0 && before.next + values.len() <= usize::MAX && after
            == before.rooted_all(values) {
        let values = choose|values: Seq<usize>|
            before.depth() > 0 && before.next + values.len() <= usize::MAX && after
                == before.rooted_all(values);
        before.lemma_rooted_all(values);
    } else {
        let p = choose|p: Local| before.may_promote(p) && after == before.promoted(p);
        before.lemma_promoted(p);
        assert(before.reserved(before.escape_handle()));
    }
}

/// Along any sequence of operations, a handle that has ceased to designate a
/// value never designates one again.
pub proof fn law_no_handle_returns(states: Seq<RootSet>, h: Local, i: int)
    requires
        states.len() > 0,
        states[0].wf(),
        is_run(states),
        states[0].retired(h),
        0 <= i < states.len(),
    ensures
        states[i].wf(),
        states[i].retired(h),
        !states[i].live(h),
    decreases i,
{
    if i > 0 {
        law_no_handle_returns(states, h, i - 1);
        assert(states[i - 1].step(states[i - 1 + 1]));
        law_step_keeps_wf(states[i - 1], states[i]);
        law_retired_stays_retired(states[i - 1], states[i], h);
    }
}

/// Promoting a handle out of an escapable scope gives a handle of the
/// enclosing scope that designates the same engine value, and goes on doing so
/// after the escapable scope has exited, while the promoted handle, where the
/// escapable scope owns it, ends with that scope.
pub proof fn law_escape_keeps_value(state: RootSet, h: Local)
    requires
        state.wf(),
        state.may_promote(h),
    ensures
        state.promoted(h).live(state.escape_handle()),
        state.promoted(h).value_of(state.escape_handle()) == state.value_of(h),
        state.promoted(h).owner_of(state.escape_handle()) == state.depth() - 2,
        state.promoted(h).exited().live(state.escape_handle()),
        state.promoted(h).exited().value_of(state.escape_handle()) == state.value_of(h),
        state.promoted(h).exited().owner_of(state.escape_handle()) == state.depth() - 2,
        state.owner_of(h) == state.depth() - 1 ==> !state.promoted(h).exited().live(h),
{
    state.lemma_promoted(h);
    let mid = state.promoted(h);
    mid.lemma_unwound_to((mid.depth() - 1) as nat);
    assert(mid.holds(state.escape_handle()));
    assert(mid.holds(h) == state.holds(h));
}

/// At any instant one scope at most is the innermost one of an engine
/// instance: two storages that both pass for it carry the same stamp, and a
/// storage that was stamped at another depth does not pass for it.
pub proof fn law_one_innermost_scope(
    state: RootSet,
    kind: ScopeKind,
    storage: Seq<u8>,
    other_kind: ScopeKind,
    other_storage: Seq<u8>,
)
    requires
        is_innermost(state, kind, storage),
    ensures
        is_innermost(state, other_kind, other_storage) ==> other_kind == kind && forall|w: int|
            0 <= w < 3 ==> word_at(other_storage, w) == word_at(storage, w),
        word_at(other_storage, 1) != word_at(storage, 1) ==> !is_innermost(
            state,
            other_kind,
            other_storage,
        ),
{
}

/// A handle is made in the innermost scope, whatever scopes enclose it: while
/// a nested scope is entered, the enclosing scopes get no handle of their own.
pub proof fn law_handles_belong_to_the_innermost_scope(state: RootSet, value: usize)
    requires
        state.wf(),
        state.depth() > 0,
        state.next < usize::MAX,
    ensures
        state.rooted(value).owner_of(Local { handle: state.next }) == state.depth() - 1,
        forall|h: Local|
            state.holds(h) ==> state.rooted(value).owner_of(h) == state.owner_of(h),
{
    state.lemma_rooted(value);
}

/// Every handle that a root carries is owned by one of the entered scopes.
pub proof fn law_every_handle_has_an_owner(state: RootSet, h: Local)
    requires
        state.wf(),
        state.holds(h),
    ensures
        0 <= state.owner_of(h) < state.depth(),
{
    lemma_owner_range(state.frames, state.position(h));
}

} // verus!
