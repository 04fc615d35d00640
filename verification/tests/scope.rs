use neon::raw::{
    EscapableHandleScope, HandleScope, InheritedHandleScope, Isolate, Local,
    ESCAPABLE_HANDLE_SCOPE_SIZE, HANDLE_SCOPE_SIZE,
};
use neon::root_set::ScopeKind;
use neon::scope::{ScopeError, ScopeStack};
use neon::stamp::{load_word, store_word};

fn entered(address: usize) -> (ScopeStack, HandleScope) {
    let mut stack = ScopeStack::new(Isolate { address });
    let mut scope = HandleScope::new();
    assert_eq!(stack.enter(&mut scope), Ok(()));
    (stack, scope)
}

#[test]
fn scope_storage_starts_zeroed() {
    let plain = HandleScope::new();
    assert_eq!(HANDLE_SCOPE_SIZE, 24);
    assert_eq!(plain.fields, [0u8; 24]);
    let escapable = EscapableHandleScope::new();
    assert_eq!(ESCAPABLE_HANDLE_SCOPE_SIZE, 32);
    assert_eq!(escapable.fields, [0u8; 32]);
}

#[test]
fn null_handle_designates_nothing() {
    let (mut stack, _scope) = entered(1);
    assert_eq!(Local::null(), Local { handle: 0 });
    let first = stack.root(9).unwrap();
    assert_eq!(first, Local { handle: 1 });
    assert_eq!(stack.resolve(Local::null()), None);
    assert!(!stack.is_live(Local::null()));
    assert_eq!(stack.owner(Local::null()), None);
}

#[test]
fn handle_ends_with_its_scope() {
    let (mut stack, mut outer) = entered(7);
    let kept = stack.root(100).unwrap();
    let mut inner = HandleScope::new();
    assert_eq!(stack.enter(&mut inner), Ok(()));
    let h = stack.root(200).unwrap();
    assert_eq!(stack.resolve(h), Some(200));
    assert_eq!(stack.owner(h), Some(1));
    assert_eq!(stack.owner(kept), Some(0));
    assert_eq!(stack.exit(&mut inner), Ok(()));
    assert_eq!(stack.resolve(h), None);
    assert_eq!(stack.resolve(kept), Some(100));
    // A handle made later never takes the place of the one that ended.
    let later = stack.root(300).unwrap();
    assert_ne!(later, h);
    assert_eq!(stack.resolve(h), None);
    assert_eq!(stack.exit(&mut outer), Ok(()));
    assert_eq!(stack.resolve(kept), None);
    assert_eq!(stack.resolve(later), None);
    assert_eq!(stack.depth(), 0);
}

#[test]
fn handles_are_numbered_in_turn() {
    let (mut stack, _scope) = entered(7);
    assert_eq!(stack.remaining(), usize::MAX - 1);
    let handles = stack.root_all(&vec![5, 6, 7]).unwrap();
    assert_eq!(handles, vec![Local { handle: 1 }, Local { handle: 2 }, Local { handle: 3 }]);
    assert_eq!(stack.resolve(handles[0]), Some(5));
    assert_eq!(stack.resolve(handles[1]), Some(6));
    assert_eq!(stack.resolve(handles[2]), Some(7));
    assert_eq!(stack.root(8), Ok(Local { handle: 4 }));
    assert_eq!(stack.remaining(), usize::MAX - 5);
    assert_eq!(stack.resolve(Local { handle: 5 }), None);
}

#[test]
fn rooting_outside_any_scope_is_refused() {
    let mut stack = ScopeStack::new(Isolate { address: 7 });
    assert_eq!(stack.root(1), Err(ScopeError::NoActiveScope));
    assert_eq!(stack.root_all(&vec![1, 2]), Err(ScopeError::NoActiveScope));
    assert_eq!(stack.innermost_kind(), None);
    let mut escapable = EscapableHandleScope::new();
    assert_eq!(stack.enter_escapable(&mut escapable), Err(ScopeError::NoActiveScope));
    assert_eq!(escapable.fields, [0u8; 32]);
    assert_eq!(stack.depth(), 0);
}

#[test]
fn entered_storage_cannot_be_entered_again() {
    let (mut stack, mut scope) = entered(7);
    assert_eq!(stack.enter(&mut scope), Err(ScopeError::AlreadyEntered));
    assert_eq!(stack.depth(), 1);
    let mut escapable = EscapableHandleScope::new();
    assert_eq!(stack.enter_escapable(&mut escapable), Ok(()));
    assert_eq!(stack.enter_escapable(&mut escapable), Err(ScopeError::AlreadyEntered));
    assert_eq!(stack.depth(), 2);
    // Once exited, the storage serves again.
    assert_eq!(stack.exit_escapable(&mut escapable), Ok(()));
    assert_eq!(stack.enter_escapable(&mut escapable), Ok(()));
    assert_eq!(stack.depth(), 2);
}

#[test]
fn exit_out_of_turn_is_refused() {
    let (mut stack, mut outer) = entered(7);
    let mut inner = HandleScope::new();
    assert_eq!(stack.enter(&mut inner), Ok(()));
    let h = stack.root(1).unwrap();
    let stamped = outer;
    assert_eq!(stack.exit(&mut outer), Err(ScopeError::NotInnermost));
    assert_eq!(outer.fields, stamped.fields);
    assert_eq!(stack.depth(), 2);
    assert_eq!(stack.resolve(h), Some(1));
    let mut fresh = HandleScope::new();
    assert_eq!(stack.exit(&mut fresh), Err(ScopeError::NotInnermost));
    assert_eq!(stack.exit(&mut inner), Ok(()));
    assert_eq!(stack.exit(&mut inner), Err(ScopeError::NotInnermost));
    assert_eq!(stack.exit(&mut outer), Ok(()));
    assert_eq!(stack.exit(&mut outer), Err(ScopeError::NotInnermost));
}

#[test]
fn scope_of_another_instance_is_refused() {
    let (mut one, mut scope_of_one) = entered(1);
    let (mut two, mut scope_of_two) = entered(2);
    assert_eq!(one.exit(&mut scope_of_two), Err(ScopeError::NotInnermost));
    assert_eq!(two.exit(&mut scope_of_one), Err(ScopeError::NotInnermost));
    assert_eq!(one.exit(&mut scope_of_one), Ok(()));
    assert_eq!(two.exit(&mut scope_of_two), Ok(()));
}

#[test]
fn scope_of_another_kind_is_refused() {
    let (mut stack, _outer) = entered(7);
    let mut escapable = EscapableHandleScope::new();
    assert_eq!(stack.enter_escapable(&mut escapable), Ok(()));
    assert_eq!(stack.innermost_kind(), Some(ScopeKind::Escapable));
    let mut lookalike = HandleScope::new();
    lookalike.fields.copy_from_slice(&escapable.fields[..24]);
    assert_eq!(stack.exit(&mut lookalike), Err(ScopeError::NotInnermost));
    assert_eq!(stack.exit_inherited(InheritedHandleScope), Err(ScopeError::NotInnermost));
    assert_eq!(stack.exit_escapable(&mut escapable), Ok(()));
    assert_eq!(stack.innermost_kind(), Some(ScopeKind::Plain));
}

#[test]
fn stamp_records_instance_depth_and_mark() {
    let (mut stack, outer) = entered(0x1234);
    assert_eq!(load_word(&outer.fields, 0), 0x1234);
    assert_eq!(load_word(&outer.fields, 1), 1);
    assert_eq!(load_word(&outer.fields, 2), 0);
    stack.root_all(&vec![1, 2, 3]).unwrap();
    let mut inner = EscapableHandleScope::new();
    stack.enter_escapable(&mut inner).unwrap();
    assert_eq!(load_word(&inner.fields, 0), 0x1234);
    assert_eq!(load_word(&inner.fields, 1), 2);
    assert_eq!(load_word(&inner.fields, 2), 4);
    assert_eq!(load_word(&inner.fields, 3), 0);
    stack.exit_escapable(&mut inner).unwrap();
    assert_eq!(load_word(&inner.fields, 1), 0);
}

#[test]
fn words_are_little_endian_and_apart() {
    let mut fields = [0u8; 24];
    store_word(&mut fields, 1, 0x0102_0304_0506_0708);
    assert_eq!(&fields[..8], &[0u8; 8]);
    assert_eq!(&fields[8..16], &[8, 7, 6, 5, 4, 3, 2, 1]);
    assert_eq!(&fields[16..], &[0u8; 8]);
    store_word(&mut fields, 2, u64::MAX);
    assert_eq!(load_word(&fields, 0), 0);
    assert_eq!(load_word(&fields, 1), 0x0102_0304_0506_0708);
    assert_eq!(load_word(&fields, 2), u64::MAX);
}

#[test]
fn escape_keeps_the_value() {
    let (mut stack, mut outer) = entered(7);
    let mut inner = EscapableHandleScope::new();
    assert_eq!(stack.enter_escapable(&mut inner), Ok(()));
    let scratch = stack.root(41).unwrap();
    let h = stack.root(42).unwrap();
    let promoted = stack.escape(&inner, h).unwrap();
    assert_ne!(promoted, h);
    assert!(stack.same_handle(promoted, h));
    assert!(!stack.same_handle(promoted, scratch));
    assert_eq!(stack.owner(promoted), Some(0));
    assert_eq!(stack.owner(h), Some(1));
    assert_eq!(stack.exit_escapable(&mut inner), Ok(()));
    assert_eq!(stack.resolve(promoted), Some(42));
    assert_eq!(stack.resolve(h), None);
    assert_eq!(stack.resolve(scratch), None);
    assert!(!stack.same_handle(promoted, h));
    assert_eq!(stack.exit(&mut outer), Ok(()));
    assert_eq!(stack.resolve(promoted), None);
}

#[test]
fn escape_is_granted_once() {
    let (mut stack, _outer) = entered(7);
    let mut inner = EscapableHandleScope::new();
    stack.enter_escapable(&mut inner).unwrap();
    let a = stack.root(1).unwrap();
    let b = stack.root(2).unwrap();
    let promoted = stack.escape(&inner, a).unwrap();
    assert_eq!(stack.escape(&inner, b), Err(ScopeError::AlreadyEscaped));
    assert_eq!(stack.resolve(promoted), Some(1));
}

#[test]
fn escape_of_a_dead_handle_is_refused() {
    let (mut stack, _outer) = entered(7);
    let mut inner = EscapableHandleScope::new();
    stack.enter_escapable(&mut inner).unwrap();
    // The place that the scope keeps carries a number and no value yet.
    let kept = Local { handle: 1 };
    assert_eq!(stack.resolve(kept), None);
    assert_eq!(stack.owner(kept), Some(0));
    assert_eq!(stack.escape(&inner, kept), Err(ScopeError::DeadHandle));
    assert_eq!(stack.escape(&inner, Local { handle: 77 }), Err(ScopeError::DeadHandle));
    let h = stack.root(5).unwrap();
    assert_eq!(stack.escape(&inner, h), Ok(kept));
}

#[test]
fn escape_out_of_turn_is_refused() {
    let (mut stack, _outer) = entered(7);
    let mut inner = EscapableHandleScope::new();
    stack.enter_escapable(&mut inner).unwrap();
    let h = stack.root(5).unwrap();
    let mut innermost = HandleScope::new();
    stack.enter(&mut innermost).unwrap();
    assert_eq!(stack.escape(&inner, h), Err(ScopeError::NotInnermost));
    stack.exit(&mut innermost).unwrap();
    assert!(stack.escape(&inner, h).is_ok());
}

#[test]
fn nested_escapes_climb_one_scope_each() {
    let (mut stack, _outer) = entered(7);
    let mut middle = EscapableHandleScope::new();
    stack.enter_escapable(&mut middle).unwrap();
    let mut inner = EscapableHandleScope::new();
    stack.enter_escapable(&mut inner).unwrap();
    let h = stack.root(9).unwrap();
    let up_one = stack.escape(&inner, h).unwrap();
    assert_eq!(stack.owner(up_one), Some(1));
    stack.exit_escapable(&mut inner).unwrap();
    let up_two = stack.escape(&middle, up_one).unwrap();
    assert_eq!(stack.owner(up_two), Some(0));
    stack.exit_escapable(&mut middle).unwrap();
    assert_eq!(stack.resolve(up_one), None);
    assert_eq!(stack.resolve(up_two), Some(9));
}

#[test]
fn inherited_scope_holds_handles() {
    let mut stack = ScopeStack::new(Isolate { address: 7 });
    stack.enter_inherited(InheritedHandleScope);
    assert_eq!(stack.innermost_kind(), Some(ScopeKind::Inherited));
    let h = stack.root(3).unwrap();
    let mut plain = HandleScope::new();
    assert_eq!(stack.exit(&mut plain), Err(ScopeError::NotInnermost));
    assert_eq!(stack.exit_inherited(InheritedHandleScope), Ok(()));
    assert_eq!(stack.resolve(h), None);
    assert_eq!(stack.exit_inherited(InheritedHandleScope), Err(ScopeError::NotInnermost));
}

#[test]
fn unwinding_exits_every_scope_from_a_depth_on() {
    let (mut stack, _outer) = entered(7);
    let kept = stack.root(1).unwrap();
    let mut a = HandleScope::new();
    stack.enter(&mut a).unwrap();
    let in_a = stack.root(2).unwrap();
    let mut b = EscapableHandleScope::new();
    stack.enter_escapable(&mut b).unwrap();
    let in_b = stack.root(3).unwrap();
    stack.unwind_to(5);
    assert_eq!(stack.depth(), 3);
    stack.unwind_to(1);
    assert_eq!(stack.depth(), 1);
    assert_eq!(stack.resolve(kept), Some(1));
    assert_eq!(stack.resolve(in_a), None);
    assert_eq!(stack.resolve(in_b), None);
    stack.unwind_to(0);
    assert_eq!(stack.depth(), 0);
    assert_eq!(stack.resolve(kept), None);
}

#[test]
fn stack_knows_its_instance() {
    let stack = ScopeStack::new(Isolate { address: 55 });
    assert_eq!(stack.isolate(), Isolate { address: 55 });
    assert_eq!(neon::call::current_isolate(&stack), Isolate { address: 55 });
}

#[test]
fn last_handle_number_is_never_given_out() {
    let mut stack = ScopeStack::numbering_from(Isolate { address: 7 }, usize::MAX - 2);
    let mut scope = HandleScope::new();
    stack.enter(&mut scope).unwrap();
    assert_eq!(stack.remaining(), 2);
    assert_eq!(stack.root_all(&vec![1, 2, 3]), Err(ScopeError::HandlesExhausted));
    assert_eq!(stack.remaining(), 2);
    assert_eq!(stack.root(1), Ok(Local { handle: usize::MAX - 2 }));
    let mut escapable = EscapableHandleScope::new();
    assert_eq!(stack.enter_escapable(&mut escapable), Ok(()));
    assert_eq!(stack.remaining(), 0);
    assert_eq!(stack.root(2), Err(ScopeError::HandlesExhausted));
    assert_eq!(stack.root_all(&vec![2]), Err(ScopeError::HandlesExhausted));
    assert_eq!(stack.root_all(&Vec::new()), Ok(Vec::new()));
    let mut second = EscapableHandleScope::new();
    assert_eq!(stack.enter_escapable(&mut second), Err(ScopeError::HandlesExhausted));
    assert_eq!(second.fields, [0u8; 32]);
    assert_eq!(stack.depth(), 2);
    assert_eq!(stack.resolve(Local { handle: usize::MAX }), None);
    assert_eq!(stack.resolve(Local { handle: usize::MAX - 2 }), Some(1));
}

#[test]
fn numbering_starts_above_the_null_handle() {
    let mut stack = ScopeStack::numbering_from(Isolate { address: 7 }, 0);
    let mut scope = HandleScope::new();
    stack.enter(&mut scope).unwrap();
    assert_eq!(stack.root(5), Ok(Local { handle: 1 }));
    let mut later = ScopeStack::numbering_from(Isolate { address: 7 }, 40);
    let mut scope = HandleScope::new();
    later.enter(&mut scope).unwrap();
    assert_eq!(later.root(5), Ok(Local { handle: 40 }));
}
