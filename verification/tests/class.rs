use neon::class::{ClassMap, ClassMetadata};
use neon::context::{CallContext, CallKind, Context};
use neon::env::Env;
use neon::instance::{Class, Construction, Instances, Invocation};
use neon::raw::{CCallback, Isolate};
use neon::result::{Completion, Exception, Throw};
use neon::scope::ScopeError;
use std::cell::Cell;
use std::rc::Rc;

struct Counter {
    field: usize,
}

impl Class for Counter {
    fn allocate(_cx: &mut CallContext) -> Result<Self, Throw> {
        Ok(Counter { field: 99 })
    }

    fn construct(&mut self, _cx: &mut CallContext) -> Result<(), Throw> {
        self.field = 0;
        Ok(())
    }

    fn call(cx: &mut CallContext) -> Result<(), Throw> {
        Err(cx.fail(Exception::NotCallable))
    }

    fn method(&mut self, index: usize, cx: &mut CallContext) -> Result<(), Throw> {
        assert_eq!(index, 0);
        self.field += 1;
        let h = cx.root(Some(self.field))?;
        cx.set_return(h);
        Ok(())
    }

    fn finalize(self) {}
}

fn kernel(address: usize) -> CCallback {
    CCallback { static_callback: 1, dynamic_callback: address }
}

fn counter_metadata() -> ClassMetadata {
    let mut metadata =
        ClassMetadata::new(b"Counter".to_vec(), kernel(10), kernel(11), kernel(12), 13).unwrap();
    assert!(metadata.add_method(b"increment".to_vec(), 500));
    metadata
}

fn call(env: Env, this: usize, kind: CallKind) -> CallContext {
    match CallContext::begin(env, this, 0, &Vec::new(), kind) {
        Ok(cx) => cx,
        Err(_) => panic!("the call was refused"),
    }
}

#[test]
fn counter_keeps_its_state_across_calls() {
    let mut env = Env::new(Isolate { address: 1 });
    assert!(env.register_class(77, counter_metadata()));
    let mut instances: Instances<Counter> = Instances::new();
    let name = b"increment".to_vec();
    let object = 4000;

    let mut cx = call(env, object, CallKind::Construct);
    assert_eq!(instances.construct(&mut cx), Ok(()));
    let (env, completion) = cx.finish(Ok(()));
    assert_eq!(completion, Completion::Return(None));
    assert!(instances.has_instance(object));
    assert_eq!(instances.len(), 1);

    let mut cx = call(env, object, CallKind::Method);
    let r = {
        let metadata = cx.env_ref().class(77).unwrap();
        assert_eq!(metadata.method(&name), Some(500));
        let metadata = counter_metadata();
        instances.call_method(&metadata, &name, &mut cx)
    };
    let (env, completion) = cx.finish(r);
    assert_eq!(completion, Completion::Return(Some(1)));

    let mut cx = call(env, object, CallKind::Method);
    let r = instances.call_method(&counter_metadata(), &name, &mut cx);
    let (_, completion) = cx.finish(r);
    assert_eq!(completion, Completion::Return(Some(2)));
}

#[test]
fn method_on_a_stranger_is_refused() {
    let env = Env::new(Isolate { address: 1 });
    let mut instances: Instances<Counter> = Instances::new();
    let mut cx = call(env, 4000, CallKind::Method);
    let r = instances.call_method(&counter_metadata(), &b"increment".to_vec(), &mut cx);
    assert_eq!(r, Err(Throw));
    let (_, completion) = cx.finish(r);
    assert_eq!(completion, Completion::Throw(Exception::WrongReceiver));
}

#[test]
fn unknown_method_is_refused() {
    let env = Env::new(Isolate { address: 1 });
    let mut instances: Instances<Counter> = Instances::new();
    let mut cx = call(env, 4000, CallKind::Construct);
    assert_eq!(instances.construct(&mut cx), Ok(()));
    let (env, _) = cx.finish(Ok(()));
    let mut cx = call(env, 4000, CallKind::Method);
    let r = instances.call_method(&counter_metadata(), &b"decrement".to_vec(), &mut cx);
    let (_, completion) = cx.finish(r);
    assert_eq!(completion, Completion::Throw(Exception::NotCallable));
}

#[test]
fn class_called_without_new_runs_the_call_kernel() {
    let env = Env::new(Isolate { address: 1 });
    let mut instances: Instances<Counter> = Instances::new();
    let mut cx = call(env, 4000, CallKind::Function);
    let r = instances.construct(&mut cx);
    assert_eq!(r, Err(Throw));
    assert_eq!(instances.len(), 0);
    let (_, completion) = cx.finish(r);
    assert_eq!(completion, Completion::Throw(Exception::NotCallable));
}

#[test]
fn constructing_an_instance_twice_is_refused() {
    let env = Env::new(Isolate { address: 1 });
    let mut instances: Instances<Counter> = Instances::new();
    let mut cx = call(env, 4000, CallKind::Construct);
    assert_eq!(instances.construct(&mut cx), Ok(()));
    let (env, _) = cx.finish(Ok(()));
    let mut cx = call(env, 4000, CallKind::Construct);
    let r = instances.construct(&mut cx);
    let (_, completion) = cx.finish(r);
    assert_eq!(completion, Completion::Throw(Exception::WrongReceiver));
    assert_eq!(instances.len(), 1);
}

#[test]
fn storage_is_given_up_once() {
    let env = Env::new(Isolate { address: 1 });
    let mut instances: Instances<Counter> = Instances::new();
    let mut cx = call(env, 4000, CallKind::Construct);
    assert_eq!(instances.construct(&mut cx), Ok(()));
    let (env, _) = cx.finish(Ok(()));
    let mut cx = call(env, 4001, CallKind::Construct);
    assert_eq!(instances.construct(&mut cx), Ok(()));
    let _ = cx.finish(Ok(()));
    assert!(instances.finalize(4000));
    assert!(!instances.has_instance(4000));
    assert!(instances.has_instance(4001));
    assert!(!instances.finalize(4000));
    assert_eq!(instances.len(), 1);
}

#[test]
fn attach_and_detach_hand_the_storage_back() {
    let mut instances: Instances<u32> = Instances::new();
    assert_eq!(instances.attach(1, 10), None);
    assert_eq!(instances.attach(2, 20), None);
    assert_eq!(instances.attach(1, 30), Some(30));
    assert_eq!(instances.detach(1), Some(10));
    assert_eq!(instances.detach(1), None);
    assert_eq!(instances.detach(2), Some(20));
    assert_eq!(instances.len(), 0);
}

#[test]
fn second_registration_keeps_the_first_metadata() {
    let mut env = Env::new(Isolate { address: 1 });
    assert!(!env.has_class_map());
    assert!(env.class(77).is_none());
    assert!(env.register_class(77, counter_metadata()));
    assert!(env.has_class_map());
    let other =
        ClassMetadata::new(b"Other".to_vec(), kernel(20), kernel(21), kernel(22), 23).unwrap();
    assert!(!env.register_class(77, other));
    let metadata = env.class(77).unwrap();
    assert_eq!(metadata.name(), &b"Counter".to_vec());
    assert_eq!(metadata.allocate_kernel(), kernel(10));
    assert_eq!(metadata.construct_kernel(), kernel(11));
    assert_eq!(metadata.call_kernel(), kernel(12));
    assert_eq!(metadata.drop_function(), 13);
    assert_eq!(metadata.method_count(), 1);
    assert!(env.class(78).is_none());
}

#[test]
fn class_map_counts_each_class_once() {
    let mut map = ClassMap::new();
    assert_eq!(map.len(), 0);
    assert!(map.register(1, counter_metadata()));
    assert!(!map.register(1, counter_metadata()));
    assert!(map.register(2, counter_metadata()));
    assert_eq!(map.len(), 2);
    assert!(map.contains(1));
    assert!(!map.contains(3));
    assert!(map.get(3).is_none());
}

#[test]
fn method_table_refuses_a_second_method_of_a_name() {
    let mut metadata = counter_metadata();
    assert!(!metadata.add_method(b"increment".to_vec(), 501));
    assert_eq!(metadata.method(&b"increment".to_vec()), Some(500));
    assert!(metadata.add_method(b"reset".to_vec(), 502));
    assert_eq!(metadata.method_index(&b"reset".to_vec()), Some(1));
    assert_eq!(metadata.method(&b"incremen".to_vec()), None);
    assert_eq!(metadata.method(&b"incremenu".to_vec()), None);
    assert_eq!(metadata.method_count(), 2);
}

#[test]
fn default_callback_is_empty() {
    let callback = CCallback::default();
    assert_eq!(callback.static_callback, 0);
    assert_eq!(callback.dynamic_callback, 0);
}

#[test]
fn constructor_call_is_admitted_by_what_it_is_bound_to() {
    let env = Env::new(Isolate { address: 1 });
    let mut instances: Instances<Counter> = Instances::new();

    let cx = call(env, 4000, CallKind::Function);
    assert_eq!(instances.admit_construction(&cx), Construction::Call);
    let (env, _) = cx.finish(Ok(()));

    let mut cx = call(env, 4000, CallKind::Construct);
    assert_eq!(instances.admit_construction(&cx), Construction::Construct(4000));
    assert_eq!(instances.construct(&mut cx), Ok(()));
    assert_eq!(
        instances.admit_construction(&cx),
        Construction::Refused(Exception::WrongReceiver)
    );
    let (env, _) = cx.finish(Ok(()));

    // A call whose receiver's handle has ended is refused as a misuse.
    let cx = call(env, 4001, CallKind::Construct);
    let (mut env, _) = cx.finish(Ok(()));
    let mut leftover = call(Env::new(Isolate { address: 2 }), 4001, CallKind::Construct);
    std::mem::swap(leftover.env_mut(), &mut env);
    assert_eq!(
        instances.admit_construction(&leftover),
        Construction::Refused(Exception::Misuse(ScopeError::DeadHandle))
    );
}

#[test]
fn method_call_is_admitted_by_name_and_receiver() {
    let env = Env::new(Isolate { address: 1 });
    let mut instances: Instances<Counter> = Instances::new();
    let mut metadata = counter_metadata();
    assert!(metadata.add_method(b"reset".to_vec(), 501));
    for object in [4000, 4001] {
        assert!(instances.attach(object, Counter { field: 0 }).is_none());
    }
    let cx = call(env, 4001, CallKind::Method);
    assert_eq!(
        instances.admit_invocation(&metadata, &b"reset".to_vec(), &cx),
        Invocation::Run { object: 4001, index: 1 }
    );
    assert_eq!(
        instances.admit_invocation(&metadata, &b"increment".to_vec(), &cx),
        Invocation::Run { object: 4001, index: 0 }
    );
    assert_eq!(
        instances.admit_invocation(&metadata, &b"missing".to_vec(), &cx),
        Invocation::Refused(Exception::NotCallable)
    );
    let (env, _) = cx.finish(Ok(()));
    let cx = call(env, 4002, CallKind::Method);
    assert_eq!(
        instances.admit_invocation(&metadata, &b"reset".to_vec(), &cx),
        Invocation::Refused(Exception::WrongReceiver)
    );
}

#[test]
fn method_changes_the_storage_of_its_receiver_only() {
    let env = Env::new(Isolate { address: 1 });
    let mut instances: Instances<Counter> = Instances::new();
    let metadata = counter_metadata();
    let name = b"increment".to_vec();
    assert!(instances.attach(1, Counter { field: 10 }).is_none());
    assert!(instances.attach(2, Counter { field: 20 }).is_none());
    let mut cx = call(env, 2, CallKind::Method);
    assert_eq!(instances.call_method(&metadata, &name, &mut cx), Ok(()));
    let (_, completion) = cx.finish(Ok(()));
    assert_eq!(completion, Completion::Return(Some(21)));
    assert_eq!(instances.detach(1).map(|c| c.field), Some(10));
    assert_eq!(instances.detach(2).map(|c| c.field), Some(21));
}

struct Unmakeable;

impl Class for Unmakeable {
    fn allocate(cx: &mut CallContext) -> Result<Self, Throw> {
        Err(cx.fail(Exception::AllocationFailure))
    }

    fn construct(&mut self, _cx: &mut CallContext) -> Result<(), Throw> {
        Ok(())
    }

    fn call(_cx: &mut CallContext) -> Result<(), Throw> {
        Ok(())
    }

    fn method(&mut self, _index: usize, _cx: &mut CallContext) -> Result<(), Throw> {
        Ok(())
    }

    fn finalize(self) {}
}

#[test]
fn failed_allocation_makes_no_instance() {
    let env = Env::new(Isolate { address: 1 });
    let mut instances: Instances<Unmakeable> = Instances::new();
    let mut cx = call(env, 4000, CallKind::Construct);
    let r = instances.construct(&mut cx);
    assert_eq!(r, Err(Throw));
    assert!(!instances.has_instance(4000));
    let (_, completion) = cx.finish(r);
    assert_eq!(completion, Completion::Throw(Exception::AllocationFailure));
}

struct Fragile {
    given_up: Option<Rc<Cell<u32>>>,
}

impl Class for Fragile {
    fn allocate(_cx: &mut CallContext) -> Result<Self, Throw> {
        Ok(Fragile { given_up: None })
    }

    fn construct(&mut self, cx: &mut CallContext) -> Result<(), Throw> {
        Err(cx.fail(Exception::Unspecified))
    }

    fn call(_cx: &mut CallContext) -> Result<(), Throw> {
        Ok(())
    }

    fn method(&mut self, _index: usize, _cx: &mut CallContext) -> Result<(), Throw> {
        Ok(())
    }

    fn finalize(self) {
        if let Some(count) = self.given_up {
            count.set(count.get() + 1);
        }
    }
}

#[test]
fn failed_constructor_keeps_the_storage_until_the_object_is_reclaimed() {
    let env = Env::new(Isolate { address: 1 });
    let mut instances: Instances<Fragile> = Instances::new();
    let mut cx = call(env, 4000, CallKind::Construct);
    assert_eq!(instances.construct(&mut cx), Err(Throw));
    assert!(instances.has_instance(4000));
    assert!(instances.finalize(4000));
    assert!(!instances.has_instance(4000));
}

#[test]
fn finalizer_runs_once_for_each_instance() {
    let count = Rc::new(Cell::new(0));
    let mut instances: Instances<Fragile> = Instances::new();
    assert!(instances.attach(5, Fragile { given_up: Some(Rc::clone(&count)) }).is_none());
    assert!(instances.attach(6, Fragile { given_up: Some(Rc::clone(&count)) }).is_none());
    assert_eq!(count.get(), 0);
    assert!(instances.finalize(5));
    assert_eq!(count.get(), 1);
    assert!(!instances.finalize(5));
    assert_eq!(count.get(), 1);
    assert!(instances.finalize(6));
    assert_eq!(count.get(), 2);
    assert_eq!(instances.len(), 0);
}

#[test]
fn overlong_names_are_refused() {
    if usize::BITS > 32 {
        // A name of more than `u32::MAX` bytes cannot be made cheaply; a
        // name of an ordinary length and the empty name are taken.
        assert!(ClassMetadata::new(Vec::new(), kernel(1), kernel(2), kernel(3), 4).is_some());
        let mut metadata = counter_metadata();
        assert!(metadata.add_method(Vec::new(), 7));
        assert_eq!(metadata.method(&Vec::new()), Some(7));
    }
}
