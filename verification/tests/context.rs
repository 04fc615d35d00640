use neon::context::{CallContext, CallKind, ComputeContext, Context, ExecuteContext, Scoped};
use neon::env::Env;
use neon::raw::Isolate;
use neon::result::{Completion, Exception, Throw};
use neon::scope::ScopeError;

#[test]
fn nested_scope_ends_its_handles() {
    let mut cx = ExecuteContext::begin(Env::new(Isolate { address: 1 }));
    let outer = cx.root(Some(10)).unwrap();
    let (inner, seen) = cx.execute_scoped(|c: &mut ExecuteContext| {
        let h = c.root(Some(20)).unwrap();
        (h, c.resolve(h))
    });
    assert_eq!(seen, Some(20));
    assert_eq!(cx.resolve(inner), None);
    assert_eq!(cx.resolve(outer), Some(10));
    let env = cx.finish();
    assert_eq!(env.depth(), 0);
    assert_eq!(env.resolve(outer), None);
    assert_eq!(env.pending(), None);
}

#[test]
fn computed_value_survives_its_scope() {
    let mut cx = ExecuteContext::begin(Env::new(Isolate { address: 1 }));
    let mut made = None;
    let promoted = cx
        .compute_scoped(|c: &mut ComputeContext| {
            let scratch = c.root(Some(7))?;
            let h = c.root(Some(30))?;
            made = Some((scratch, h));
            Ok(h)
        })
        .unwrap();
    let (scratch, h) = made.unwrap();
    assert_eq!(cx.resolve(promoted), Some(30));
    assert_eq!(cx.resolve(h), None);
    assert_eq!(cx.resolve(scratch), None);
    assert_ne!(promoted, h);
    assert_eq!(cx.env_ref().depth(), 1);
}

#[test]
fn failed_computation_promotes_nothing() {
    let mut cx = ExecuteContext::begin(Env::new(Isolate { address: 1 }));
    let r = cx.compute_scoped(|c: &mut ComputeContext| {
        let h = c.root(Some(5))?;
        Err(c.throw(h))
    });
    assert_eq!(r, Err(Throw));
    assert_eq!(cx.env_ref().pending(), Some(Exception::Thrown(5)));
    // While the exception is pending no value is made.
    assert_eq!(cx.root(Some(6)), Err(Throw));
    assert_eq!(cx.env_ref().pending(), Some(Exception::Thrown(5)));
}

#[test]
fn allocation_failure_is_left_pending() {
    let mut cx = ExecuteContext::begin(Env::new(Isolate { address: 1 }));
    assert_eq!(cx.root(None), Err(Throw));
    assert!(cx.is_throwing());
    assert_eq!(cx.env_ref().pending(), Some(Exception::AllocationFailure));
}

#[test]
fn computation_outside_any_scope_is_refused() {
    let mut env = Env::new(Isolate { address: 1 });
    assert_eq!(env.root(Some(1)), Err(Throw));
    assert_eq!(env.pending(), Some(Exception::Misuse(ScopeError::NoActiveScope)));
}

#[test]
fn call_context_reads_the_call() {
    let env = Env::new(Isolate { address: 9 });
    let cx = CallContext::begin(env, 100, 200, &vec![11, 12, 13], CallKind::Function);
    let mut cx = match cx {
        Ok(cx) => cx,
        Err(_) => panic!("the call was refused"),
    };
    assert_eq!(cx.isolate(), Isolate { address: 9 });
    assert_eq!(cx.argument_count(), 3);
    assert!(!cx.is_construct_call());
    assert_eq!(cx.call_kind(), CallKind::Function);
    assert_eq!(cx.resolve(cx.this()), Some(100));
    assert_eq!(cx.resolve(cx.callee_data()), Some(200));
    let a1 = cx.argument(1).unwrap();
    assert_eq!(cx.resolve(a1), Some(12));
    assert_eq!(cx.argument_opt(2).and_then(|a| cx.resolve(a)), Some(13));
    let sum = cx.root(Some(36)).unwrap();
    cx.set_return(sum);
    let (env, completion) = cx.finish(Ok(()));
    assert_eq!(completion, Completion::Return(Some(36)));
    assert_eq!(env.depth(), 0);
    assert_eq!(env.resolve(a1), None);
}

#[test]
fn argument_beyond_the_count_is_rejected() {
    let env = Env::new(Isolate { address: 9 });
    let mut cx = match CallContext::begin(env, 1, 2, &vec![11, 12], CallKind::Method) {
        Ok(cx) => cx,
        Err(_) => panic!("the call was refused"),
    };
    assert_eq!(cx.argument_opt(2), None);
    assert_eq!(cx.argument_opt(-1), None);
    assert_eq!(cx.argument_opt(i32::MAX), None);
    assert_eq!(cx.argument(2), Err(Throw));
    let (env, completion) = cx.finish(Err(Throw));
    assert_eq!(completion, Completion::Throw(Exception::MissingArgument(2)));
    assert_eq!(env.pending(), None);
}

#[test]
fn call_without_return_value_returns_the_default() {
    let env = Env::new(Isolate { address: 9 });
    let cx = match CallContext::begin(env, 1, 2, &Vec::new(), CallKind::Construct) {
        Ok(cx) => cx,
        Err(_) => panic!("the call was refused"),
    };
    assert!(cx.is_construct_call());
    assert_eq!(cx.argument_count(), 0);
    let (_, completion) = cx.finish(Ok(()));
    assert_eq!(completion, Completion::Return(None));
}

#[test]
fn module_context_collects_exports() {
    let env = Env::new(Isolate { address: 1 });
    let mut cx = neon::context::ModuleContext::begin(env, 900);
    let exports = cx.exports();
    assert_eq!(cx.resolve(exports), Some(900));
    let hello = cx.root(Some(31)).unwrap();
    let answer = cx.root(Some(42)).unwrap();
    assert_eq!(cx.export(b"hello".to_vec(), hello), Ok(()));
    assert_eq!(cx.export(b"answer".to_vec(), answer), Ok(()));
    let (env, exported) = cx.finish(Ok(()));
    let exported = exported.unwrap();
    assert_eq!(exported.len(), 2);
    assert_eq!(exported[0].name(), &b"hello".to_vec());
    assert_eq!(exported[0].value(), 31);
    assert_eq!(exported[1].name(), &b"answer".to_vec());
    assert_eq!(exported[1].value(), 42);
    assert_eq!(env.depth(), 0);
    assert_eq!(env.resolve(exports), None);
}

#[test]
fn export_of_a_dead_handle_fails_the_module() {
    let env = Env::new(Isolate { address: 1 });
    let mut cx = neon::context::ModuleContext::begin(env, 900);
    let r = cx.export(b"ghost".to_vec(), neon::raw::Local { handle: 50 });
    assert_eq!(r, Err(Throw));
    let (env, exported) = cx.finish(r);
    assert_eq!(exported.err(), Some(Exception::Misuse(ScopeError::DeadHandle)));
    assert_eq!(env.pending(), None);
}

#[test]
fn module_that_signals_without_throwing_fails_unspecified() {
    let env = Env::new(Isolate { address: 1 });
    let cx = neon::context::ModuleContext::begin(env, 900);
    let (_, exported) = cx.finish(Err(Throw));
    assert_eq!(exported.err(), Some(Exception::Unspecified));
}

#[test]
fn first_exception_stays_pending() {
    let mut env = Env::new(Isolate { address: 1 });
    env.fail(Exception::AllocationFailure);
    env.fail(Exception::NotCallable);
    assert_eq!(env.take_pending(), Some(Exception::AllocationFailure));
    assert_eq!(env.take_pending(), None);
    assert!(!env.is_throwing());
}

#[test]
fn throwing_a_dead_handle_is_a_misuse() {
    let mut cx = ExecuteContext::begin(Env::new(Isolate { address: 1 }));
    let _ = cx.throw(neon::raw::Local { handle: 9 });
    let mut env = cx.finish();
    assert_eq!(env.take_pending(), Some(Exception::Misuse(ScopeError::DeadHandle)));
}

#[test]
fn stale_return_value_is_thrown_as_misuse() {
    let env = Env::new(Isolate { address: 9 });
    let mut cx = match CallContext::begin(env, 1, 2, &Vec::new(), CallKind::Function) {
        Ok(cx) => cx,
        Err(_) => panic!("the call was refused"),
    };
    let stale = cx.execute_scoped(|c: &mut ExecuteContext| c.root(Some(5)).unwrap());
    cx.set_return(stale);
    let (_, completion) = cx.finish(Ok(()));
    assert_eq!(completion, Completion::Throw(Exception::Misuse(ScopeError::DeadHandle)));
}

#[test]
fn scoped_contexts_nest_in_every_context() {
    let env = Env::new(Isolate { address: 9 });
    let mut cx = match CallContext::begin(env, 1, 2, &vec![3], CallKind::Method) {
        Ok(cx) => cx,
        Err(_) => panic!("the call was refused"),
    };
    let depth = cx.compute_scoped(|c: &mut ComputeContext| {
        let depth = c.execute_scoped(|e: &mut ExecuteContext| e.env_ref().depth());
        c.root(Some(depth))
    });
    let depth = depth.unwrap();
    assert_eq!(cx.resolve(depth), Some(3));
    assert_eq!(cx.env_ref().depth(), 1);
    assert_eq!(cx.env_ref().scopes().owner(depth), Some(0));
}

#[test]
fn compute_context_hands_out_what_it_produced() {
    let mut cx = ExecuteContext::begin(Env::new(Isolate { address: 1 }));
    let r = cx.compute_scoped(|c: &mut ComputeContext| Ok(neon::raw::Local { handle: 4242 }));
    assert_eq!(r, Err(Throw));
    assert_eq!(cx.env_ref().pending(), Some(Exception::Misuse(ScopeError::DeadHandle)));
    assert_eq!(cx.env_ref().depth(), 1);
}

#[test]
fn promoted_handle_is_the_same_value_under_another_handle() {
    let mut cx = ExecuteContext::begin(Env::new(Isolate { address: 1 }));
    let mut inner = None;
    let outer = cx
        .compute_scoped(|c: &mut ComputeContext| {
            let h = c.root(Some(77))?;
            inner = Some(h);
            Ok(h)
        })
        .unwrap();
    let inner = inner.unwrap();
    assert_ne!(outer, inner);
    assert_eq!(cx.resolve(outer), Some(77));
    assert!(cx.env_ref().scopes().same_handle(outer, outer));
    assert!(!cx.env_ref().scopes().same_handle(outer, inner));
}

fn nearly_exhausted(left: usize) -> Env {
    Env::from_scopes(neon::scope::ScopeStack::numbering_from(
        Isolate { address: 1 },
        usize::MAX - left,
    ))
}

#[test]
fn exhausted_handles_are_left_pending() {
    let mut cx = ExecuteContext::begin(nearly_exhausted(1));
    assert!(cx.root(Some(1)).is_ok());
    assert_eq!(cx.root(Some(2)), Err(Throw));
    assert_eq!(cx.env_ref().pending(), Some(Exception::Misuse(ScopeError::HandlesExhausted)));
}

#[test]
fn computation_without_a_handle_to_promote_into_does_not_run() {
    let mut cx = ExecuteContext::begin(nearly_exhausted(0));
    let mut ran = false;
    let r = cx.compute_scoped(|_: &mut ComputeContext| {
        ran = true;
        Err(Throw)
    });
    assert_eq!(r, Err(Throw));
    assert!(!ran);
    assert_eq!(cx.env_ref().pending(), Some(Exception::Misuse(ScopeError::HandlesExhausted)));
    assert_eq!(cx.env_ref().depth(), 1);
}

#[test]
fn call_that_needs_more_handles_than_are_left_is_refused() {
    let refused = CallContext::begin(nearly_exhausted(3), 1, 2, &vec![3, 4], CallKind::Function);
    match refused {
        Ok(_) => panic!("the call was taken"),
        Err(env) => {
            assert_eq!(env.pending(), Some(Exception::Misuse(ScopeError::HandlesExhausted)));
            assert_eq!(env.depth(), 0);
        }
    }
    let taken = CallContext::begin(nearly_exhausted(4), 1, 2, &vec![3, 4], CallKind::Function);
    assert!(taken.is_ok());
}

#[test]
fn module_without_a_handle_for_its_exports_gets_the_null_handle() {
    let cx = neon::context::ModuleContext::begin(nearly_exhausted(0), 900);
    assert_eq!(cx.exports(), neon::raw::Local::null());
    let (_, exported) = cx.finish(Ok(()));
    assert_eq!(exported.err(), Some(Exception::Misuse(ScopeError::HandlesExhausted)));
}
