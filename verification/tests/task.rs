use neon::context::{Context, TaskContext};
use neon::env::Env;
use neon::raw::{Isolate, Local};
use neon::result::{Completion, Exception, Throw};
use neon::task::{Task, TaskState};
use neon::threadsafecb::ThreadSafeCallback;

#[test]
fn task_delivers_the_result_of_its_work() {
    let env = Env::new(Isolate { address: 1 });
    let mut task = Task::new(
        || 21 * 2,
        |cx: &mut TaskContext, result: usize| {
            assert_eq!(result, 42);
            assert_eq!(cx.env_ref().depth(), 1);
            cx.root(Some(result))
        },
    );
    assert_eq!(task.state(), TaskState::Pending);
    assert!(task.run());
    assert_eq!(task.state(), TaskState::Running);
    let (env, completion) = task.complete(env);
    assert_eq!(completion, Some(Completion::Return(Some(42))));
    assert_eq!(task.state(), TaskState::Completed);
    assert_eq!(env.depth(), 0);
}

#[test]
fn completion_is_delivered_once_and_after_the_work() {
    let env = Env::new(Isolate { address: 1 });
    let mut task = Task::new(|| 5usize, |cx: &mut TaskContext, n: usize| cx.root(Some(n)));
    // Before the work has run there is nothing to deliver.
    let (env, completion) = task.complete(env);
    assert_eq!(completion, None);
    assert_eq!(task.state(), TaskState::Pending);
    assert!(task.run());
    // The work runs once.
    assert!(!task.run());
    let (env, completion) = task.complete(env);
    assert_eq!(completion, Some(Completion::Return(Some(5))));
    let (env, completion) = task.complete(env);
    assert_eq!(completion, None);
    assert!(!task.run());
    assert_eq!(task.state(), TaskState::Completed);
    assert_eq!(env.pending(), None);
}

#[test]
fn failed_completion_throws() {
    let env = Env::new(Isolate { address: 1 });
    let mut task = Task::new(
        || 8usize,
        |cx: &mut TaskContext, n: usize| {
            let error = cx.root(Some(n))?;
            Err(cx.throw(error))
        },
    );
    assert!(task.run());
    let (env, completion) = task.complete(env);
    assert_eq!(completion, Some(Completion::Throw(Exception::Thrown(8))));
    assert_eq!(env.pending(), None);

    let mut silent = Task::new(|| (), |_: &mut TaskContext, _: ()| Err(Throw));
    assert!(silent.run());
    let (env, completion) = silent.complete(env);
    assert_eq!(completion, Some(Completion::Throw(Exception::Unspecified)));

    let mut stale =
        Task::new(|| (), |_: &mut TaskContext, _: ()| Ok(Local { handle: 12345 }));
    assert!(stale.run());
    let (_, completion) = stale.complete(env);
    assert_eq!(
        completion,
        Some(Completion::Throw(Exception::Misuse(neon::scope::ScopeError::DeadHandle)))
    );
}

#[test]
fn each_request_runs_the_trampoline_once() {
    let mut cx = TaskContext::begin(Env::new(Isolate { address: 1 }));
    let this = cx.root(Some(70)).unwrap();
    let function = cx.root(Some(80)).unwrap();
    let mut callback: ThreadSafeCallback<u32> =
        ThreadSafeCallback::new(&cx, this, function).unwrap();
    let mut env = cx.finish();
    assert_eq!(callback.this(), 70);
    assert_eq!(callback.callback(), 80);
    for n in 0..5 {
        callback.call(n);
    }
    assert_eq!(callback.pending(), 5);
    let mut seen = Vec::new();
    let mut runs = 0;
    loop {
        let (back, served) = callback.serve(env, |cx: &mut TaskContext, this, function, n| {
            assert_eq!((this, function), (70, 80));
            assert_eq!(cx.env_ref().depth(), 1);
            seen.push(n);
        });
        env = back;
        if !served {
            break;
        }
        runs += 1;
    }
    assert_eq!(runs, 5);
    seen.sort();
    assert_eq!(seen, vec![0, 1, 2, 3, 4]);
    assert_eq!(callback.pending(), 0);
    assert!(callback.delete().is_empty());
}

#[test]
fn callback_of_a_dead_handle_is_refused() {
    let mut cx = TaskContext::begin(Env::new(Isolate { address: 1 }));
    let this = cx.root(Some(70)).unwrap();
    let made: Option<ThreadSafeCallback<u32>> =
        ThreadSafeCallback::new(&cx, this, Local { handle: 999 });
    assert!(made.is_none());
    let made: Option<ThreadSafeCallback<u32>> = ThreadSafeCallback::new(&cx, Local::null(), this);
    assert!(made.is_none());
}

#[test]
fn deleted_callback_hands_back_what_was_not_served() {
    let mut cx = TaskContext::begin(Env::new(Isolate { address: 1 }));
    let this = cx.root(Some(70)).unwrap();
    let mut callback: ThreadSafeCallback<u32> = ThreadSafeCallback::new(&cx, this, this).unwrap();
    callback.call(1);
    callback.call(2);
    let env = cx.finish();
    let (_, served) = callback.serve(env, |_: &mut TaskContext, _, _, _| {});
    assert!(served);
    let unserved = callback.delete();
    assert_eq!(unserved.len(), 1);
}
