//! Native-side bookkeeping for embedding a garbage-collected script engine:
//! handles and the scopes that bound their validity, the contexts that gate
//! which operations a native entry point may perform, the registry of
//! native-backed classes, and the scheduler that carries work between the
//! engine's main thread and worker threads.

pub mod raw;
pub mod stamp;
pub mod root_set;
pub mod scope_laws;
pub mod scope;
pub mod call;
pub mod class;
pub mod result;
pub mod env;
pub mod context;
pub mod instance;
pub mod task;
pub mod threadsafecb;
pub mod prelude;
