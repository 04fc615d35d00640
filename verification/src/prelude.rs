//! The names that native code needs most often.

pub use crate::context::CallContext;
pub use crate::context::CallKind;
pub use crate::context::ComputeContext;
pub use crate::context::Context;
pub use crate::context::ExecuteContext;
pub use crate::context::ModuleContext;
pub use crate::context::Scoped;
pub use crate::context::TaskContext;
pub use crate::env::Env;
pub use crate::instance::Class;
pub use crate::instance::Instances;
pub use crate::raw::Local;
pub use crate::result::Completion;
pub use crate::result::Exception;
pub use crate::result::JsResult;
pub use crate::result::NeonResult;
pub use crate::result::Throw;
pub use crate::task::Task;
pub use crate::threadsafecb::ThreadSafeCallback;
