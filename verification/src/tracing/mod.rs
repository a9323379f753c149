//! Building, evaluating and differentiating traced functions.

pub mod accumulation;
pub mod consistency;
pub mod extension;
pub mod function;
pub mod ordering;
pub mod reach;
pub mod session;
pub mod tracer;

pub use function::TraceableFn;
pub use session::TraceSession;
pub use tracer::{Tensor, Tracer};
