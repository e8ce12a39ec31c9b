//! Run deeply recursive computations on a heap-resident stack of frames,
//! driven by a trampoline loop, so the native call stack stays O(1).
//!
//! The pieces:
//! - [`pinned_vec::PinnedVec`]: a block-doubling arena that never relocates
//!   stored elements, so a frame keeps its slot for its whole lifetime;
//! - [`pend_once::PendOnce`]: a one-shot suspension marker, the yield point
//!   a frame parks at while its child runs;
//! - [`engine`]: the shared hand-off slot ([`engine::Context`]), the
//!   suspendable state-machine interface ([`engine::Frame`]), and the
//!   trampoline driver ([`engine::execute`]);
//! - [`programs`]: recursive computations written as frames and proved to
//!   return exactly the value of the recursion each encodes.

pub mod engine;
pub mod pend_once;
pub mod pinned_vec;
pub mod programs;

pub use engine::Context;
pub use engine::Frame;
pub use engine::Step;
pub use engine::execute;
pub use engine::execute_metered;
pub use engine::get_result;
pub use engine::set_next;
pub use pend_once::PendOnce;
pub use pinned_vec::PinnedVec;
pub use programs::FactorialFrame;
pub use programs::FibonacciFrame;
pub use programs::TriangularFrame;
pub use programs::binary_search;
pub use programs::factorial;
pub use programs::fibonacci;
pub use programs::fibonacci_metered;
pub use programs::triangular;
