//! The data structures and decisions of the arcaeaOS kernel.
pub mod context;
pub mod task;
pub mod paging;
pub mod sbi;
pub mod lca_driver;
pub mod allocator;
pub mod log;
pub mod trap;
