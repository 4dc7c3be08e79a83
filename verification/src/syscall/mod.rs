pub mod process;
pub mod sync;
