//! Verified logic of a tool that restores files from backup discs,
//! driven by a sorted listing of `|`-separated records.

pub mod copy;
pub mod drives;
pub mod execpress;
pub mod scan;
pub mod sortin;
pub mod state;
pub mod text;

pub use execpress::execpress;
pub use state::{Error, Progstart};
