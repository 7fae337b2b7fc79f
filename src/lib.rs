//! Applies a batch of byte-range substitutions to a text buffer and plans the
//! durable replacement of a file with the rewritten buffer.
use vstd::prelude::*;

pub mod change;
pub mod order;
pub mod validate;
pub mod patch;
pub mod edit;
pub mod durable;

pub use change::{Change, ChangeSet, RenameStep, ReprintError};
pub use durable::{DurableWrite, WriteAction, WriteStage};
pub use edit::{apply_changes, estimated_len, prepare, rewrite};
pub use order::sort_changes;
pub use patch::process;
pub use validate::verify;

verus! {

} // verus!
