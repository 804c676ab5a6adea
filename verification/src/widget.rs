//! The widget tree as the drop-zone search sees it.
pub mod operation;
