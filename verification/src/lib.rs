//! Verified core logic of a memory-lean document layout pipeline: global
//! engine flags, progress plumbing, memoization accelerator bookkeeping,
//! compact cell tags, grid/table cell maps for tagged PDF export, and the
//! decisions that drive streaming page layout and the on-disk page store.

pub mod engine_flags;
pub mod grid_cells;
pub mod tag;
pub mod text;
pub mod table;
pub mod table_strokes;
pub mod progress;
pub mod cli_progress;
pub mod accelerate;
pub mod page_flow;
pub mod page_store;
pub mod cell_tags;
pub mod page_run;
pub mod json_load;
