//! Interactive tree-view navigation engine for hierarchical scientific files.
//!
//! The heart of the crate is the flattener, which turns a tree of labeled,
//! collapsible nodes into the ordered sequence of rows a terminal pane would
//! draw; the viewport controller, which picks the contiguous window of rows
//! that fits a bounded display height while scrolling as little as possible;
//! and the navigation state machine layered on top of both, which owns the
//! selection cursor, the expand flags and the live search pattern.

pub mod h5file;
pub mod nav;
pub mod search;
pub mod state;
pub mod tree;
pub mod viewport;

pub use h5file::DatasetInfo;
pub use h5file::DatasetLayoutInfo;
pub use h5file::EntityInfo;
pub use h5file::FileInfo;
pub use h5file::GroupInfo;
pub use h5file::LinkKind;
pub use h5file::ResolveError;
pub use nav::handle_key;
pub use nav::row_indent;
pub use nav::row_style;
pub use nav::Key;
pub use nav::Mode;
pub use nav::RowStyle;
pub use search::PatternError;
pub use state::TreeState;
pub use tree::RowColor;
pub use tree::TreeItem;
pub use tree::VisibleRow;
pub use viewport::compute_window;
