//! Data-driven layout definitions for the xtop system monitor.
//!
//! The crate owns the layout model (a tree of areas and widgets, and the raw
//! shape in which layout files spell it), the loader logic (JSONC comment
//! stripping, merging user layouts into the defaults) and the layout modes
//! with their terminal-size degradation rules. It has no UI dependencies:
//! the kernel translates the model to concrete constraints at render time.

pub mod loader;
pub mod mode;
pub mod model;
pub mod text;

pub use loader::{is_layout_extension, merge_layouts, strip_jsonc_comments};
pub use mode::{
    detect_effective_layout, layout_index_from_mode, layout_mode_for_name, mode_from_layout_index,
    EffectiveLayout, LayoutMode, LAYOUT_MODE_NAMES,
};
pub use model::{
    Direction, LayoutArea, LayoutAreaRaw, LayoutConstraint, LayoutDef, LayoutDefRaw, LayoutNode,
    SizeRaw,
};
