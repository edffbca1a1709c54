pub mod files_tree;
pub mod files_preview;
pub mod install;
pub mod packages;
pub mod tree_laws;
