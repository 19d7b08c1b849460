//! Built-in widgets.

pub mod boxed;
pub mod cancellable_loader;
pub mod container;
pub mod editor;
pub mod editor_model;
pub mod editor_widget;
pub mod image;
pub mod input;
pub mod loader;
pub mod markdown;
pub mod md_layout;
pub mod md_table;
pub mod md_tree;
pub mod select_list;
pub mod settings_list;
pub mod spacer;
pub mod text;
pub mod truncated_text;
