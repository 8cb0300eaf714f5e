//! Interactive components.

pub mod autocomplete;
pub mod editor;
pub mod file_completion;
pub mod filterable_select;
pub mod input;
pub mod loader;
pub mod select_list;
pub mod settings_list;
pub mod spacer;
pub mod tab_bar;
pub mod text;
pub mod truncated_text;
