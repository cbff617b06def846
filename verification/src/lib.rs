pub mod buffer;
pub mod chars;
pub mod completion;
pub mod context_menu;
pub mod debugging;
pub mod editor;
pub mod edits;
pub mod explorer;
pub mod explorer_tree;
pub mod fmt;
pub mod generate;
pub mod git;
pub mod inspection;
pub mod keys;
pub mod new_item;
pub mod pares;
pub mod paths;
pub mod rename;
pub mod settings;
pub mod split;
pub mod surfaces;
pub mod tab_switcher;
pub mod text;
pub mod view_sync;
