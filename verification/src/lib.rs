//! A text editor that presents files as lists.

pub mod change_laws;
pub mod desktop;
pub mod edit_laws;
pub mod editor;
pub mod ffon;
pub mod folder_laws;
pub mod level_laws;
pub mod line_laws;
pub mod listing;
pub mod move_laws;
pub mod parse;
pub mod paths;
pub mod settings;
pub mod state;
pub mod tags;
pub mod text;
pub mod text_laws;
pub mod timeline;
pub mod tree_laws;
