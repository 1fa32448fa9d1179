//! A session picker for tmux: sessions in two lists, organized into named groups.
//!
//! [`picker::App`] is the state of the picker. [`picker::App::step`] takes what the
//! user did and hands back an [`effects::Effect`], which says what is to be done
//! outside; [`picker::App::render_full`] gives the screen as text. Contracts speak of
//! [`picker::Model`], the mathematical picture of the state. The modules whose names
//! end in `laws` say what holds of the picker for every state and every input.

pub mod answers;
pub mod cursor_laws;
pub mod document;
pub mod drag_laws;
pub mod effects;
pub mod group_file;
pub mod groups;
pub mod help;
pub mod key_laws;
pub mod keys;
pub mod kill_laws;
pub mod layout;
pub mod list_laws;
pub mod lists;
pub mod load_laws;
pub mod mark_laws;
pub mod marks;
pub mod mouse;
pub mod mouse_laws;
pub mod move_laws;
pub mod names;
pub mod navigation;
pub mod organize;
pub mod paths;
pub mod picker;
pub mod pin_laws;
pub mod pins;
pub mod pointer;
pub mod prompts;
pub mod rows;
pub mod screen;
pub mod screen_laws;
pub mod sessions;
pub mod soundness;
pub mod text;
