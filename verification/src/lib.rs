//! Verified core of a small terminal emulator with an AI command bar.

pub mod text;
pub mod helpers;
pub mod screen;
pub mod selection;
pub mod ai;
pub mod theme;
pub mod keys;
pub mod layout;
pub mod ai_bar;
pub mod config_doc;
pub mod bar_view;
