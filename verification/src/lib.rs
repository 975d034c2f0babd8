use vstd::prelude::*;

pub mod text;
pub mod panes;
pub mod terminal;
pub mod terminals;
pub mod history;
pub mod transcript;
pub mod search;
pub mod setup;
pub mod ui;
pub mod registry;
pub mod shell;
pub mod desktop;
pub mod app_state;
pub mod engine;
pub mod listener;
pub mod view_transcript;
pub mod tui;
pub mod view_terminals;
pub mod shortcuts;
pub mod managed_block_law;
pub mod highlights;
