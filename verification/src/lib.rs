//! Arctic Launcher's command-line and launcher logic: parsing what users
//! type, choosing what to show them, and the decisions taken on events.

pub mod cli;
pub mod commands;
pub mod double;
pub mod errors;
pub mod game;
pub mod humanize;
pub mod instances_ui;
pub mod looks;
pub mod memory;
pub mod messages;
pub mod migrate;
pub mod migration;
pub mod network;
pub mod onboarding;
pub mod output;
pub mod play_ui;
pub mod profiles_ui;
pub mod rows;
pub mod search;
pub mod select;
pub mod settings_ui;
pub mod share_dialogs;
pub mod skins_ui;
pub mod text;
pub mod together;
pub mod updates;
pub mod versions;
pub mod worlds;
