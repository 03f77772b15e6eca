//! Core logic of CodexNotify: turning Codex hook events into Bark push
//! notifications, the reliable delivery queue, settings, storage locations and
//! the Codex hook configuration.

pub mod desktop;
pub mod digest;
pub mod dispatcher;
pub mod bark;
pub mod cleanup;
pub mod cli;
pub mod error;
pub mod hook_runtime;
pub mod hook_input;
pub mod hooks;
pub mod json;
pub mod notification;
pub mod paths;
pub mod reinstall;
pub mod security;
pub mod settings;
pub mod store;
pub mod text;
pub mod uninstall;

use vstd::prelude::*;

verus! {

/// Identifier of the application, used for the credential store service.
pub const APP_ID: &'static str = "com.xiiiing.codex-notify";

} // verus!
