//! The decision logic of the DeepSeek Harness desktop shell: the text of the
//! profile patch that switches the built-in skin, the readiness line printed
//! by the harness web server, the data layout of the app, the commands the
//! shell runs, and the plugin status read from the profile manifest.

pub mod text;
pub mod theme;
pub mod readiness;
pub mod webview;
pub mod paths;
pub mod commands;
pub mod target;
pub mod manifest;
