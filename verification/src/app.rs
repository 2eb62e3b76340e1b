//! The application around the terminals: settings, shortcuts, tabs.

pub mod bindings;
pub mod input;
pub mod rendering;
pub mod sessions;
pub mod settings;
pub mod settings_reload;
pub mod viewport;
