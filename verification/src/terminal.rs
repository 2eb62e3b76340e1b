//! Everything between the pseudo terminal and the renderer.

pub mod backend;
pub mod command;
pub mod controller;
pub mod frame;
pub mod input;
pub mod launch;
pub mod mode;
pub mod mouse;
pub mod notifier;
pub mod palette;
pub mod pty;
pub mod search;
pub mod snapshot;
pub mod ssh;
pub mod worker;
