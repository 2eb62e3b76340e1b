//! The verified core of a terminal emulator: the frames that are captured from
//! a terminal grid, the mailbox and scheduling of its worker, key and mouse
//! encoding, search, settings, tabs, and the bookkeeping of the renderer.

pub mod app;
pub mod ordering;
pub mod renderer;
pub mod terminal;
pub mod text;
