//! The bridge between X clients and the compositor.

pub mod capture;
pub mod clipboard;
pub mod clipjobs;
pub mod cursor;
pub mod damage;
pub mod dynres;
pub mod event;
pub mod input;
pub mod keymap;
pub mod profile;
pub mod server;
pub mod wayland;
pub mod x11;
