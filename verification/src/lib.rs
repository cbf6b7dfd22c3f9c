//! The verified core of an X11 front end for wlroots compositors.
//!
//! An X client (a VNC agent) is shown a small X server whose screen, input,
//! cursor and clipboard are those of a Wayland compositor. This crate holds what
//! that server decides and computes: the framebuffer and its damage, the screen
//! layout, the clipboard and selection state, the wire format of requests,
//! replies and events, and the state machines that follow the compositor.
//! Sockets, threads, shared memory and the Wayland connection are outside it.

pub mod bridge;
pub mod config;
pub mod hook;
pub mod util;
