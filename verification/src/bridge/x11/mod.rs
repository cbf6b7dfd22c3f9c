//! The X side: the protocol's wire format and the state behind the requests.

use vstd::prelude::*;

pub mod answer;
pub mod atom;
pub mod conn;
pub mod convert;
pub mod dispatch;
pub mod ext;
pub mod mit_shm;
pub mod property;
pub mod randr;
pub mod reply;
pub mod request;
pub mod selection;
pub mod setup;
pub mod targets;
pub mod window;
pub mod wire;
pub mod xfixes;

verus! {

/// Base of the resource ids that a client allocates from.
pub const CLIENT_RESOURCE_ID_BASE: u32 = 0x0040_0000;

/// The root window.
pub const ROOT_WINDOW: u32 = 0x16b;

pub const ROOT_COLORMAP: u32 = 0x20;

pub const ROOT_VISUAL: u32 = 0x21;

/// The window that selection owners are asked to answer to when the bridge fetches
/// what they hold.
pub const SELECTION_FETCH_WINDOW: u32 = 0x16b;

/// Ids of RandR outputs, CRTCs and modes count up from here.
pub const RANDR_OUTPUT_BASE: u32 = 0x40;

pub const ROOT_DEPTH: u8 = 24;

} // verus!
