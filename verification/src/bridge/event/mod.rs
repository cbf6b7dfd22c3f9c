//! Server-initiated X events: what is queued for each client, and who is told what.

pub mod body;
pub mod client;
pub mod sink;

pub mod time;
