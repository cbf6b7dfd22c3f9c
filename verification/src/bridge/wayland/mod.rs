//! The Wayland side: what is decided on the compositor's events. The objects
//! themselves are known by numbers.

pub mod capture;
pub mod data_control;
pub mod input;
pub mod output;
pub mod output_config;
pub mod output_power;
pub mod registry;
pub mod seats;
pub mod shm;
