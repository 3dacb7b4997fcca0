//! Verified core of the SnapDog device controller.
pub mod text;
pub mod system;
pub mod error;
pub mod client;
pub mod network;
pub mod api;
pub mod rauc;
pub mod update;
pub mod settings;
pub mod ctrl_config;
pub mod host;
pub mod status;
pub mod web;
pub mod mock;
