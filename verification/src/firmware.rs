//! Firmware-side logic of the ePaper inventory tag.
pub mod config;
pub mod qr;
pub mod text;
pub mod mesh;
pub mod grocy;
pub mod state_sync;
pub mod buttons;
pub mod display;
