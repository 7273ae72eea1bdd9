//! Verified core of the etag inventory-tag system.
pub mod bridge;
pub mod firmware;
pub mod grocycode;
pub mod gui;
pub mod numeric_text;
