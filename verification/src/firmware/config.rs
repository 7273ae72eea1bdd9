//! Board constants and limits of the tag firmware.
use vstd::prelude::*;

verus! {

/// nRF52840 SPI instance used for the display.
pub const DISP_SPI_INSTANCE: &'static str = "SPI0";

/// SPI clock frequency for the ePaper display (4 MHz is safe for long cables).
pub const DISP_SPI_FREQ_HZ: u32 = 4_000_000;

/// Physical display width in pixels.
pub const DISP_WIDTH_PX: usize = 296;

/// Physical display height in pixels.
pub const DISP_HEIGHT_PX: usize = 128;

/// Framebuffer size in bytes (1 bit per pixel, packed MSB-first): 296 × 128 / 8.
pub const DISP_BUF_BYTES: usize = 4736;

/// Debounce window after a button edge is detected.
pub const BUTTON_DEBOUNCE_MS: u64 = 50;

/// Maximum length (bytes) of a Grocy product name stored on the device.
pub const MAX_PRODUCT_NAME_LEN: usize = 32;

/// Maximum length (bytes) of a Grocycode string (e.g. "grcy-p-12345").
pub const MAX_GROCYCODE_LEN: usize = 20;

/// QR code area occupies the left portion of the display (pixels).
pub const QR_AREA_PX: usize = 128;

/// Text area for product name / stock count (pixels wide): 296 − 128.
pub const TEXT_AREA_PX: usize = 168;

/// Minimum stock count (clamped at display / BLE update).
pub const STOCK_MIN: i32 = 0;

/// Maximum stock count representable on the display.
pub const STOCK_MAX: i32 = 9_999;

} // verus!
