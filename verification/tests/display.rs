use etag::firmware::display::Framebuffer;
use etag::firmware::qr::QrCode;

fn pixel_is_dark(fb: &Framebuffer, x: usize, y: usize) -> bool {
    let bytes = fb.bytes();
    (bytes[y * 37 + x / 8] >> (7 - x % 8)) & 1 == 0
}

#[test]
fn new_framebuffer_is_white_and_pixels_toggle() {
    let mut fb = Framebuffer::new();
    assert!(fb.bytes().iter().all(|b| *b == 0xFF));
    fb.set_pixel(0, 0, true);
    fb.set_pixel(295, 127, true);
    assert_eq!(fb.bytes()[0], 0x7F);
    assert_eq!(fb.bytes()[127 * 37 + 36], 0xFE);
    assert!(pixel_is_dark(&fb, 0, 0));
    assert!(!pixel_is_dark(&fb, 1, 0));
    fb.set_pixel(0, 0, false);
    assert!(!pixel_is_dark(&fb, 0, 0));
    // Off-display pixels are ignored.
    fb.set_pixel(296, 0, true);
    fb.set_pixel(0, 128, true);
    assert_eq!(fb.bytes()[0], 0xFF);
}

#[test]
fn clear_fills_every_pixel() {
    let mut fb = Framebuffer::new();
    fb.clear_black();
    assert!(fb.bytes().iter().all(|b| *b == 0x00));
    fb.clear_white();
    assert!(fb.bytes().iter().all(|b| *b == 0xFF));
}

#[test]
fn qr_is_scaled_and_centred_in_its_area() {
    let qr = QrCode::encode(b"grcy-p-42").unwrap();
    assert_eq!(qr.size(), 21);
    let mut fb = Framebuffer::new();
    fb.draw_qr(&qr);
    // 128 / 21 = 6 pixels per module; 126 pixels in all, offset (128 - 126) / 2 = 1.
    let (scale, offset) = (6usize, 1usize);
    for y in 0..128 {
        for x in 0..296 {
            let inside = (offset..offset + 21 * scale).contains(&x)
                && (offset..offset + 21 * scale).contains(&y);
            let expected = inside && qr.module((y - offset) / scale, (x - offset) / scale);
            assert_eq!(pixel_is_dark(&fb, x, y), expected, "pixel ({x}, {y})");
        }
    }
}

#[test]
fn larger_qr_uses_smaller_scale() {
    let qr = QrCode::encode(&[b'u'; 80]).unwrap();
    assert_eq!(qr.size(), 37);
    let mut fb = Framebuffer::new();
    fb.clear_black();
    fb.draw_qr(&qr);
    // 128 / 37 = 3; 111 pixels, offset 8: the corner pixel outside stays black.
    assert!(pixel_is_dark(&fb, 7, 7));
    assert!(pixel_is_dark(&fb, 8, 8)); // finder corner module is dark
    assert!(!pixel_is_dark(&fb, 8 + 3, 8 + 3)); // first ring inside the finder is light
    assert!(pixel_is_dark(&fb, 200, 50));
}

use etag::firmware::display::{
    deep_sleep_steps, full_update_steps, info_text, init_steps, set_ram_address_counter,
    truncate_chars, EpdStep, NAME_MAX_CHARS,
};

#[test]
fn binary_pixels_outside_the_display_are_ignored() {
    let mut fb = Framebuffer::new();
    fb.draw_binary_pixel(-1, 0, true);
    fb.draw_binary_pixel(0, -1, true);
    fb.draw_binary_pixel(300, 5, true);
    assert!(fb.bytes().iter().all(|b| *b == 0xFF));
    fb.draw_binary_pixel(9, 1, true);
    assert!(pixel_is_dark(&fb, 9, 1));
    fb.draw_binary_pixel(9, 1, false);
    assert!(!pixel_is_dark(&fb, 9, 1));
}

#[test]
fn product_names_are_cut_at_24_characters() {
    assert_eq!(NAME_MAX_CHARS, 24);
    assert_eq!(truncate_chars("Oat Milk", NAME_MAX_CHARS), "Oat Milk");
    let long = "ÄÖÜäöüßabcdefghijklmnopqrstuvwxyz";
    let cut = truncate_chars(long, NAME_MAX_CHARS);
    assert_eq!(cut.chars().count(), 24);
    assert_eq!(cut, "ÄÖÜäöüßabcdefghijklmnopq");
}

#[test]
fn controller_command_sequences() {
    assert_eq!(
        set_ram_address_counter(5, 300),
        vec![
            EpdStep::Command(0x4E),
            EpdStep::Data(vec![5]),
            EpdStep::Command(0x4F),
            EpdStep::Data(vec![44, 1]),
        ]
    );
    let init = init_steps();
    assert_eq!(init.len(), 20);
    assert_eq!(init[0], EpdStep::HwReset);
    assert_eq!(init[5], EpdStep::Data(vec![127, 0, 0]));
    assert_eq!(init[9], EpdStep::Data(vec![0, 36]));
    let full = full_update_steps();
    assert_eq!(full[4], EpdStep::Command(0x24));
    assert_eq!(full[5], EpdStep::FrameBuffer);
    assert_eq!(full.last(), Some(&EpdStep::WaitIdle));
    assert_eq!(deep_sleep_steps(), vec![EpdStep::Command(0x10), EpdStep::Data(vec![0x01])]);
}

#[test]
fn info_panel_texts() {
    let t = info_text("Oat Milk", 42, 87);
    assert_eq!(t.name, "Oat Milk");
    assert_eq!(t.stock_label, "Stock:");
    assert_eq!(t.stock, "42");
    assert_eq!(t.battery, "Bat:87%");
    assert_eq!(t.name_at, (132, 14));
    assert_eq!(t.stock_label_at, (212, 56));
    assert_eq!(t.stock_at, (212, 74));
    assert_eq!(t.battery_at, (292, 124));
    assert_eq!(t.divider_from, (128, 0));
    assert_eq!(t.divider_to, (128, 127));
    assert_eq!(t.border_size, (296, 128));
    let t = info_text("ÄÖÜäöüßabcdefghijklmnopqrstuvwxyz", -2147483648, 0);
    assert_eq!(t.name, "ÄÖÜäöüßabcdefghijklmnopq");
    assert_eq!(t.stock, "-2147483648");
    assert_eq!(t.battery, "Bat:0%");
    assert_eq!(info_text("", 0, 100).battery, "Bat:100%");
}
