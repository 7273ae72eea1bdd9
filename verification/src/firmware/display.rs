//! The ePaper framebuffer: 296 × 128 pixels, one bit each, packed MSB-first
//! row by row (0 = black, 1 = white), and the QR-code area drawn into it.
use vstd::prelude::*;
use vstd::string::StrSliceExecFns;
use crate::firmware::config::{DISP_BUF_BYTES, DISP_HEIGHT_PX, DISP_WIDTH_PX, QR_AREA_PX};
use crate::firmware::qr::QrCode;
use crate::numeric_text::{
    append_decimal, append_signed_decimal, ascii_chars, decimal_digits, signed_decimal,
};

verus! {

/// Display width in bytes (296 / 8 = 37 bytes per row).
pub const BYTES_PER_ROW: usize = 37;

/// Whether pixel `(x, y)` is black in the framebuffer bytes `buf`.
pub open spec fn pixel_dark(buf: Seq<u8>, x: int, y: int) -> bool {
    (buf[y * 37 + x / 8] >> ((7 - x % 8) as u8)) & 1u8 == 0u8
}

/// Whether `(x, y)` lies on the display.
pub open spec fn on_display(x: int, y: int) -> bool {
    0 <= x < 296 && 0 <= y < 128
}

proof fn lemma_bits(b: u8, k: u8, j: u8)
    by (bit_vector)
    requires
        k < 8,
        j < 8,
    ensures
        ((b & !(1u8 << k)) >> j) & 1u8 == if j == k {
            0u8
        } else {
            (b >> j) & 1u8
        },
        ((b | (1u8 << k)) >> j) & 1u8 == if j == k {
            1u8
        } else {
            (b >> j) & 1u8
        },
        (0xFFu8 >> j) & 1u8 == 1u8,
        (0u8 >> j) & 1u8 == 0u8,
{
}

proof fn lemma_pixel_index(x: int, y: int, x2: int, y2: int)
    requires
        on_display(x, y),
        on_display(x2, y2),
    ensures
        0 <= y * 37 + x / 8 < 4736,
        (y * 37 + x / 8 == y2 * 37 + x2 / 8 && x % 8 == x2 % 8) ==> (x == x2 && y == y2),
{
}

/// The framebuffer of the tag's display.
pub struct Framebuffer {
    buf: [u8; DISP_BUF_BYTES],
}

impl Framebuffer {
    /// Whether pixel `(x, y)` is black.
    pub closed spec fn dark(&self, x: int, y: int) -> bool {
        pixel_dark(self.buf@, x, y)
    }

    /// A fully white framebuffer.
    pub fn new() -> (r: Framebuffer)
        ensures
            forall|x: int, y: int| on_display(x, y) ==> !r.dark(x, y),
    {
        let r = Framebuffer { buf: [0xFFu8; 4736] };
        assert forall|x: int, y: int| on_display(x, y) implies !r.dark(x, y) by {
            lemma_pixel_index(x, y, x, y);
            lemma_bits(0xFF, 0, (7 - x % 8) as u8);
        }
        r
    }

    /// The packed bytes, as sent to the display.
    pub fn bytes(&self) -> (r: &[u8; DISP_BUF_BYTES])
        ensures
            forall|x: int, y: int| on_display(x, y) ==> (pixel_dark(r@, x, y) == self.dark(x, y)),
    {
        &self.buf
    }

    /// Set one pixel: black when `dark`, white otherwise. Pixels off the
    /// display are ignored.
    pub fn set_pixel(&mut self, x: usize, y: usize, dark: bool)
        ensures
            forall|px: int, py: int|
                on_display(px, py) ==> #[trigger] final(self).dark(px, py) == if px == x && py
                    == y {
                    dark
                } else {
                    old(self).dark(px, py)
                },
    {
        if x >= DISP_WIDTH_PX || y >= DISP_HEIGHT_PX {
            return;
        }
        let byte_idx = y * BYTES_PER_ROW + x / 8;
        let bit = (7 - (x % 8)) as u8;
        let ghost before = self.buf@;
        let b = self.buf[byte_idx];
        if dark {
            self.buf[byte_idx] = b & !(1u8 << bit);
        } else {
            self.buf[byte_idx] = b | (1u8 << bit);
        }
        assert forall|px: int, py: int| on_display(px, py) implies #[trigger] self.dark(px, py)
            == if px == x && py == y {
            dark
        } else {
            pixel_dark(before, px, py)
        } by {
            lemma_pixel_index(px, py, x as int, y as int);
            let j = (7 - px % 8) as u8;
            lemma_bits(b, bit, j);
            if py * 37 + px / 8 == byte_idx {
                if px % 8 == x % 8 {
                    assert(px == x && py == y);
                } else {
                    assert(j != bit);
                }
            }
        }
    }

    /// Fill the whole framebuffer with one colour.
    fn fill(&mut self, value: u8)
        ensures
            forall|i: int| 0 <= i < 4736 ==> final(self).buf@[i] == value,
    {
        let mut i: usize = 0;
        while i < DISP_BUF_BYTES
            invariant
                i <= 4736,
                forall|k: int| 0 <= k < i ==> self.buf@[k] == value,
            decreases 4736 - i,
        {
            self.buf[i] = value;
            i += 1;
        }
    }

    /// Fill the entire framebuffer with white.
    pub fn clear_white(&mut self)
        ensures
            forall|x: int, y: int| on_display(x, y) ==> !final(self).dark(x, y),
    {
        self.fill(0xFF);
        assert forall|x: int, y: int| on_display(x, y) implies !self.dark(x, y) by {
            lemma_pixel_index(x, y, x, y);
            lemma_bits(0xFF, 0, (7 - x % 8) as u8);
        }
    }

    /// Fill the entire framebuffer with black.
    pub fn clear_black(&mut self)
        ensures
            forall|x: int, y: int| on_display(x, y) ==> final(self).dark(x, y),
    {
        self.fill(0x00);
        assert forall|x: int, y: int| on_display(x, y) implies self.dark(x, y) by {
            lemma_pixel_index(x, y, x, y);
            lemma_bits(0, 0, (7 - x % 8) as u8);
        }
    }
}

/// The scale of a `size`-module QR code in the QR area: the largest integer
/// number of pixels per module that fits, at least 1.
pub open spec fn qr_scale(size: int) -> int {
    if 128int / size >= 1 {
        128int / size
    } else {
        1
    }
}

/// The offset of the QR code from the top-left corner of the QR area, in both
/// directions: the code is centred.
pub open spec fn qr_offset(size: int) -> int {
    (128 - qr_scale(size) * size) / 2
}

/// Whether pixel `(x, y)` lies in the square the QR code covers.
pub open spec fn in_qr_square(size: int, x: int, y: int) -> bool {
    let s = qr_scale(size);
    let o = qr_offset(size);
    o <= x < o + s * size && o <= y < o + s * size
}

/// Whether the drawing loop has already reached pixel `(x, y)` when it is at
/// module `(row, col)`, sub-row `sy`, sub-column `sx`.
spec fn drawn_before(size: int, x: int, y: int, row: int, col: int, sy: int, sx: int) -> bool {
    let s = qr_scale(size);
    let o = qr_offset(size);
    let r = (y - o) / s;
    let c = (x - o) / s;
    let dy = (y - o) % s;
    let dx = (x - o) % s;
    r < row || (r == row && (c < col || (c == col && (dy < sy || (dy == sy && dx < sx)))))
}

/// The module of `qr` that covers pixel `(x, y)` of the QR area is dark.
pub open spec fn qr_pixel(qr: QrCode, x: int, y: int) -> bool {
    let size = qr.spec_size();
    qr.dark_at((y - qr_offset(size)) / qr_scale(size), (x - qr_offset(size)) / qr_scale(size))
}

/// What the framebuffer shows after drawing a QR code over `before`.
spec fn qr_drawn(qr: QrCode, before: Seq<u8>, x: int, y: int) -> bool {
    let size = qr.spec_size();
    if in_qr_square(size, x, y) {
        qr.dark_at((y - qr_offset(size)) / qr_scale(size), (x - qr_offset(size)) / qr_scale(size))
    } else {
        pixel_dark(before, x, y)
    }
}

proof fn lemma_block(s: int, k: int, d: int)
    requires
        s >= 1,
        0 <= d < s,
        k >= 0,
    ensures
        (k * s + d) / s == k,
        (k * s + d) % s == d,
{
    vstd::arithmetic::div_mod::lemma_fundamental_div_mod_converse(k * s + d, s, k, d);
}

proof fn lemma_qr_geometry(size: int)
    requires
        21 <= size <= 37,
    ensures
        qr_scale(size) == 128int / size,
        3 <= qr_scale(size) <= 6,
        qr_scale(size) * size <= 128,
        qr_offset(size) >= 0,
        qr_offset(size) + qr_scale(size) * size <= 128,
{
    assert(128int / size * size <= 128) by (nonlinear_arith)
        requires
            size > 0,
    ;
    assert(3 <= 128int / size <= 6) by (nonlinear_arith)
        requires
            21 <= size <= 37,
    ;
}

proof fn lemma_region_coords(size: int, x: int, y: int)
    requires
        21 <= size <= 37,
        in_qr_square(size, x, y),
    ensures
        0 <= (y - qr_offset(size)) / qr_scale(size) < size,
        0 <= (x - qr_offset(size)) / qr_scale(size) < size,
        0 <= (y - qr_offset(size)) % qr_scale(size) < qr_scale(size),
        0 <= (x - qr_offset(size)) % qr_scale(size) < qr_scale(size),
{
    lemma_qr_geometry(size);
    let s = qr_scale(size);
    let o = qr_offset(size);
    assert((y - o) / s < size) by (nonlinear_arith)
        requires
            0 <= y - o < s * size,
            s >= 1,
    ;
    assert((x - o) / s < size) by (nonlinear_arith)
        requires
            0 <= x - o < s * size,
            s >= 1,
    ;
    assert((y - o) / s >= 0) by (nonlinear_arith)
        requires
            0 <= y - o,
            s >= 1,
    ;
    assert((x - o) / s >= 0) by (nonlinear_arith)
        requires
            0 <= x - o,
            s >= 1,
    ;
}

impl Framebuffer {
    /// Draw a QR code into the QR area: each module becomes a square of
    /// [`qr_scale`] pixels, the code centred in the 128 × 128 area. Pixels
    /// outside the code's square are left as they were.
    pub fn draw_qr(&mut self, qr: &QrCode)
        requires
            qr.wf(),
        ensures
            forall|x: int, y: int|
                on_display(x, y) ==> #[trigger] final(self).dark(x, y) == if in_qr_square(
                    qr.spec_size(),
                    x,
                    y,
                ) {
                    qr_pixel(*qr, x, y)
                } else {
                    old(self).dark(x, y)
                },
    {
        let qr_size = qr.size();
        let scale = if QR_AREA_PX / qr_size >= 1 {
            QR_AREA_PX / qr_size
        } else {
            1
        };
        proof {
            lemma_qr_geometry(qr_size as int);
        }
        let total = scale * qr_size;
        let offset_x = (QR_AREA_PX - total) / 2;
        let offset_y = (DISP_HEIGHT_PX - total) / 2;
        let ghost before = self.buf@;
        let ghost n = qr_size as int;
        let ghost sc = scale as int;
        let ghost o = offset_x as int;
        for row in 0..qr_size
            invariant
                qr.wf(),
                n == qr.spec_size(),
                21 <= n <= 37,
                qr_size == n,
                scale == sc,
                sc == qr_scale(n),
                3 <= sc <= 6,
                offset_x == o,
                offset_y == o,
                o == qr_offset(n),
                o + sc * n <= 128,
                forall|x: int, y: int|
                    on_display(x, y) ==> #[trigger] self.dark(x, y) == if in_qr_square(n, x, y)
                        && drawn_before(n, x, y, row as int, 0, 0, 0) {
                        qr_drawn(*qr, before, x, y)
                    } else {
                        pixel_dark(before, x, y)
                    },
        {
            for col in 0..qr_size
                invariant
                    qr.wf(),
                    n == qr.spec_size(),
                    21 <= n <= 37,
                    qr_size == n,
                    row < n,
                    scale == sc,
                    sc == qr_scale(n),
                    3 <= sc <= 6,
                    offset_x == o,
                    offset_y == o,
                    o == qr_offset(n),
                    o + sc * n <= 128,
                    forall|x: int, y: int|
                        on_display(x, y) ==> #[trigger] self.dark(x, y) == if in_qr_square(n, x, y)
                            && drawn_before(n, x, y, row as int, col as int, 0, 0) {
                            qr_drawn(*qr, before, x, y)
                        } else {
                            pixel_dark(before, x, y)
                        },
            {
                let dark = qr.module(row, col);
                proof {
                    assert(row * sc + sc <= n * sc && col * sc + sc <= n * sc) by (nonlinear_arith)
                        requires
                            row < n,
                            col < n,
                            sc >= 1,
                    ;
                    assert(n * sc == sc * n) by (nonlinear_arith);
                }
                for sy in 0..scale
                    invariant
                        qr.wf(),
                        n == qr.spec_size(),
                        21 <= n <= 37,
                        row < n,
                        col < n,
                        scale == sc,
                        sc == qr_scale(n),
                        3 <= sc <= 6,
                        offset_x == o,
                        offset_y == o,
                        o == qr_offset(n),
                        o + sc * n <= 128,
                        row * sc + sc <= sc * n,
                        col * sc + sc <= sc * n,
                        dark == qr.dark_at(row as int, col as int),
                        forall|x: int, y: int|
                            on_display(x, y) ==> #[trigger] self.dark(x, y) == if in_qr_square(
                                n,
                                x,
                                y,
                            ) && drawn_before(n, x, y, row as int, col as int, sy as int, 0) {
                                qr_drawn(*qr, before, x, y)
                            } else {
                                pixel_dark(before, x, y)
                            },
                {
                    for sx in 0..scale
                        invariant
                            qr.wf(),
                            n == qr.spec_size(),
                            21 <= n <= 37,
                            row < n,
                            col < n,
                            sy < sc,
                            scale == sc,
                            sc == qr_scale(n),
                            3 <= sc <= 6,
                            offset_x == o,
                            offset_y == o,
                            o == qr_offset(n),
                            o + sc * n <= 128,
                            row * sc + sc <= sc * n,
                            col * sc + sc <= sc * n,
                            dark == qr.dark_at(row as int, col as int),
                            forall|x: int, y: int|
                                on_display(x, y) ==> #[trigger] self.dark(x, y) == if in_qr_square(
                                    n,
                                    x,
                                    y,
                                ) && drawn_before(
                                    n,
                                    x,
                                    y,
                                    row as int,
                                    col as int,
                                    sy as int,
                                    sx as int,
                                ) {
                                    qr_drawn(*qr, before, x, y)
                                } else {
                                    pixel_dark(before, x, y)
                                },
                    {
                        let px = offset_x + col * scale + sx;
                        let py = offset_y + row * scale + sy;
                        self.set_pixel(px, py, dark);
                        proof {
                            lemma_block(sc, col as int, sx as int);
                            lemma_block(sc, row as int, sy as int);
                            assert(in_qr_square(n, px as int, py as int));
                            assert forall|x: int, y: int| on_display(x, y) implies #[trigger] self.dark(
                                x,
                                y,
                            ) == if in_qr_square(n, x, y) && drawn_before(
                                n,
                                x,
                                y,
                                row as int,
                                col as int,
                                sy as int,
                                sx + 1,
                            ) {
                                qr_drawn(*qr, before, x, y)
                            } else {
                                pixel_dark(before, x, y)
                            } by {
                                if in_qr_square(n, x, y) {
                                    lemma_region_coords(n, x, y);
                                    if x == px && y == py {
                                    } else {
                                        let r = (y - o) / sc;
                                        let c = (x - o) / sc;
                                        let dy = (y - o) % sc;
                                        let dx = (x - o) % sc;
                                        vstd::arithmetic::div_mod::lemma_fundamental_div_mod(
                                            y - o,
                                            sc,
                                        );
                                        vstd::arithmetic::div_mod::lemma_fundamental_div_mod(
                                            x - o,
                                            sc,
                                        );
                                        assert(!(r == row && c == col && dy == sy && dx == sx))
                                            by (nonlinear_arith)
                                            requires
                                                y - o == sc * r + dy,
                                                x - o == sc * c + dx,
                                                !(x == px && y == py),
                                                px == o + col * sc + sx,
                                                py == o + row * sc + sy,
                                        ;
                                    }
                                }
                            }
                        }
                    }
                    proof {
                        assert forall|x: int, y: int| on_display(x, y) && in_qr_square(n, x, y) implies #[trigger] drawn_before(
                            n,
                            x,
                            y,
                            row as int,
                            col as int,
                            sy as int,
                            sc,
                        ) == drawn_before(n, x, y, row as int, col as int, sy + 1, 0) by {
                            lemma_region_coords(n, x, y);
                        }
                    }
                }
                proof {
                    assert forall|x: int, y: int| on_display(x, y) && in_qr_square(n, x, y) implies #[trigger] drawn_before(
                        n,
                        x,
                        y,
                        row as int,
                        col as int,
                        sc,
                        0,
                    ) == drawn_before(n, x, y, row as int, col + 1, 0, 0) by {
                        lemma_region_coords(n, x, y);
                    }
                }
            }
            proof {
                assert forall|x: int, y: int| on_display(x, y) && in_qr_square(n, x, y) implies #[trigger] drawn_before(
                    n,
                    x,
                    y,
                    row as int,
                    n,
                    0,
                    0,
                ) == drawn_before(n, x, y, row + 1, 0, 0, 0) by {
                    lemma_region_coords(n, x, y);
                }
            }
        }
        proof {
            assert forall|x: int, y: int| on_display(x, y) && in_qr_square(n, x, y) implies #[trigger] drawn_before(
                n,
                x,
                y,
                n,
                0,
                0,
                0,
            ) by {
                lemma_region_coords(n, x, y);
            }
        }
    }
}

impl Framebuffer {
    /// Draw one pixel of a two-colour drawing whose coordinates may lie off the
    /// display: "on" pixels are black, "off" (background) pixels white; pixels
    /// with a negative or too large coordinate are ignored.
    pub fn draw_binary_pixel(&mut self, x: i32, y: i32, on: bool)
        ensures
            forall|px: int, py: int|
                on_display(px, py) ==> #[trigger] final(self).dark(px, py) == if px == x && py
                    == y {
                    on
                } else {
                    old(self).dark(px, py)
                },
    {
        if x < 0 || y < 0 {
            return;
        }
        self.set_pixel(x as usize, y as usize, on);
    }
}

/// The first `n` characters of `s` (all of it when it is shorter).
pub fn truncate_chars(s: &str, n: usize) -> (r: &str)
    ensures
        r@ == if s@.len() <= n {
            s@
        } else {
            s@.subrange(0, n as int)
        },
{
    let len = s.unicode_len();
    if len <= n {
        s.substring_char(0, len)
    } else {
        s.substring_char(0, n)
    }
}

/// Most characters of the product name shown next to the QR code.
pub const NAME_MAX_CHARS: usize = 24;

/// The information panel right of the QR code: its texts, each with the point
/// it is drawn at (the product name at the top, left-aligned; the `Stock:`
/// label above the count in large type, both centred in the text area; the
/// battery level at the bottom right, right-aligned), the end points of the
/// one-pixel divider between the QR area and the text area, and the size of
/// the one-pixel border drawn round the whole display from its top-left corner.
pub struct InfoText {
    pub divider_from: (i32, i32),
    pub divider_to: (i32, i32),
    pub border_size: (u32, u32),
    pub name: String,
    pub name_at: (i32, i32),
    pub stock_label: String,
    pub stock_label_at: (i32, i32),
    pub stock: String,
    pub stock_at: (i32, i32),
    pub battery: String,
    pub battery_at: (i32, i32),
}

/// The first `n` characters of `s`, all of it when it is shorter.
pub open spec fn first_chars(s: Seq<char>, n: int) -> Seq<char> {
    if s.len() <= n {
        s
    } else {
        s.subrange(0, n)
    }
}

/// The information panel of a tag showing `product_name` with `stock` items
/// on the shelf and `battery_pct` percent of battery left.
pub fn info_text(product_name: &str, stock: i32, battery_pct: u8) -> (r: InfoText)
    ensures
        r.name@ == first_chars(product_name@, NAME_MAX_CHARS as int),
        r.stock_label@ == "Stock:"@,
        r.stock@ == signed_decimal(stock as int),
        r.battery@ == "Bat:"@ + ascii_chars(decimal_digits(battery_pct as nat)) + "%"@,
        r.name_at.0 == QR_AREA_PX + 4 && r.name_at.1 == 14,
        r.stock_label_at.0 == (QR_AREA_PX + DISP_WIDTH_PX) / 2 && r.stock_label_at.1
            == DISP_HEIGHT_PX / 2 - 8,
        r.stock_at.0 == (QR_AREA_PX + DISP_WIDTH_PX) / 2 && r.stock_at.1 == DISP_HEIGHT_PX / 2 + 10,
        r.battery_at.0 == DISP_WIDTH_PX - 4 && r.battery_at.1 == DISP_HEIGHT_PX - 4,
        r.divider_from.0 == QR_AREA_PX && r.divider_from.1 == 0,
        r.divider_to.0 == QR_AREA_PX && r.divider_to.1 == DISP_HEIGHT_PX - 1,
        r.border_size.0 == DISP_WIDTH_PX && r.border_size.1 == DISP_HEIGHT_PX,
{
    let name = String::from_str(truncate_chars(product_name, NAME_MAX_CHARS));
    let stock_label = String::from_str("Stock:");
    let mut count = String::new();
    append_signed_decimal(&mut count, stock as i64);
    let mut battery = String::from_str("Bat:");
    append_decimal(&mut battery, battery_pct as u64);
    battery.append("%");
    let centre_x = ((QR_AREA_PX + DISP_WIDTH_PX) / 2) as i32;
    let middle_y = (DISP_HEIGHT_PX / 2) as i32;
    InfoText {
        divider_from: (QR_AREA_PX as i32, 0),
        divider_to: (QR_AREA_PX as i32, (DISP_HEIGHT_PX - 1) as i32),
        border_size: (DISP_WIDTH_PX as u32, DISP_HEIGHT_PX as u32),
        name,
        name_at: ((QR_AREA_PX + 4) as i32, 14),
        stock_label,
        stock_label_at: (centre_x, middle_y - 8),
        stock: count,
        stock_at: (centre_x, middle_y + 10),
        battery,
        battery_at: ((DISP_WIDTH_PX - 4) as i32, (DISP_HEIGHT_PX - 4) as i32),
    }
}

/// One step of talking to the SSD1680 display controller.
#[derive(Debug, Clone, PartialEq, Eq)]
pub enum EpdStep {
    /// Pull RST low for 10 ms, then release it and wait 10 ms.
    HwReset,
    /// Wait until BUSY goes low.
    WaitIdle,
    /// Send a command byte (DC low).
    Command(u8),
    /// Send data bytes (DC high).
    Data(Vec<u8>),
    /// Send the whole framebuffer as data.
    FrameBuffer,
}

/// What a step sends, with its data as a sequence.
pub enum EpdStepView {
    HwReset,
    WaitIdle,
    Command(u8),
    Data(Seq<u8>),
    FrameBuffer,
}

/// The view of a step.
pub open spec fn step_view(s: EpdStep) -> EpdStepView {
    match s {
        EpdStep::HwReset => EpdStepView::HwReset,
        EpdStep::WaitIdle => EpdStepView::WaitIdle,
        EpdStep::Command(c) => EpdStepView::Command(c),
        EpdStep::Data(d) => EpdStepView::Data(d@),
        EpdStep::FrameBuffer => EpdStepView::FrameBuffer,
    }
}

/// The views of a sequence of steps.
pub open spec fn steps_view(s: Seq<EpdStep>) -> Seq<EpdStepView> {
    s.map_values(|x: EpdStep| step_view(x))
}

/// Setting the RAM X/Y address counters before a write.
pub open spec fn ram_counter_spec(x_byte: u8, y: u16) -> Seq<EpdStepView> {
    seq![
        EpdStepView::Command(0x4E),
        EpdStepView::Data(seq![x_byte]),
        EpdStepView::Command(0x4F),
        EpdStepView::Data(seq![(y % 256) as u8, ((y / 256) % 2) as u8]),
    ]
}

/// Full-screen black/white initialisation after power-on: reset, software
/// reset, 128 gate lines, X/Y increment, RAM window 37 bytes × 128 lines,
/// border waveform, internal temperature sensor, address counters at 0.
pub open spec fn init_spec() -> Seq<EpdStepView> {
    seq![
        EpdStepView::HwReset,
        EpdStepView::WaitIdle,
        EpdStepView::Command(0x12),
        EpdStepView::WaitIdle,
        EpdStepView::Command(0x01),
        EpdStepView::Data(seq![127u8, 0u8, 0u8]),
        EpdStepView::Command(0x11),
        EpdStepView::Data(seq![0x03u8]),
        EpdStepView::Command(0x44),
        EpdStepView::Data(seq![0u8, 36u8]),
        EpdStepView::Command(0x45),
        EpdStepView::Data(seq![0u8, 0u8, 127u8, 0u8]),
        EpdStepView::Command(0x3C),
        EpdStepView::Data(seq![0x01u8]),
        EpdStepView::Command(0x18),
        EpdStepView::Data(seq![0x80u8]),
    ] + ram_counter_spec(0, 0)
}

/// Flushing the framebuffer with a full refresh.
pub open spec fn full_update_spec() -> Seq<EpdStepView> {
    ram_counter_spec(0, 0) + seq![
        EpdStepView::Command(0x24),
        EpdStepView::FrameBuffer,
        EpdStepView::Command(0x22),
        EpdStepView::Data(seq![0xF7u8]),
        EpdStepView::Command(0x20),
        EpdStepView::WaitIdle,
    ]
}

/// Entering deep sleep mode 1.
pub open spec fn deep_sleep_spec() -> Seq<EpdStepView> {
    seq![EpdStepView::Command(0x10), EpdStepView::Data(seq![0x01u8])]
}

/// The full refresh: the RAM address counters go back to the origin (X byte 0,
/// Y line 0), the framebuffer is written into black/white RAM, and only then
/// is the update run: Display Update Control 2 with the full-update sequence
/// 0xF7, Master Activation, and a wait until BUSY is released, which is the
/// last step.
pub proof fn lemma_full_update_order()
    ensures
        ({
            let s = full_update_spec();
            &&& s.len() == 10
            &&& s[0] == EpdStepView::Command(0x4E) && s[1] =~~= EpdStepView::Data(seq![0u8])
            &&& s[2] == EpdStepView::Command(0x4F) && s[3] =~~= EpdStepView::Data(seq![0u8, 0u8])
            &&& s[4] == EpdStepView::Command(0x24) && s[5] == EpdStepView::FrameBuffer
            &&& s[6] == EpdStepView::Command(0x22) && s[7] =~~= EpdStepView::Data(seq![0xF7u8])
            &&& s[8] == EpdStepView::Command(0x20)
            &&& s[9] == EpdStepView::WaitIdle
            &&& forall|i: int| 0 <= i < s.len() && s[i] == EpdStepView::FrameBuffer ==> i == 5
        }),
{
    let s = full_update_spec();
    assert(s[3] =~~= EpdStepView::Data(seq![0u8, 0u8]));
}

/// Initialisation starts with a hardware reset and a software reset (0x12),
/// each followed by a wait for BUSY, before any setting is sent, and ends with
/// the RAM address counters at the origin; deep sleep is command 0x10 with
/// mode 1.
pub proof fn lemma_init_and_sleep_order()
    ensures
        ({
            let s = init_spec();
            &&& s.len() == 20
            &&& s[0] == EpdStepView::HwReset && s[1] == EpdStepView::WaitIdle
            &&& s[2] == EpdStepView::Command(0x12) && s[3] == EpdStepView::WaitIdle
            &&& forall|i: int| 4 <= i < s.len() ==> s[i] != EpdStepView::HwReset
            &&& s[16] == EpdStepView::Command(0x4E) && s[17] =~~= EpdStepView::Data(seq![0u8])
            &&& s[18] == EpdStepView::Command(0x4F) && s[19] =~~= EpdStepView::Data(seq![0u8, 0u8])
        }),
        deep_sleep_spec().len() == 2,
        deep_sleep_spec()[0] == EpdStepView::Command(0x10),
        deep_sleep_spec()[1] =~~= EpdStepView::Data(seq![1u8]),
{
    let s = init_spec();
    assert(s[19] =~~= EpdStepView::Data(seq![0u8, 0u8]));
}

/// A data step sending one byte.
fn data1(a: u8) -> (r: EpdStep)
    ensures
        step_view(r) == EpdStepView::Data(seq![a]),
{
    let d: Vec<u8> = vec![a];
    assert(d@ =~= seq![a]);
    EpdStep::Data(d)
}

/// A data step sending two bytes.
fn data2(a: u8, b: u8) -> (r: EpdStep)
    ensures
        step_view(r) == EpdStepView::Data(seq![a, b]),
{
    let d: Vec<u8> = vec![a, b];
    assert(d@ =~= seq![a, b]);
    EpdStep::Data(d)
}

/// A data step sending three bytes.
fn data3(a: u8, b: u8, c: u8) -> (r: EpdStep)
    ensures
        step_view(r) == EpdStepView::Data(seq![a, b, c]),
{
    let d: Vec<u8> = vec![a, b, c];
    assert(d@ =~= seq![a, b, c]);
    EpdStep::Data(d)
}

/// A data step sending four bytes.
fn data4(a: u8, b: u8, c: u8, e: u8) -> (r: EpdStep)
    ensures
        step_view(r) == EpdStepView::Data(seq![a, b, c, e]),
{
    let d: Vec<u8> = vec![a, b, c, e];
    assert(d@ =~= seq![a, b, c, e]);
    EpdStep::Data(d)
}

/// The steps that set the RAM address counters to `x_byte`, `y`.
pub fn set_ram_address_counter(x_byte: u8, y: u16) -> (r: Vec<EpdStep>)
    ensures
        steps_view(r@) == ram_counter_spec(x_byte, y),
{
    let mut r: Vec<EpdStep> = Vec::new();
    r.push(EpdStep::Command(0x4E));
    r.push(data1(x_byte));
    r.push(EpdStep::Command(0x4F));
    r.push(data2((y % 256) as u8, ((y / 256) % 2) as u8));
    proof {
        assert(steps_view(r@) =~~= ram_counter_spec(x_byte, y));
    }
    r
}

/// The steps of the display initialisation.
pub fn init_steps() -> (r: Vec<EpdStep>)
    ensures
        steps_view(r@) == init_spec(),
{
    let height = DISP_HEIGHT_PX - 1;
    let mut r: Vec<EpdStep> = Vec::new();
    r.push(EpdStep::HwReset);
    r.push(EpdStep::WaitIdle);
    r.push(EpdStep::Command(0x12));
    r.push(EpdStep::WaitIdle);
    r.push(EpdStep::Command(0x01));
    r.push(data3((height % 256) as u8, ((height / 256) % 2) as u8, 0x00));
    r.push(EpdStep::Command(0x11));
    r.push(data1(0x03));
    r.push(EpdStep::Command(0x44));
    r.push(data2(0x00, (BYTES_PER_ROW - 1) as u8));
    r.push(EpdStep::Command(0x45));
    r.push(data4(0x00, 0x00, (height % 256) as u8, ((height / 256) % 2) as u8));
    r.push(EpdStep::Command(0x3C));
    r.push(data1(0x01));
    r.push(EpdStep::Command(0x18));
    r.push(data1(0x80));
    let ghost head = r@;
    let mut tail = set_ram_address_counter(0, 0);
    r.append(&mut tail);
    proof {
        assert(steps_view(head) =~~= init_spec().subrange(0, 16));
        assert(steps_view(r@) =~~= init_spec());
    }
    r
}

/// The steps of a full refresh from the framebuffer.
pub fn full_update_steps() -> (r: Vec<EpdStep>)
    ensures
        steps_view(r@) == full_update_spec(),
{
    let mut r = set_ram_address_counter(0, 0);
    r.push(EpdStep::Command(0x24));
    r.push(EpdStep::FrameBuffer);
    r.push(EpdStep::Command(0x22));
    r.push(data1(0xF7));
    r.push(EpdStep::Command(0x20));
    r.push(EpdStep::WaitIdle);
    proof {
        assert(steps_view(r@) =~~= full_update_spec());
    }
    r
}

/// The steps that put the display into deep sleep.
pub fn deep_sleep_steps() -> (r: Vec<EpdStep>)
    ensures
        steps_view(r@) == deep_sleep_spec(),
{
    let mut r: Vec<EpdStep> = Vec::new();
    r.push(EpdStep::Command(0x10));
    r.push(data1(0x01));
    proof {
        assert(steps_view(r@) =~~= deep_sleep_spec());
    }
    r
}

} // verus!
