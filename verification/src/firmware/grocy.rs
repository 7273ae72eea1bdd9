//! Grocy data of one inventory tag, Grocycode helpers and the events the BLE
//! layer delivers to the application.
use vstd::prelude::*;
use vstd::string::StringSliceAdditionalSpecFns;
use crate::firmware::config::{STOCK_MAX, STOCK_MIN};
use crate::firmware::text::{code_bytes, code_new, code_push_str, name_bytes, name_new};
use crate::grocycode::{grocycode_prefix, prefix_text, product_grocycode};
use crate::numeric_text::{
    decimal_bytes, decimal_digits, digit_text, lemma_decimal_digits_len, lemma_decimal_digits_value,
    ten_pow,
};

verus! {

/// All persistent state associated with one inventory tag.
#[derive(Clone, PartialEq, Eq)]
pub struct TagState {
    /// Grocy product identifier (e.g. `"grcy-p-42"`).
    pub grocycode: heapless::String<20>,
    /// Human-readable product name (e.g. `"Oat Milk"`).
    pub product_name: heapless::String<32>,
    /// Current in-stock quantity (kept within [`STOCK_MIN`, `STOCK_MAX`]).
    pub stock_count: i32,
}

/// Whether a stock count lies in the displayable range `[STOCK_MIN, STOCK_MAX]`.
pub open spec fn stock_in_range(n: int) -> bool {
    STOCK_MIN <= n <= STOCK_MAX
}

impl TagState {
    /// A tag with empty strings and zero stock.
    pub fn new() -> (r: TagState)
        ensures
            code_bytes(r.grocycode) == Seq::<u8>::empty(),
            name_bytes(r.product_name) == Seq::<u8>::empty(),
            r.stock_count == 0,
    {
        TagState { grocycode: code_new(), product_name: name_new(), stock_count: 0 }
    }

    /// Increment stock by one, clamped at [`STOCK_MAX`].
    pub fn increment(&mut self)
        ensures
            final(self).stock_count == if old(self).stock_count < STOCK_MAX {
                old(self).stock_count + 1
            } else {
                old(self).stock_count as int
            },
            final(self).grocycode == old(self).grocycode,
            final(self).product_name == old(self).product_name,
            stock_in_range(old(self).stock_count as int) ==> stock_in_range(
                final(self).stock_count as int,
            ),
    {
        if self.stock_count < STOCK_MAX {
            self.stock_count += 1;
        }
    }

    /// Decrement stock by one, clamped at [`STOCK_MIN`].
    pub fn decrement(&mut self)
        ensures
            final(self).stock_count == if old(self).stock_count > STOCK_MIN {
                old(self).stock_count - 1
            } else {
                old(self).stock_count as int
            },
            final(self).grocycode == old(self).grocycode,
            final(self).product_name == old(self).product_name,
            stock_in_range(old(self).stock_count as int) ==> stock_in_range(
                final(self).stock_count as int,
            ),
    {
        if self.stock_count > STOCK_MIN {
            self.stock_count -= 1;
        }
    }
}

impl Default for TagState {
    fn default() -> (r: TagState)
        ensures
            code_bytes(r.grocycode) == Seq::<u8>::empty(),
            name_bytes(r.product_name) == Seq::<u8>::empty(),
            r.stock_count == 0,
    {
        TagState::new()
    }
}

/// Build the Grocycode string `grcy-p-{product_id}`.
///
/// Always `Some`: the longest such code (`grcy-p-4294967295`) has 17 bytes,
/// within the 20-byte capacity.
pub fn grocycode_for_product(product_id: u32) -> (r: Option<heapless::String<20>>)
    ensures
        r matches Some(s) && code_bytes(s) == product_grocycode(product_id as nat),
{
    let mut s = code_new();
    code_push_str(&mut s, prefix_text()).ok()?;
    let digits = decimal_bytes(product_id as u64);
    proof {
        reveal_with_fuel(ten_pow, 11);
        lemma_decimal_digits_len(product_id as nat, 10);
        lemma_decimal_digits_value(product_id as nat);
    }
    let n = digits.len();
    let mut i: usize = 0;
    while i < n
        invariant
            i <= n,
            n == digits@.len(),
            n <= 10,
            digits@ == decimal_digits(product_id as nat),
            crate::numeric_text::all_digits(digits@),
            code_bytes(s) == grocycode_prefix() + digits@.take(i as int),
        decreases n - i,
    {
        let d = digits[i];
        assert(crate::numeric_text::is_digit(digits@[i as int]));
        let t = digit_text(d - 48u8);
        let res = code_push_str(&mut s, t);
        assert(res is Ok);
        assert(digits@.take(i + 1) =~= digits@.take(i as int).push(d));
        i += 1;
    }
    assert(digits@.take(n as int) =~= digits@);
    Some(s)
}

/// Events delivered to the application from the BLE layer.
#[derive(Debug, Clone)]
pub enum BleEvent {
    /// A BLE central has connected.
    Connected,
    /// The BLE central has disconnected.
    Disconnected,
    /// The central has written a new product name.
    ProductNameChanged(heapless::String<32>),
    /// The central has written a new Grocycode.
    GrocycodeChanged(heapless::String<20>),
    /// The central has written a new stock count (e.g. after Grocy sync).
    StockCountChanged(i32),
}

/// BLE device name broadcast in advertisement packets.
pub const BLE_DEVICE_NAME: &'static str = "etag";

/// BLE advertisement appearance value: Electronic Label.
pub const BLE_APPEARANCE: u16 = 0x0200;

} // verus!
