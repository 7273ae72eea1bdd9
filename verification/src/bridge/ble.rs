//! The etag GATT service as the bridge's BLE central sees it: characteristic
//! UUIDs, payload decoding and what a notification asks the bridge to do.
use vstd::prelude::*;
use crate::firmware::mesh::{i32_from_le, le_i32};
use crate::bridge::device::{TagInfo, TagView};
use crate::numeric_text::{
    append_decimal, append_signed_decimal, ascii_chars, decimal_digits, signed_decimal,
};

verus! {

/// Custom BLE service UUID broadcast by every etag device.
pub const ETAG_SERVICE_UUID: u128 = 0x4fa0e000_1081_4329_9b34_1c4bfd86c2f4;

/// `grocycode` characteristic — UTF-8 Grocycode string (e.g. `"grcy-p-42"`).
pub const CHAR_GROCYCODE: u128 = 0x4fa0e001_1081_4329_9b34_1c4bfd86c2f4;

/// `product_name` characteristic — UTF-8 human-readable product label.
pub const CHAR_PRODUCT_NAME: u128 = 0x4fa0e002_1081_4329_9b34_1c4bfd86c2f4;

/// `stock_count` characteristic — little-endian `i32` current stock quantity.
pub const CHAR_STOCK_COUNT: u128 = 0x4fa0e003_1081_4329_9b34_1c4bfd86c2f4;

/// `battery_pct` characteristic — `u8` battery level 0–100 %.
pub const CHAR_BATTERY_PCT: u128 = 0x4fa0e004_1081_4329_9b34_1c4bfd86c2f4;

/// Battery level at or below which a low-battery warning is due.
pub const LOW_BATTERY_PCT: u8 = 10;

/// The stock count carried by a characteristic value: the little-endian `i32`
/// in its first four bytes; `None` if it is shorter than that.
pub open spec fn stock_count_of(data: Seq<u8>) -> Option<i32> {
    if data.len() < 4 {
        None
    } else {
        Some(i32_from_le(data[0], data[1], data[2], data[3]))
    }
}

/// Decode a 4-byte little-endian `i32` from a characteristic value payload.
///
/// Returns `None` if the slice is shorter than 4 bytes.
pub fn decode_stock_count(data: &[u8]) -> (r: Option<i32>)
    ensures
        r == stock_count_of(data@),
{
    if data.len() < 4 {
        return None;
    }
    let u: u32 = data[0] as u32 + 256 * (data[1] as u32) + 65536 * (data[2] as u32) + 16777216 * (
    data[3] as u32);
    let v: i32 = if u >= 0x8000_0000u32 {
        (u as i64 - 0x1_0000_0000i64) as i32
    } else {
        u as i32
    };
    Some(v)
}

/// What the bridge does with one GATT notification from a tag.
#[derive(Debug, Clone, Copy, PartialEq, Eq, Structural)]
pub enum NotificationAction {
    /// A new stock count to record and forward to Grocy.
    StockCount(i32),
    /// A stock-count notification whose payload is too short (4 bytes expected).
    MalformedStockCount,
    /// A battery level to record; `low` when it is at or below [`LOW_BATTERY_PCT`].
    Battery { pct: u8, low: bool },
    /// A battery notification without payload: nothing to do.
    EmptyBattery,
    /// A notification of a characteristic the bridge does not use.
    Ignored,
}

/// Decide what a notification of characteristic `uuid` carrying `value` asks for.
pub fn classify_notification(uuid: u128, value: &[u8]) -> (r: NotificationAction)
    ensures
        uuid == CHAR_STOCK_COUNT ==> r == match stock_count_of(value@) {
            Some(c) => NotificationAction::StockCount(c),
            None => NotificationAction::MalformedStockCount,
        },
        uuid == CHAR_BATTERY_PCT ==> r == if value@.len() > 0 {
            NotificationAction::Battery { pct: value@[0], low: value@[0] <= LOW_BATTERY_PCT }
        } else {
            NotificationAction::EmptyBattery
        },
        uuid != CHAR_STOCK_COUNT && uuid != CHAR_BATTERY_PCT ==> r == NotificationAction::Ignored,
{
    if uuid == CHAR_STOCK_COUNT {
        match decode_stock_count(value) {
            Some(c) => NotificationAction::StockCount(c),
            None => NotificationAction::MalformedStockCount,
        }
    } else if uuid == CHAR_BATTERY_PCT {
        if value.len() > 0 {
            let pct = value[0];
            NotificationAction::Battery { pct, low: pct <= LOW_BATTERY_PCT }
        } else {
            NotificationAction::EmptyBattery
        }
    } else {
        NotificationAction::Ignored
    }
}

/// The Grocy synchronisation a stock-count notification calls for:
/// `(product_id, previous, new_count)`, where a first count (no previous
/// value) is taken as its own previous value so that nothing changes in Grocy.
/// `None` when the tag has no known product ID.
pub fn stock_sync_request(product_id: Option<u32>, previous: Option<i32>, new_count: i32) -> (r:
    Option<(u32, i32, i32)>)
    ensures
        r == match product_id {
            Some(pid) => Some(
                (
                    pid,
                    match previous {
                        Some(p) => p,
                        None => new_count,
                    },
                    new_count,
                ),
            ),
            None => None,
        },
{
    match product_id {
        Some(pid) => {
            let prev = match previous {
                Some(p) => p,
                None => new_count,
            };
            Some((pid, prev, new_count))
        },
        None => None,
    }
}

/// A stock count written by the tag and read back by the bridge is the count.
pub proof fn lemma_stock_count_roundtrip(v: i32)
    ensures
        stock_count_of(le_i32(v)) == Some(v),
{
    crate::firmware::mesh::lemma_i32_le_roundtrip(v);
}

/// The product label of a device summary: the product name, else the
/// grocycode, else `(unknown)`.
pub open spec fn summary_product(d: TagView) -> Seq<char> {
    match d.product_name {
        Some(p) => p,
        None => match d.grocycode {
            Some(g) => g,
            None => "(unknown)"@,
        },
    }
}

/// The stock count of a summary, `?` when unknown.
pub open spec fn summary_stock(d: TagView) -> Seq<char> {
    match d.stock_count {
        Some(n) => signed_decimal(n as int),
        None => "?"@,
    }
}

/// The battery level of a summary as `N%`, `?` when unknown.
pub open spec fn summary_battery(d: TagView) -> Seq<char> {
    match d.battery_pct {
        Some(b) => ascii_chars(decimal_digits(b as nat)) + "%"@,
        None => "?"@,
    }
}

/// The signal strength of a summary as `N dBm`, `?` when unknown.
pub open spec fn summary_rssi(d: TagView) -> Seq<char> {
    match d.rssi {
        Some(r) => signed_decimal(r as int) + " dBm"@,
        None => "?"@,
    }
}

/// Seconds since `last_seen` at time `now`, saturated to the `i64` range.
pub open spec fn seen_age(now: i64, last_seen: i64) -> int {
    let d = now - last_seen;
    if d > i64::MAX {
        i64::MAX as int
    } else if d < i64::MIN {
        i64::MIN as int
    } else {
        d
    }
}

/// One line of the periodic device summary, at time `now`:
/// `● AA:BB:CC:DD:EE:FF | Oat Milk | stock=5 | bat=87% | rssi=-62 dBm | last seen 3s ago`,
/// with `○` in place of `●` when no GATT connection is open.
pub open spec fn summary_line(d: TagView, now: i64) -> Seq<char> {
    (if d.connected {
        "●"@
    } else {
        "○"@
    }) + " "@ + d.address + " | "@ + summary_product(d) + " | stock="@ + summary_stock(d)
        + " | bat="@ + summary_battery(d) + " | rssi="@ + summary_rssi(d) + " | last seen "@
        + signed_decimal(seen_age(now, d.last_seen)) + "s ago"@
}

/// The summary line of device `d` at time `now` (Unix seconds).
pub fn device_summary_line(d: &TagInfo, now: i64) -> (r: String)
    ensures
        r@ == summary_line(d@, now),
{
    let mut s = String::new();
    if d.connected {
        s.append("●");
    } else {
        s.append("○");
    }
    s.append(" ");
    s.append(d.address.as_str());
    s.append(" | ");
    match &d.product_name {
        Some(p) => s.append(p.as_str()),
        None => match &d.grocycode {
            Some(g) => s.append(g.as_str()),
            None => s.append("(unknown)"),
        },
    }
    s.append(" | stock=");
    match d.stock_count {
        Some(n) => append_signed_decimal(&mut s, n as i64),
        None => s.append("?"),
    }
    s.append(" | bat=");
    match d.battery_pct {
        Some(b) => {
            append_decimal(&mut s, b as u64);
            s.append("%");
        },
        None => s.append("?"),
    }
    s.append(" | rssi=");
    match d.rssi {
        Some(r) => {
            append_signed_decimal(&mut s, r as i64);
            s.append(" dBm");
        },
        None => s.append("?"),
    }
    s.append(" | last seen ");
    let diff: i128 = now as i128 - d.last_seen as i128;
    let age: i64 = if diff > i64::MAX as i128 {
        i64::MAX
    } else if diff < i64::MIN as i128 {
        i64::MIN
    } else {
        diff as i64
    };
    append_signed_decimal(&mut s, age);
    s.append("s ago");
    assert(s@ =~= summary_line(d@, now));
    s
}

} // verus!
