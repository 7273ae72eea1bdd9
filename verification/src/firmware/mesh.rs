//! BLE Mesh foundation types and vendor-model payload codecs.
//!
//! Transport-focused: these codecs are shared by the firmware logic whatever
//! the final radio stack integration is.
use vstd::prelude::*;
use vstd::string::StringSliceAdditionalSpecFns;
use crate::firmware::text::{
    code_as_str, code_bytes, code_new, code_push_str, name_as_str, name_bytes, name_new,
    name_push_str, utf8_text, wire_as_slice, wire_bytes, wire_extend, wire_new, wire_push,
};
use crate::grocycode::{product_id_from_code, product_id_of};

verus! {

/// Role assigned at provisioning time.
#[derive(Debug, Clone, Copy, PartialEq, Eq, Structural)]
pub enum MeshNodeRole {
    /// Battery-powered shelf tag profile (expected to run in LPN mode).
    TagLpn,
    /// Mains-powered relay/repeater profile.
    RelayRepeater,
}

/// Wire code of a role.
pub open spec fn role_code(r: MeshNodeRole) -> u8 {
    match r {
        MeshNodeRole::TagLpn => 0,
        MeshNodeRole::RelayRepeater => 1,
    }
}

/// The role with wire code `v`, if any.
pub open spec fn role_of_code(v: u8) -> Option<MeshNodeRole> {
    if v == 0 {
        Some(MeshNodeRole::TagLpn)
    } else if v == 1 {
        Some(MeshNodeRole::RelayRepeater)
    } else {
        None
    }
}

impl MeshNodeRole {
    /// The role with wire code `v` (0 = tag LPN, 1 = relay/repeater).
    pub fn try_from(v: u8) -> (r: Result<MeshNodeRole, ()>)
        ensures
            match role_of_code(v) {
                Some(role) => r == Ok::<MeshNodeRole, ()>(role),
                None => r is Err,
            },
    {
        match v {
            0 => Ok(MeshNodeRole::TagLpn),
            1 => Ok(MeshNodeRole::RelayRepeater),
            _ => Err(()),
        }
    }

    /// The wire code of this role.
    pub fn code(&self) -> (r: u8)
        ensures
            r == role_code(*self),
    {
        match self {
            MeshNodeRole::TagLpn => 0,
            MeshNodeRole::RelayRepeater => 1,
        }
    }
}

/// Inventory message operation kind.
#[derive(Debug, Clone, Copy, PartialEq, Eq, Structural)]
pub enum InventoryOp {
    /// Delta update from local button interaction.
    StockDelta,
    /// Absolute stock value update.
    StockAbsolute,
}

/// Wire code of an inventory operation.
pub open spec fn op_code(op: InventoryOp) -> u8 {
    match op {
        InventoryOp::StockDelta => 0,
        InventoryOp::StockAbsolute => 1,
    }
}

/// The inventory operation with wire code `v`, if any.
pub open spec fn op_of_code(v: u8) -> Option<InventoryOp> {
    if v == 0 {
        Some(InventoryOp::StockDelta)
    } else if v == 1 {
        Some(InventoryOp::StockAbsolute)
    } else {
        None
    }
}

impl InventoryOp {
    /// The operation with wire code `v` (0 = delta, 1 = absolute).
    pub fn try_from(v: u8) -> (r: Result<InventoryOp, ()>)
        ensures
            match op_of_code(v) {
                Some(op) => r == Ok::<InventoryOp, ()>(op),
                None => r is Err,
            },
    {
        match v {
            0 => Ok(InventoryOp::StockDelta),
            1 => Ok(InventoryOp::StockAbsolute),
            _ => Err(()),
        }
    }

    /// The wire code of this operation.
    pub fn code(&self) -> (r: u8)
        ensures
            r == op_code(*self),
    {
        match self {
            InventoryOp::StockDelta => 0,
            InventoryOp::StockAbsolute => 1,
        }
    }
}

/// Vendor-model inventory payload (wire format v1).
#[derive(Debug, Clone, Copy, PartialEq, Eq, Structural)]
pub struct InventoryMessage {
    /// Monotonic per-node revision/sequence.
    pub revision: u32,
    /// Grocy product ID.
    pub product_id: u32,
    /// Operation semantics (`delta` or `absolute`).
    pub op: InventoryOp,
    /// Stock value (delta or absolute depending on `op`).
    pub stock_value: i32,
    /// Battery percentage 0..=100.
    pub battery_pct: u8,
}

/// Provisioning/config payload (wire format v1).
#[derive(Debug, Clone, PartialEq, Eq)]
pub struct ConfigMessage {
    /// Monotonic per-node revision/sequence.
    pub revision: u32,
    /// Runtime role profile.
    pub role: MeshNodeRole,
    /// Desired publish interval for status updates.
    pub publish_interval_secs: u16,
    /// Grocycode (e.g. `grcy-p-42`).
    pub grocycode: heapless::String<20>,
    /// Product display label.
    pub product_name: heapless::String<32>,
}

/// What a configuration message carries: revision, role, publish interval and
/// the bytes of the Grocycode and of the product name.
pub open spec fn config_view(m: ConfigMessage) -> (u32, MeshNodeRole, u16, Seq<u8>, Seq<u8>) {
    (m.revision, m.role, m.publish_interval_secs, code_bytes(m.grocycode), name_bytes(m.product_name))
}

/// Fixed length of an encoded [`InventoryMessage`].
pub const INVENTORY_WIRE_LEN: usize = 14;

/// Maximum encoded length of a [`ConfigMessage`]: a 9-byte header (revision 4,
/// role 1, publish interval 2, two string lengths 1 + 1) plus the UTF-8 bytes
/// of both strings (at most 20 + 32).
pub const CONFIG_WIRE_MAX_LEN: usize = 61;

/// Little-endian bytes of a `u16`.
pub open spec fn le_u16(v: u16) -> Seq<u8> {
    seq![(v % 256) as u8, (v / 256) as u8]
}

/// Little-endian bytes of a `u32`.
pub open spec fn le_u32(v: u32) -> Seq<u8> {
    seq![(v % 256) as u8, ((v / 256) % 256) as u8, ((v / 65536) % 256) as u8, (v / 16777216) as u8]
}

/// The two's-complement bit pattern of an `i32`, as an unsigned number.
pub open spec fn i32_bits(v: i32) -> u32 {
    if v < 0 {
        (v + 0x1_0000_0000) as u32
    } else {
        v as u32
    }
}

/// Little-endian bytes of an `i32` (two's complement).
pub open spec fn le_i32(v: i32) -> Seq<u8> {
    le_u32(i32_bits(v))
}

/// The bytes of an encoded configuration frame, as [`decode_config`] reads them.
pub fn config_frame_bytes(frame: &heapless::Vec<u8, CONFIG_WIRE_MAX_LEN>) -> (r: &[u8])
    ensures
        r@ == wire_bytes(*frame),
        r@.len() <= CONFIG_WIRE_MAX_LEN,
{
    wire_as_slice(frame)
}

/// The `u16` whose little-endian bytes are `b0 b1`.
pub open spec fn u16_from_le(b0: u8, b1: u8) -> u16 {
    (b0 + 256 * b1) as u16
}

/// The `u32` whose little-endian bytes are `b0 … b3`.
pub open spec fn u32_from_le(b0: u8, b1: u8, b2: u8, b3: u8) -> u32 {
    (b0 + 256 * b1 + 65536 * b2 + 16777216 * b3) as u32
}

/// The `i32` whose two's-complement little-endian bytes are `b0 … b3`.
pub open spec fn i32_from_le(b0: u8, b1: u8, b2: u8, b3: u8) -> i32 {
    let u = u32_from_le(b0, b1, b2, b3);
    if u >= 0x8000_0000 {
        (u - 0x1_0000_0000) as i32
    } else {
        u as i32
    }
}

/// The wire form of an inventory message: revision, product ID, operation
/// code, stock value and battery percentage, integers little-endian.
pub open spec fn inventory_wire(m: InventoryMessage) -> Seq<u8> {
    le_u32(m.revision) + le_u32(m.product_id) + seq![op_code(m.op)] + le_i32(m.stock_value) + seq![
        m.battery_pct,
    ]
}

/// The inventory message that the wire bytes `b` carry, if they are one.
pub open spec fn inventory_from_wire(b: Seq<u8>) -> Option<InventoryMessage> {
    if b.len() != 14 {
        None
    } else {
        match op_of_code(b[8]) {
            Some(op) => Some(
                InventoryMessage {
                    revision: u32_from_le(b[0], b[1], b[2], b[3]),
                    product_id: u32_from_le(b[4], b[5], b[6], b[7]),
                    op,
                    stock_value: i32_from_le(b[9], b[10], b[11], b[12]),
                    battery_pct: b[13],
                },
            ),
            None => None,
        }
    }
}

/// Little-endian bytes of `v`.
fn u32_le_bytes(v: u32) -> (r: [u8; 4])
    ensures
        r@ == le_u32(v),
{
    let r = [(v % 256) as u8, ((v / 256) % 256) as u8, ((v / 65536) % 256) as u8, (v / 16777216) as u8];
    assert(r@ =~= le_u32(v));
    r
}

/// Little-endian two's-complement bytes of `v`.
fn i32_le_bytes(v: i32) -> (r: [u8; 4])
    ensures
        r@ == le_i32(v),
{
    let u: u32 = if v < 0 {
        (v as i64 + 0x1_0000_0000i64) as u32
    } else {
        v as u32
    };
    u32_le_bytes(u)
}

/// The `u32` whose little-endian bytes are `b0 … b3`.
fn u32_from_le_bytes(b0: u8, b1: u8, b2: u8, b3: u8) -> (r: u32)
    ensures
        r == u32_from_le(b0, b1, b2, b3),
{
    b0 as u32 + 256 * (b1 as u32) + 65536 * (b2 as u32) + 16777216 * (b3 as u32)
}

/// The `i32` whose two's-complement little-endian bytes are `b0 … b3`.
fn i32_from_le_bytes(b0: u8, b1: u8, b2: u8, b3: u8) -> (r: i32)
    ensures
        r == i32_from_le(b0, b1, b2, b3),
{
    let u = u32_from_le_bytes(b0, b1, b2, b3);
    if u >= 0x8000_0000u32 {
        (u as i64 - 0x1_0000_0000i64) as i32
    } else {
        u as i32
    }
}

/// Encode an [`InventoryMessage`] into its fixed-length wire payload.
pub fn encode_inventory(msg: &InventoryMessage) -> (out: [u8; INVENTORY_WIRE_LEN])
    ensures
        out@ == inventory_wire(*msg),
{
    let mut out = [0u8; INVENTORY_WIRE_LEN];
    let rev = u32_le_bytes(msg.revision);
    let pid = u32_le_bytes(msg.product_id);
    let stock = i32_le_bytes(msg.stock_value);
    out[0] = rev[0];
    out[1] = rev[1];
    out[2] = rev[2];
    out[3] = rev[3];
    out[4] = pid[0];
    out[5] = pid[1];
    out[6] = pid[2];
    out[7] = pid[3];
    out[8] = msg.op.code();
    out[9] = stock[0];
    out[10] = stock[1];
    out[11] = stock[2];
    out[12] = stock[3];
    out[13] = msg.battery_pct;
    assert(out@ =~= inventory_wire(*msg));
    out
}

/// Decode an [`InventoryMessage`] from wire bytes: `None` unless there are
/// exactly 14 bytes with a known operation code.
pub fn decode_inventory(data: &[u8]) -> (r: Option<InventoryMessage>)
    ensures
        r == inventory_from_wire(data@),
{
    if data.len() != INVENTORY_WIRE_LEN {
        return None;
    }
    let revision = u32_from_le_bytes(data[0], data[1], data[2], data[3]);
    let product_id = u32_from_le_bytes(data[4], data[5], data[6], data[7]);
    let op = match InventoryOp::try_from(data[8]) {
        Ok(op) => op,
        Err(_) => return None,
    };
    let stock_value = i32_from_le_bytes(data[9], data[10], data[11], data[12]);
    let battery_pct = data[13];
    Some(InventoryMessage { revision, product_id, op, stock_value, battery_pct })
}

proof fn lemma_u32_le_roundtrip(v: u32)
    ensures
        u32_from_le(le_u32(v)[0], le_u32(v)[1], le_u32(v)[2], le_u32(v)[3]) == v,
{
}

proof fn lemma_le_u32_roundtrip(b0: u8, b1: u8, b2: u8, b3: u8)
    ensures
        le_u32(u32_from_le(b0, b1, b2, b3)) == seq![b0, b1, b2, b3],
{
    let v = u32_from_le(b0, b1, b2, b3);
    let vi = b0 + 256 * b1 + 65536 * b2 + 16777216 * b3;
    assert(v == vi);
    let q1 = b1 + 256 * b2 + 65536 * b3;
    let q2 = b2 + 256 * b3;
    vstd::arithmetic::div_mod::lemma_fundamental_div_mod_converse(vi, 256, q1, b0 as int);
    vstd::arithmetic::div_mod::lemma_fundamental_div_mod_converse(q1, 256, q2, b1 as int);
    vstd::arithmetic::div_mod::lemma_fundamental_div_mod_converse(q2, 256, b3 as int, b2 as int);
    vstd::arithmetic::div_mod::lemma_fundamental_div_mod_converse(vi, 65536, q2, b0 + 256 * b1);
    vstd::arithmetic::div_mod::lemma_fundamental_div_mod_converse(
        vi,
        16777216,
        b3 as int,
        b0 + 256 * b1 + 65536 * b2,
    );
    assert(le_u32(v) =~= seq![b0, b1, b2, b3]);
}

/// Decoding an encoded inventory message gives the message back.
pub proof fn lemma_inventory_roundtrip(m: InventoryMessage)
    ensures
        inventory_from_wire(inventory_wire(m)) == Some(m),
{
    let w = inventory_wire(m);
    lemma_u32_le_roundtrip(m.revision);
    lemma_u32_le_roundtrip(m.product_id);
    lemma_u32_le_roundtrip(i32_bits(m.stock_value));
    assert(w[0] == le_u32(m.revision)[0] && w[1] == le_u32(m.revision)[1] && w[2] == le_u32(
        m.revision,
    )[2] && w[3] == le_u32(m.revision)[3]);
    assert(w[4] == le_u32(m.product_id)[0] && w[5] == le_u32(m.product_id)[1] && w[6] == le_u32(
        m.product_id,
    )[2] && w[7] == le_u32(m.product_id)[3]);
    assert(w[8] == op_code(m.op));
    assert(w[9] == le_i32(m.stock_value)[0] && w[10] == le_i32(m.stock_value)[1] && w[11]
        == le_i32(m.stock_value)[2] && w[12] == le_i32(m.stock_value)[3]);
    assert(w[13] == m.battery_pct);
}

/// Every valid inventory frame is the encoding of the message it decodes to.
pub proof fn lemma_inventory_wire_roundtrip(b: Seq<u8>)
    requires
        inventory_from_wire(b) is Some,
    ensures
        inventory_wire(inventory_from_wire(b)->0) == b,
{
    let m = inventory_from_wire(b)->0;
    lemma_le_u32_roundtrip(b[0], b[1], b[2], b[3]);
    lemma_le_u32_roundtrip(b[4], b[5], b[6], b[7]);
    lemma_le_u32_roundtrip(b[9], b[10], b[11], b[12]);
    assert(i32_bits(m.stock_value) == u32_from_le(b[9], b[10], b[11], b[12]));
    assert(inventory_wire(m) =~= b);
}

/// The wire form of a configuration message: revision, role code, publish
/// interval, the two string lengths, then the Grocycode and product-name bytes.
pub open spec fn config_wire(
    revision: u32,
    role: MeshNodeRole,
    interval: u16,
    code: Seq<u8>,
    name: Seq<u8>,
) -> Seq<u8> {
    le_u32(revision) + seq![role_code(role)] + le_u16(interval) + seq![
        code.len() as u8,
        name.len() as u8,
    ] + code + name
}

/// What the wire bytes `b` carry as a configuration message, if they are one:
/// at least the 9 header bytes, a known role, string lengths within 20 and 32
/// whose sum accounts for the rest exactly, and both strings valid UTF-8.
pub open spec fn config_from_wire(b: Seq<u8>) -> Option<(u32, MeshNodeRole, u16, Seq<u8>, Seq<u8>)> {
    if b.len() < 9 {
        None
    } else {
        match role_of_code(b[4]) {
            None => None,
            Some(role) => {
                let gl = b[7] as int;
                let pl = b[8] as int;
                if gl > 20 || pl > 32 || b.len() != 9 + gl + pl {
                    None
                } else {
                    let code = b.subrange(9, 9 + gl);
                    let name = b.subrange(9 + gl, b.len() as int);
                    if vstd::utf8::valid_utf8(code) && vstd::utf8::valid_utf8(name) {
                        Some(
                            (
                                u32_from_le(b[0], b[1], b[2], b[3]),
                                role,
                                u16_from_le(b[5], b[6]),
                                code,
                                name,
                            ),
                        )
                    } else {
                        None
                    }
                }
            },
        }
    }
}

/// Little-endian bytes of `v`.
fn u16_le_bytes(v: u16) -> (r: [u8; 2])
    ensures
        r@ == le_u16(v),
{
    let r = [(v % 256) as u8, (v / 256) as u8];
    assert(r@ =~= le_u16(v));
    r
}

/// Encode a [`ConfigMessage`] into its variable-length wire payload.
///
/// Always `Some`: the header and both strings together never exceed
/// [`CONFIG_WIRE_MAX_LEN`] bytes.
pub fn encode_config(msg: &ConfigMessage) -> (r: Option<heapless::Vec<u8, CONFIG_WIRE_MAX_LEN>>)
    ensures
        r matches Some(v) && wire_bytes(v) == config_wire(
            msg.revision,
            msg.role,
            msg.publish_interval_secs,
            code_bytes(msg.grocycode),
            name_bytes(msg.product_name),
        ),
{
    let grocy_bytes = code_as_str(&msg.grocycode).as_bytes();
    let product_bytes = name_as_str(&msg.product_name).as_bytes();
    let mut out = wire_new();
    wire_extend(&mut out, &u32_le_bytes(msg.revision)).ok()?;
    wire_push(&mut out, msg.role.code()).ok()?;
    wire_extend(&mut out, &u16_le_bytes(msg.publish_interval_secs)).ok()?;
    wire_push(&mut out, grocy_bytes.len() as u8).ok()?;
    wire_push(&mut out, product_bytes.len() as u8).ok()?;
    wire_extend(&mut out, grocy_bytes).ok()?;
    wire_extend(&mut out, product_bytes).ok()?;
    proof {
        assert(wire_bytes(out) =~= config_wire(
            msg.revision,
            msg.role,
            msg.publish_interval_secs,
            code_bytes(msg.grocycode),
            name_bytes(msg.product_name),
        ));
    }
    Some(out)
}

/// The `u16` whose little-endian bytes are `b0 b1`.
fn u16_from_le_bytes(b0: u8, b1: u8) -> (r: u16)
    ensures
        r == u16_from_le(b0, b1),
{
    b0 as u16 + 256 * (b1 as u16)
}

/// Decode a [`ConfigMessage`] from wire bytes: `None` unless they are a
/// well-formed configuration payload (see [`config_from_wire`]).
pub fn decode_config(data: &[u8]) -> (r: Option<ConfigMessage>)
    ensures
        match config_from_wire(data@) {
            Some(v) => r matches Some(m) && config_view(m) == v,
            None => r is None,
        },
{
    if data.len() < 9 {
        return None;
    }
    let revision = u32_from_le_bytes(data[0], data[1], data[2], data[3]);
    let role = MeshNodeRole::try_from(data[4]).ok()?;
    let publish_interval_secs = u16_from_le_bytes(data[5], data[6]);
    let grocy_len = data[7] as usize;
    let product_len = data[8] as usize;
    if grocy_len > crate::firmware::config::MAX_GROCYCODE_LEN
        || product_len > crate::firmware::config::MAX_PRODUCT_NAME_LEN {
        return None;
    }
    let expected = 9usize.checked_add(grocy_len)?.checked_add(product_len)?;
    if data.len() != expected {
        return None;
    }
    let grocy_start: usize = 9;
    let product_start = grocy_start + grocy_len;
    let grocycode_str = utf8_text(vstd::slice::slice_subrange(data, grocy_start, product_start))?;
    let product_name_str = utf8_text(vstd::slice::slice_subrange(data, product_start, data.len()))?;
    let mut grocycode = code_new();
    code_push_str(&mut grocycode, grocycode_str).ok()?;
    let mut product_name = name_new();
    name_push_str(&mut product_name, product_name_str).ok()?;
    proof {
        assert(code_bytes(grocycode) =~= data@.subrange(9, 9 + grocy_len));
        assert(name_bytes(product_name) =~= data@.subrange(9 + grocy_len, data@.len() as int));
    }
    Some(ConfigMessage { revision, role, publish_interval_secs, grocycode, product_name })
}

/// Decoding an encoded configuration gives back what was encoded, for every
/// Grocycode and product name that fit their strings (valid UTF-8 of at most
/// 20 and 32 bytes).
pub proof fn lemma_config_roundtrip(
    revision: u32,
    role: MeshNodeRole,
    interval: u16,
    code: Seq<u8>,
    name: Seq<u8>,
)
    requires
        code.len() <= 20,
        name.len() <= 32,
        vstd::utf8::valid_utf8(code),
        vstd::utf8::valid_utf8(name),
    ensures
        config_from_wire(config_wire(revision, role, interval, code, name)) == Some(
            (revision, role, interval, code, name),
        ),
{
    let w = config_wire(revision, role, interval, code, name);
    lemma_u32_le_roundtrip(revision);
    assert(w[0] == le_u32(revision)[0] && w[1] == le_u32(revision)[1] && w[2] == le_u32(
        revision,
    )[2] && w[3] == le_u32(revision)[3]);
    assert(w[4] == role_code(role));
    assert(w[5] == le_u16(interval)[0] && w[6] == le_u16(interval)[1]);
    assert(u16_from_le(w[5], w[6]) == interval);
    assert(w[7] == code.len() as u8 && w[8] == name.len() as u8);
    assert(w.subrange(9, 9 + code.len() as int) =~= code);
    assert(w.subrange(9 + code.len() as int, w.len() as int) =~= name);
}

/// Every valid configuration frame is the encoding of what it decodes to.
pub proof fn lemma_config_wire_roundtrip(b: Seq<u8>)
    requires
        config_from_wire(b) is Some,
    ensures
        ({
            let (revision, role, interval, code, name) = config_from_wire(b)->0;
            config_wire(revision, role, interval, code, name) == b
        }),
{
    let (revision, role, interval, code, name) = config_from_wire(b)->0;
    lemma_le_u32_roundtrip(b[0], b[1], b[2], b[3]);
    assert(le_u16(interval) =~= seq![b[5], b[6]]);
    assert(config_wire(revision, role, interval, code, name) =~= b);
}

/// `a + 1`, saturating at `u32::MAX`.
pub open spec fn saturating_inc(a: u32) -> u32 {
    if a == u32::MAX {
        a
    } else {
        (a + 1) as u32
    }
}

/// Runtime helper for publishing inventory updates from a tag node.
///
/// Revisions are monotonic per boot unless the caller restores persisted state.
#[derive(Debug, Clone)]
pub struct MeshTagPublisher {
    product_id: u32,
    next_revision: u32,
}

impl MeshTagPublisher {
    /// The product ID this publisher reports on.
    pub closed spec fn spec_product_id(&self) -> u32 {
        self.product_id
    }

    /// The revision the next frame will carry.
    pub closed spec fn spec_next_revision(&self) -> u32 {
        self.next_revision
    }

    /// Create a publisher for one product ID; its first frame has revision 1.
    pub fn new(product_id: u32) -> (r: MeshTagPublisher)
        ensures
            r.spec_product_id() == product_id,
            r.spec_next_revision() == 1,
    {
        MeshTagPublisher { product_id, next_revision: 1 }
    }

    /// Build and encode a stock-delta frame, then advance the revision
    /// (saturating at `u32::MAX`).
    pub fn build_delta_frame(&mut self, delta: i32, battery_pct: u8) -> (r: [u8; INVENTORY_WIRE_LEN])
        ensures
            r@ == inventory_wire(
                InventoryMessage {
                    revision: old(self).spec_next_revision(),
                    product_id: old(self).spec_product_id(),
                    op: InventoryOp::StockDelta,
                    stock_value: delta,
                    battery_pct,
                },
            ),
            final(self).spec_product_id() == old(self).spec_product_id(),
            final(self).spec_next_revision() == saturating_inc(old(self).spec_next_revision()),
    {
        let msg = InventoryMessage {
            revision: self.next_revision,
            product_id: self.product_id,
            op: InventoryOp::StockDelta,
            stock_value: delta,
            battery_pct,
        };
        self.next_revision = self.next_revision.saturating_add(1);
        encode_inventory(&msg)
    }

    /// Build and encode an absolute-stock frame, then advance the revision
    /// (saturating at `u32::MAX`).
    pub fn build_absolute_frame(&mut self, stock_count: i32, battery_pct: u8) -> (r: [u8;
        INVENTORY_WIRE_LEN])
        ensures
            r@ == inventory_wire(
                InventoryMessage {
                    revision: old(self).spec_next_revision(),
                    product_id: old(self).spec_product_id(),
                    op: InventoryOp::StockAbsolute,
                    stock_value: stock_count,
                    battery_pct,
                },
            ),
            final(self).spec_product_id() == old(self).spec_product_id(),
            final(self).spec_next_revision() == saturating_inc(old(self).spec_next_revision()),
    {
        let msg = InventoryMessage {
            revision: self.next_revision,
            product_id: self.product_id,
            op: InventoryOp::StockAbsolute,
            stock_value: stock_count,
            battery_pct,
        };
        self.next_revision = self.next_revision.saturating_add(1);
        encode_inventory(&msg)
    }

    /// Parse a product ID from `grcy-p-{id}`.
    pub fn parse_product_id(grocycode: &str) -> (r: Option<u32>)
        ensures
            r == product_id_of(grocycode.spec_bytes()),
    {
        product_id_from_code(grocycode)
    }
}

/// Two frames built one after the other by a publisher decode to consecutive
/// revisions: the second carries the first's revision plus one, unless the
/// counter has reached `u32::MAX`, where it stays.
pub proof fn lemma_publisher_revisions(first: InventoryMessage, second: InventoryMessage, rev: u32)
    requires
        first.revision == rev,
        second.revision == saturating_inc(rev),
    ensures
        inventory_from_wire(inventory_wire(first))->0.revision == rev,
        inventory_from_wire(inventory_wire(second))->0.revision == saturating_inc(rev),
        rev < u32::MAX ==> inventory_from_wire(inventory_wire(second))->0.revision
            > inventory_from_wire(inventory_wire(first))->0.revision,
{
    lemma_inventory_roundtrip(first);
    lemma_inventory_roundtrip(second);
}

/// Two's-complement little-endian bytes read back give the number.
pub proof fn lemma_i32_le_roundtrip(v: i32)
    ensures
        i32_from_le(le_i32(v)[0], le_i32(v)[1], le_i32(v)[2], le_i32(v)[3]) == v,
{
    lemma_u32_le_roundtrip(i32_bits(v));
}

} // verus!
