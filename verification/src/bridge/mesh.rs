//! Mesh ingest for the bridge: packet decoding, per-node revision tracking and
//! the idempotent application of inventory events to the device registry.
use vstd::prelude::*;
use vstd::string::StringSliceAdditionalSpecFns;
use vstd::hash_map::StringHashMap;
use crate::bridge::device::{new_tag_view, DeviceRegistry, TagView};
use crate::bridge::grocy::{stock_sync_of, StockSync};
use crate::firmware::mesh::{i32_from_le, u32_from_le};
use crate::grocycode::{grocycode_prefix, lemma_product_id_of_grocycode, product_grocycode, product_id_of};
use crate::numeric_text::{ascii_chars, decimal_digits, decimal_string, hex4, hex4_string};

verus! {

/// Mesh wire operation kind for inventory updates.
#[derive(Debug, Clone, Copy, PartialEq, Eq, Structural)]
pub enum MeshInventoryOp {
    /// Delta update from local button interaction.
    StockDelta,
    /// Absolute stock value update.
    StockAbsolute,
}

/// The operation with wire code `v`, if any.
pub open spec fn mesh_op_of_code(v: u8) -> Option<MeshInventoryOp> {
    if v == 0 {
        Some(MeshInventoryOp::StockDelta)
    } else if v == 1 {
        Some(MeshInventoryOp::StockAbsolute)
    } else {
        None
    }
}

impl MeshInventoryOp {
    /// The operation with wire code `v` (0 = delta, 1 = absolute).
    pub fn try_from(v: u8) -> (r: Result<MeshInventoryOp, ()>)
        ensures
            match mesh_op_of_code(v) {
                Some(op) => r == Ok::<MeshInventoryOp, ()>(op),
                None => r is Err,
            },
    {
        match v {
            0 => Ok(MeshInventoryOp::StockDelta),
            1 => Ok(MeshInventoryOp::StockAbsolute),
            _ => Err(()),
        }
    }
}

/// Result of applying one mesh inventory event.
#[derive(Debug, Clone, Copy, PartialEq, Eq, Structural)]
pub enum ApplyOutcome {
    /// Event dropped because its revision is stale/duplicate.
    IgnoredDuplicate,
    /// First known absolute value for this node (or no change); no Grocy sync.
    BaselineApplied,
    /// New value accepted and synced to Grocy.
    SyncedToGrocy,
}

/// Bridge-facing representation of a mesh inventory event.
#[derive(Debug, Clone, Copy, PartialEq, Eq, Structural)]
pub struct MeshInventoryEvent {
    /// Mesh unicast address of the source node.
    pub node_unicast: u16,
    /// Monotonic per-node revision.
    pub revision: u32,
    /// Grocy product ID associated with this node.
    pub product_id: u32,
    /// Inventory operation kind.
    pub op: MeshInventoryOp,
    /// Stock value (`delta` or `absolute` depending on `op`).
    pub stock_value: i32,
    /// Optional battery telemetry.
    pub battery_pct: Option<u8>,
}

/// The event that a UDP mesh-ingest packet carries, if it is one: exactly 16
/// bytes, little-endian `node_unicast: u16`, `revision: u32`,
/// `product_id: u32`, `op: u8` (0 = delta, 1 = absolute), `stock_value: i32`,
/// then `battery_pct: u8`, which counts only when it is at most 100.
pub open spec fn inventory_packet_of(b: Seq<u8>) -> Option<MeshInventoryEvent> {
    if b.len() != 16 {
        None
    } else {
        match mesh_op_of_code(b[10]) {
            Some(op) => Some(
                MeshInventoryEvent {
                    node_unicast: (b[0] + 256 * b[1]) as u16,
                    revision: u32_from_le(b[2], b[3], b[4], b[5]),
                    product_id: u32_from_le(b[6], b[7], b[8], b[9]),
                    op,
                    stock_value: i32_from_le(b[11], b[12], b[13], b[14]),
                    battery_pct: if b[15] <= 100 {
                        Some(b[15])
                    } else {
                        None
                    },
                },
            ),
            None => None,
        }
    }
}

/// Decode one UDP mesh-ingest packet (see [`inventory_packet_of`]).
pub fn decode_inventory_packet(data: &[u8]) -> (r: Option<MeshInventoryEvent>)
    ensures
        r == inventory_packet_of(data@),
{
    if data.len() != 16 {
        return None;
    }
    let node_unicast = data[0] as u16 + 256 * (data[1] as u16);
    let revision = data[2] as u32 + 256 * (data[3] as u32) + 65536 * (data[4] as u32) + 16777216 * (
    data[5] as u32);
    let product_id = data[6] as u32 + 256 * (data[7] as u32) + 65536 * (data[8] as u32) + 16777216
        * (data[9] as u32);
    let op = match MeshInventoryOp::try_from(data[10]) {
        Ok(op) => op,
        Err(_) => return None,
    };
    let u = data[11] as u32 + 256 * (data[12] as u32) + 65536 * (data[13] as u32) + 16777216 * (
    data[14] as u32);
    let stock_value: i32 = if u >= 0x8000_0000u32 {
        (u as i64 - 0x1_0000_0000i64) as i32
    } else {
        u as i32
    };
    let battery_pct = if data[15] <= 100 {
        Some(data[15])
    } else {
        None
    };
    Some(MeshInventoryEvent { node_unicast, revision, product_id, op, stock_value, battery_pct })
}

/// Whether a revision tracker with last revisions `m` accepts `revision` for
/// `key`: only when it is strictly above the last one accepted for that key.
pub open spec fn guard_accepts(m: Map<Seq<char>, u32>, key: Seq<char>, revision: u32) -> bool {
    !m.contains_key(key) || revision > m[key]
}

/// Per-node revision tracker used for idempotency and duplicate rejection.
pub struct MeshRevisionGuard {
    inner: StringHashMap<u32>,
}

impl MeshRevisionGuard {
    /// The last accepted revision of every node key.
    pub closed spec fn view_revisions(&self) -> Map<Seq<char>, u32> {
        self.inner@
    }

    /// A tracker that has accepted nothing yet.
    pub fn new() -> (r: MeshRevisionGuard)
        ensures
            r.view_revisions() == Map::<Seq<char>, u32>::empty(),
    {
        MeshRevisionGuard { inner: StringHashMap::new() }
    }

    /// Accept only strictly increasing revisions for `node_key`.
    ///
    /// Returns `false` for a duplicate or stale revision (`revision <= last`);
    /// on acceptance the revision becomes the node's latest and `true` is returned.
    pub fn accept(&mut self, node_key: &str, revision: u32) -> (r: bool)
        ensures
            r == guard_accepts(old(self).view_revisions(), node_key@, revision),
            r ==> final(self).view_revisions() == old(self).view_revisions().insert(
                node_key@,
                revision,
            ),
            !r ==> final(self).view_revisions() == old(self).view_revisions(),
    {
        match self.inner.get(node_key) {
            Some(prev) => if revision <= *prev {
                return false;
            },
            None => {},
        }
        self.inner.insert(node_key.to_owned(), revision);
        true
    }
}

/// Once a revision is accepted for a node, no revision at or below it is
/// accepted again for that node; a strictly higher one is.
pub proof fn lemma_guard_strictly_increasing(
    m: Map<Seq<char>, u32>,
    key: Seq<char>,
    revision: u32,
    later: u32,
)
    requires
        guard_accepts(m, key, revision),
    ensures
        guard_accepts(m.insert(key, revision), key, later) == (later > revision),
{
}

/// The registry address of a mesh node: `mesh:` and its unicast address as
/// four upper-case hexadecimal digits.
pub open spec fn node_key(n: u16) -> Seq<char> {
    "mesh:"@ + ascii_chars(hex4(n))
}

/// The display name of a mesh node: `mesh-node-` and its unicast address as
/// four upper-case hexadecimal digits.
pub open spec fn node_name(n: u16) -> Seq<char> {
    "mesh-node-"@ + ascii_chars(hex4(n))
}

/// `a + b`, saturating at the bounds of `i32`.
pub open spec fn saturating_add_i32(a: i32, b: i32) -> i32 {
    if a + b > i32::MAX {
        i32::MAX
    } else if a + b < i32::MIN {
        i32::MIN
    } else {
        (a + b) as i32
    }
}

fn saturating_add(a: i32, b: i32) -> (r: i32)
    ensures
        r == saturating_add_i32(a, b),
{
    match a.checked_add(b) {
        Some(v) => v,
        None => if b > 0 {
            i32::MAX
        } else {
            i32::MIN
        },
    }
}

/// The stock a node reports: its previous stock (0 when none is known) plus the
/// delta, saturating, or the absolute value.
pub open spec fn resolved_stock(e: MeshInventoryEvent, prior: Option<i32>) -> i32 {
    let p = match prior {
        Some(s) => s,
        None => 0,
    };
    match e.op {
        MeshInventoryOp::StockDelta => saturating_add_i32(p, e.stock_value),
        MeshInventoryOp::StockAbsolute => e.stock_value,
    }
}

/// The record of a mesh node after an accepted event: named after the node,
/// linked to the event's product, with the resolved stock and any battery
/// reading, last seen at `now`.
pub open spec fn ingested_entry(base: TagView, e: MeshInventoryEvent, now: i64) -> TagView {
    TagView {
        name: Some(node_name(e.node_unicast)),
        grocycode: Some(ascii_chars(product_grocycode(e.product_id as nat))),
        product_id: Some(e.product_id),
        stock_count: Some(resolved_stock(e, base.stock_count)),
        battery_pct: if e.battery_pct is Some {
            e.battery_pct
        } else {
            base.battery_pct
        },
        last_seen: now,
        ..base
    }
}

/// What remains to be done after an event has been recorded.
#[derive(Debug, Clone, Copy, PartialEq, Eq, Structural)]
pub enum ApplyPlan {
    /// Nothing to send to Grocy; the event's outcome is final.
    Finished(ApplyOutcome),
    /// Synchronise Grocy from `previous` to `new_count` for `product_id`; once
    /// done, the outcome is [`ApplyOutcome::SyncedToGrocy`].
    SyncToGrocy { product_id: u32, previous: i32, new_count: i32 },
}

/// What an accepted event asks of Grocy, given the node's stock before it.
///
/// A delta is synchronised from the previous stock (0 when none was known);
/// a first absolute value only sets the baseline; no change needs no sync.
pub open spec fn ingest_plan(prior: Option<i32>, e: MeshInventoryEvent) -> ApplyPlan {
    let resolved = resolved_stock(e, prior);
    let sync_previous = match e.op {
        MeshInventoryOp::StockDelta => Some(
            match prior {
                Some(p) => p,
                None => 0,
            },
        ),
        MeshInventoryOp::StockAbsolute => prior,
    };
    match sync_previous {
        None => ApplyPlan::Finished(ApplyOutcome::BaselineApplied),
        Some(p) => if p == resolved {
            ApplyPlan::Finished(ApplyOutcome::BaselineApplied)
        } else {
            ApplyPlan::SyncToGrocy { product_id: e.product_id, previous: p, new_count: resolved }
        },
    }
}

proof fn lemma_ascii_roundtrip(b: Seq<u8>)
    requires
        forall|i: int| 0 <= i < b.len() ==> #[trigger] b[i] < 128,
    ensures
        vstd::utf8::encode_utf8(ascii_chars(b)) == b,
{
    let c = ascii_chars(b);
    assert(vstd::utf8::is_ascii_chars(c));
    vstd::utf8::is_ascii_chars_encode_utf8(c);
    assert(vstd::utf8::encode_utf8(c) =~= b);
}

/// Record a mesh inventory event with duplicate rejection, and say what is left
/// to do. A stale or duplicate revision changes nothing. Otherwise the node's
/// record (address [`node_key`]) is created or refreshed, linked to the
/// product's Grocycode, given the resolved stock and any battery reading, and
/// the Grocy synchronisation that the change calls for is returned.
pub fn apply_inventory_event(
    registry: &mut DeviceRegistry,
    guard: &mut MeshRevisionGuard,
    event: &MeshInventoryEvent,
    now: i64,
) -> (r: ApplyPlan)
    ensures
        ({
            let key = node_key(event.node_unicast);
            let old_map = old(registry).view_map();
            let base = if old_map.contains_key(key) {
                old_map[key]
            } else {
                new_tag_view(key, now)
            };
            if guard_accepts(old(guard).view_revisions(), key, event.revision) {
                &&& final(guard).view_revisions() == old(guard).view_revisions().insert(
                    key,
                    event.revision,
                )
                &&& final(registry).view_map() == old_map.insert(
                    key,
                    ingested_entry(base, *event, now),
                )
                &&& r == ingest_plan(base.stock_count, *event)
            } else {
                &&& r == ApplyPlan::Finished(ApplyOutcome::IgnoredDuplicate)
                &&& final(guard).view_revisions() == old(guard).view_revisions()
                &&& final(registry).view_map() == old_map
            }
        }),
{
    let node_key = hex4_string("mesh:", event.node_unicast);
    if !guard.accept(node_key.as_str(), event.revision) {
        return ApplyPlan::Finished(ApplyOutcome::IgnoredDuplicate);
    }
    let ghost key = node_key@;
    let ghost m0 = registry.view_map();
    let ghost base = if m0.contains_key(key) {
        m0[key]
    } else {
        new_tag_view(key, now)
    };
    let synthetic_name = hex4_string("mesh-node-", event.node_unicast);
    registry.upsert_seen(node_key.as_str(), Some(synthetic_name), None, now);
    let code = decimal_string("grcy-p-", event.product_id);
    proof {
        reveal_strlit("grcy-p-");
        crate::numeric_text::lemma_decimal_digits_value(event.product_id as nat);
        let pg = product_grocycode(event.product_id as nat);
        assert("grcy-p-"@ =~= ascii_chars(grocycode_prefix()));
        assert(code@ =~= ascii_chars(pg));
        assert forall|i: int| 0 <= i < pg.len() implies #[trigger] pg[i] < 128 by {
            if i >= 7 {
                assert(crate::numeric_text::is_digit(decimal_digits(event.product_id as nat)[i - 7]));
            }
        }
        lemma_ascii_roundtrip(pg);
        lemma_product_id_of_grocycode(event.product_id);
        assert(product_id_of(vstd::utf8::encode_utf8(code@)) == Some(event.product_id));
    }
    registry.update_grocycode(node_key.as_str(), code.as_str(), now);
    let prior_stock = match registry.get(node_key.as_str()) {
        Some(d) => match d.stock_count {
            Some(s) => s,
            None => 0,
        },
        None => 0,
    };
    let resolved_stock = match event.op {
        MeshInventoryOp::StockDelta => saturating_add(prior_stock, event.stock_value),
        MeshInventoryOp::StockAbsolute => event.stock_value,
    };
    let previous = registry.update_stock(node_key.as_str(), resolved_stock, now);
    if let Some(pct) = event.battery_pct {
        registry.update_battery(node_key.as_str(), pct, now);
    }
    proof {
        assert(registry.view_map() =~= m0.insert(key, ingested_entry(base, *event, now)));
    }
    let sync_previous = match event.op {
        MeshInventoryOp::StockDelta => match previous {
            Some(prev) => prev,
            None => prior_stock,
        },
        MeshInventoryOp::StockAbsolute => match previous {
            Some(prev) => prev,
            None => return ApplyPlan::Finished(ApplyOutcome::BaselineApplied),
        },
    };
    if sync_previous == resolved_stock {
        return ApplyPlan::Finished(ApplyOutcome::BaselineApplied);
    }
    ApplyPlan::SyncToGrocy {
        product_id: event.product_id,
        previous: sync_previous,
        new_count: resolved_stock,
    }
}

/// Replaying an event that was applied is ignored: the bridge keeps the last
/// applied revision of each node, so the same event never reaches Grocy twice.
pub proof fn lemma_replayed_event_ignored(m: Map<Seq<char>, u32>, e: MeshInventoryEvent)
    requires
        guard_accepts(m, node_key(e.node_unicast), e.revision),
    ensures
        !guard_accepts(m.insert(node_key(e.node_unicast), e.revision), node_key(e.node_unicast), e.revision),
{
}

/// The first absolute stock value a node reports only sets the baseline: it is
/// recorded, and nothing is sent to Grocy.
pub proof fn lemma_first_absolute_is_baseline(e: MeshInventoryEvent)
    requires
        e.op == MeshInventoryOp::StockAbsolute,
    ensures
        ingest_plan(None, e) == ApplyPlan::Finished(ApplyOutcome::BaselineApplied),
{
}

/// A delta event asks Grocy for exactly that delta (added when positive,
/// consumed when negative) whenever the node's stock does not saturate.
pub proof fn lemma_delta_event_syncs_delta(prior: Option<i32>, e: MeshInventoryEvent)
    requires
        e.op == MeshInventoryOp::StockDelta,
        e.stock_value != 0,
        e.stock_value != i32::MIN,
        i32::MIN <= (match prior {
            Some(p) => p,
            None => 0,
        }) + e.stock_value <= i32::MAX,
    ensures
        ingest_plan(prior, e) matches ApplyPlan::SyncToGrocy { product_id, previous, new_count }
            && product_id == e.product_id && stock_sync_of(previous as int, new_count as int) == if e.stock_value > 0 {
            StockSync::Add(e.stock_value)
        } else {
            StockSync::Consume((-e.stock_value) as i32)
        },
{
}

/// An absolute stock value for a node whose stock is already known is synced
/// to Grocy from that stock to the new value whenever they differ, and asks
/// nothing of Grocy when they are equal; only a node's first absolute value is
/// a baseline.
pub proof fn lemma_absolute_event_syncs_from_known_stock(p: i32, e: MeshInventoryEvent)
    requires
        e.op == MeshInventoryOp::StockAbsolute,
    ensures
        e.stock_value != p ==> ingest_plan(Some(p), e) == (ApplyPlan::SyncToGrocy {
            product_id: e.product_id,
            previous: p,
            new_count: e.stock_value,
        }),
        e.stock_value == p ==> ingest_plan(Some(p), e) == ApplyPlan::Finished(
            ApplyOutcome::BaselineApplied,
        ),
{
}

/// Two accepted events from one node: the record the first leaves holds the
/// stock it reported, and a later absolute value that differs from it is synced
/// to Grocy from that stock to the new value.
pub proof fn lemma_absolute_after_event_syncs_difference(
    base: TagView,
    first: MeshInventoryEvent,
    second: MeshInventoryEvent,
    now: i64,
)
    requires
        second.op == MeshInventoryOp::StockAbsolute,
        first.op == MeshInventoryOp::StockAbsolute,
        second.stock_value != first.stock_value,
    ensures
        ingested_entry(base, first, now).stock_count == Some(first.stock_value),
        ingest_plan(ingested_entry(base, first, now).stock_count, second) == (ApplyPlan::SyncToGrocy {
            product_id: second.product_id,
            previous: first.stock_value,
            new_count: second.stock_value,
        }),
{
}

} // verus!
