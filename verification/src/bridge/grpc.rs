//! The bridge's node service: what it answers about the devices it knows.
use vstd::prelude::*;
use vstd::string::{StringExecFns, StringSliceAdditionalSpecFns};
use crate::bridge::device::{
    opt_chars, parse_product_id, views, DeviceRegistry, TagInfo, TagView,
};
use crate::grocycode::product_id_of;

verus! {

/// Liveness of a node as reported to clients.
#[derive(Debug, Clone, Copy, PartialEq, Eq, Structural)]
pub enum NodeStatus {
    /// No status known.
    Unspecified,
    /// Connected, or heard from within the timeout.
    Active,
    /// Not connected and silent for longer than the timeout.
    Away,
    /// Being provisioned into the mesh.
    Provisioning,
}

/// One node as reported to clients.
#[derive(Debug, Clone)]
pub struct NodeInfo {
    pub address: String,
    pub name: Option<String>,
    pub grocycode: Option<String>,
    pub product_id: Option<u32>,
    pub product_name: Option<String>,
    pub stock_count: Option<i32>,
    pub battery_pct: Option<u32>,
    pub rssi: Option<i32>,
    pub first_seen_unix: i64,
    pub last_seen_unix: i64,
    pub connected: bool,
    pub status: NodeStatus,
}

/// The status of a node: active while connected or heard from within
/// `timeout_secs`, away otherwise.
pub open spec fn status_of(connected: bool, secs_since: int, timeout_secs: int) -> NodeStatus {
    if connected {
        NodeStatus::Active
    } else if secs_since > timeout_secs {
        NodeStatus::Away
    } else {
        NodeStatus::Active
    }
}

/// Whether `n` reports the record `t` at time `now` with timeout `timeout_secs`.
pub open spec fn reports(n: NodeInfo, t: TagView, now: int, timeout_secs: int) -> bool {
    &&& n.address@ == t.address
    &&& opt_chars(n.name) == t.name
    &&& opt_chars(n.grocycode) == t.grocycode
    &&& n.product_id == t.product_id
    &&& opt_chars(n.product_name) == t.product_name
    &&& n.stock_count == t.stock_count
    &&& n.battery_pct == match t.battery_pct {
        Some(b) => Some(b as u32),
        None => None::<u32>,
    }
    &&& n.rssi == match t.rssi {
        Some(r) => Some(r as i32),
        None => None::<i32>,
    }
    &&& n.first_seen_unix == t.first_seen
    &&& n.last_seen_unix == t.last_seen
    &&& n.connected == t.connected
    &&& n.status == status_of(t.connected, now - t.last_seen, timeout_secs)
}

/// Report a device record as a node at time `now` (Unix seconds).
pub fn tag_to_proto(tag: &TagInfo, now: i64, timeout_secs: i64) -> (r: NodeInfo)
    requires
        i64::MIN <= now - tag.last_seen <= i64::MAX,
    ensures
        reports(r, tag@, now as int, timeout_secs as int),
        (r.status == NodeStatus::Away) == (!tag.connected && now - tag.last_seen > timeout_secs),
{
    let secs_since = now - tag.last_seen;
    let status = if tag.connected {
        NodeStatus::Active
    } else if secs_since > timeout_secs {
        NodeStatus::Away
    } else {
        NodeStatus::Active
    };
    let t = tag.snapshot();
    NodeInfo {
        address: t.address,
        name: t.name,
        grocycode: t.grocycode,
        product_id: t.product_id,
        product_name: t.product_name,
        stock_count: t.stock_count,
        battery_pct: match t.battery_pct {
            Some(b) => Some(b as u32),
            None => None,
        },
        rssi: match t.rssi {
            Some(r) => Some(r as i32),
            None => None,
        },
        first_seen_unix: t.first_seen,
        last_seen_unix: t.last_seen,
        connected: t.connected,
        status,
    }
}

/// Whether every record's last sighting lies within `i64` distance of `now`.
pub open spec fn times_comparable(tags: Seq<TagView>, now: int) -> bool {
    forall|i: int| 0 <= i < tags.len() ==> i64::MIN <= now - #[trigger] tags[i].last_seen <= i64::MAX
}

/// All known nodes, in address order.
pub fn list_nodes(registry: &DeviceRegistry, now: i64, timeout_secs: i64) -> (r: Vec<NodeInfo>)
    requires
        times_comparable(registry.view_tags(), now as int),
    ensures
        r@.len() == registry.view_tags().len(),
        forall|i: int|
            0 <= i < r@.len() ==> reports(
                #[trigger] r@[i],
                registry.view_tags()[i],
                now as int,
                timeout_secs as int,
            ),
{
    let all = registry.get_all();
    let mut out: Vec<NodeInfo> = Vec::new();
    let n = all.len();
    let mut i: usize = 0;
    while i < n
        invariant
            i <= n,
            n == all@.len(),
            views(all@) == registry.view_tags(),
            times_comparable(registry.view_tags(), now as int),
            out@.len() == i,
            forall|k: int|
                0 <= k < i ==> reports(
                    #[trigger] out@[k],
                    registry.view_tags()[k],
                    now as int,
                    timeout_secs as int,
                ),
        decreases n - i,
    {
        assert(registry.view_tags()[i as int] == all@[i as int]@);
        assert(i64::MIN <= now - registry.view_tags()[i as int].last_seen <= i64::MAX);
        let info = tag_to_proto(&all[i], now, timeout_secs);
        out.push(info);
        i += 1;
    }
    out
}

/// The node with address `address`, or the not-found message
/// `Node {address} not found`.
pub fn get_node(registry: &DeviceRegistry, address: &str, now: i64, timeout_secs: i64) -> (r: Result<
    NodeInfo,
    String,
>)
    requires
        registry.view_map().contains_key(address@) ==> i64::MIN <= now
            - registry.view_map()[address@].last_seen <= i64::MAX,
    ensures
        registry.view_map().contains_key(address@) ==> (r matches Ok(n) && reports(
            n,
            registry.view_map()[address@],
            now as int,
            timeout_secs as int,
        )),
        !registry.view_map().contains_key(address@) ==> (r matches Err(m) && m@ == "Node "@
            + address@ + " not found"@),
{
    match registry.get(address) {
        Some(tag) => Ok(tag_to_proto(&tag, now, timeout_secs)),
        None => {
            let mut m = String::from_str("Node ");
            m.append(address);
            m.append(" not found");
            Err(m)
        },
    }
}

/// The interval between snapshots of a node watch: the requested one, or one
/// second when none (0) is requested.
pub fn watch_interval_ms(requested_ms: u32) -> (r: u64)
    ensures
        r == if requested_ms == 0 {
            1000
        } else {
            requested_ms as u64
        },
{
    if requested_ms == 0 {
        1_000
    } else {
        requested_ms as u64
    }
}

/// Answer to a link or provisioning request.
#[derive(Debug, Clone)]
pub struct LinkNodeResponse {
    pub success: bool,
    pub message: String,
}

/// Link a node to a Grocy item by recording its Grocycode in the registry.
///
/// A Grocycode that does not name a product is refused with
/// `Invalid grocycode "{grocycode}": expected "grcy-p-<id>"` and changes
/// nothing; otherwise the code is recorded (for a known node) and the answer is
/// `Node {address} linked to {grocycode}`.
pub fn link_node_to_grocy(
    registry: &mut DeviceRegistry,
    address: &str,
    grocycode: &str,
    now: i64,
) -> (r: LinkNodeResponse)
    ensures
        product_id_of(grocycode.spec_bytes()) is None ==> !r.success && r.message@
            == "Invalid grocycode \""@ + grocycode@ + "\": expected \"grcy-p-<id>\""@
            && final(registry).view_map() == old(registry).view_map(),
        product_id_of(grocycode.spec_bytes()) is Some ==> r.success && r.message@ == "Node "@
            + address@ + " linked to "@ + grocycode@ && (old(registry).view_map().contains_key(
            address@) ==> final(registry).view_map() == old(registry).view_map().insert(
            address@,
            TagView {
                grocycode: Some(grocycode@),
                product_id: product_id_of(grocycode.spec_bytes()),
                last_seen: now,
                ..old(registry).view_map()[address@]
            },
        )) && (!old(registry).view_map().contains_key(address@) ==> final(registry).view_map()
            == old(registry).view_map()),
{
    if parse_product_id(grocycode).is_none() {
        let mut m = String::from_str("Invalid grocycode \"");
        m.append(grocycode);
        m.append("\": expected \"grcy-p-<id>\"");
        return LinkNodeResponse { success: false, message: m };
    }
    registry.update_grocycode(address, grocycode, now);
    let mut m = String::from_str("Node ");
    m.append(address);
    m.append(" linked to ");
    m.append(grocycode);
    LinkNodeResponse { success: true, message: m }
}

/// Answer to a mesh provisioning request: not available yet.
pub fn provision_node(address: &str) -> (r: LinkNodeResponse)
    ensures
        !r.success,
        r.message@ == "BLE Mesh provisioning is not yet implemented (WIP branch)"@,
{
    LinkNodeResponse {
        success: false,
        message: String::from_str("BLE Mesh provisioning is not yet implemented (WIP branch)"),
    }
}

/// A node reported as away is one that is not connected and was last heard
/// from more than the timeout ago; every other node is active, whenever it
/// was first seen.
pub proof fn lemma_status_from_last_sighting(n: NodeInfo, t: TagView, now: int, timeout_secs: int)
    requires
        reports(n, t, now, timeout_secs),
    ensures
        (n.status == NodeStatus::Away) == (!t.connected && now - t.last_seen > timeout_secs),
        (n.status == NodeStatus::Active) == (t.connected || now - t.last_seen <= timeout_secs),
{
}

} // verus!
