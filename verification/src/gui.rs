//! Desktop client side: the bridge address setting and the data handed to the
//! frontend.
use vstd::prelude::*;
use vstd::string::StringExecFns;
use crate::bridge::device::opt_chars;
use crate::bridge::grpc::{NodeInfo, NodeStatus};

verus! {

/// Holds the gRPC address of the bridge so the settings page can change it.
#[derive(Debug, Clone)]
pub struct BridgeState {
    /// Base URI of the bridge's gRPC server (e.g. `http://127.0.0.1:50051`).
    pub addr: String,
}

impl Default for BridgeState {
    fn default() -> (r: BridgeState)
        ensures
            r.addr@ == "http://127.0.0.1:50051"@,
    {
        BridgeState { addr: String::from_str("http://127.0.0.1:50051") }
    }
}

impl BridgeState {
    /// Update the gRPC address used to reach the bridge.
    pub fn set_bridge_addr(&mut self, addr: String)
        ensures
            final(self).addr@ == addr@,
    {
        self.addr = addr;
    }

    /// The currently configured bridge gRPC address.
    pub fn get_bridge_addr(&self) -> (r: String)
        ensures
            r@ == self.addr@,
    {
        self.addr.clone()
    }
}

/// The frontend's name for a node status: `active`, `away`, `provisioning`,
/// or `unknown`.
pub open spec fn status_label(s: NodeStatus) -> Seq<char> {
    match s {
        NodeStatus::Active => "active"@,
        NodeStatus::Away => "away"@,
        NodeStatus::Provisioning => "provisioning"@,
        NodeStatus::Unspecified => "unknown"@,
    }
}

/// Serialisable node summary handed to the frontend.
#[derive(Debug, Clone)]
pub struct NodeInfoDto {
    pub address: String,
    pub name: Option<String>,
    pub grocycode: Option<String>,
    pub product_id: Option<u32>,
    pub product_name: Option<String>,
    pub stock_count: Option<i32>,
    pub battery_pct: Option<u32>,
    pub rssi: Option<i32>,
    pub first_seen_unix: i64,
    pub last_seen_unix: i64,
    pub connected: bool,
    /// One of: `"active"`, `"away"`, `"provisioning"`, `"unknown"`.
    pub status: String,
}

impl NodeInfoDto {
    /// The frontend summary of a node: its fields, and its status as a label.
    pub fn from_node(n: NodeInfo) -> (r: NodeInfoDto)
        ensures
            r.address@ == n.address@,
            opt_chars(r.name) == opt_chars(n.name),
            opt_chars(r.grocycode) == opt_chars(n.grocycode),
            r.product_id == n.product_id,
            opt_chars(r.product_name) == opt_chars(n.product_name),
            r.stock_count == n.stock_count,
            r.battery_pct == n.battery_pct,
            r.rssi == n.rssi,
            r.first_seen_unix == n.first_seen_unix,
            r.last_seen_unix == n.last_seen_unix,
            r.connected == n.connected,
            r.status@ == status_label(n.status),
    {
        let status = match n.status {
            NodeStatus::Active => String::from_str("active"),
            NodeStatus::Away => String::from_str("away"),
            NodeStatus::Provisioning => String::from_str("provisioning"),
            NodeStatus::Unspecified => String::from_str("unknown"),
        };
        NodeInfoDto {
            address: n.address,
            name: n.name,
            grocycode: n.grocycode,
            product_id: n.product_id,
            product_name: n.product_name,
            stock_count: n.stock_count,
            battery_pct: n.battery_pct,
            rssi: n.rssi,
            first_seen_unix: n.first_seen_unix,
            last_seen_unix: n.last_seen_unix,
            connected: n.connected,
            status,
        }
    }
}

/// Result of a provision or link operation.
#[derive(Debug, Clone)]
pub struct OperationResult {
    pub success: bool,
    pub message: String,
}

} // verus!
