use etag::bridge::device::DeviceRegistry;
use etag::bridge::grpc::{tag_to_proto, NodeStatus};
use etag::gui::{BridgeState, NodeInfoDto};

#[test]
fn bridge_address_defaults_and_updates() {
    let mut state = BridgeState::default();
    assert_eq!(state.get_bridge_addr(), "http://127.0.0.1:50051");
    state.set_bridge_addr("http://10.0.0.2:50051".to_owned());
    assert_eq!(state.get_bridge_addr(), "http://10.0.0.2:50051");
}

#[test]
fn node_dto_carries_status_label() {
    let mut reg = DeviceRegistry::new();
    reg.upsert_seen("AA", None, None, 0);
    let tag = reg.get("AA").unwrap();
    let mut info = tag_to_proto(&tag, 1_000, 300);
    assert_eq!(NodeInfoDto::from_node(info.clone()).status, "away");
    info.status = NodeStatus::Active;
    assert_eq!(NodeInfoDto::from_node(info.clone()).status, "active");
    info.status = NodeStatus::Provisioning;
    assert_eq!(NodeInfoDto::from_node(info.clone()).status, "provisioning");
    info.status = NodeStatus::Unspecified;
    let dto = NodeInfoDto::from_node(info);
    assert_eq!(dto.status, "unknown");
    assert_eq!(dto.address, "AA");
}
