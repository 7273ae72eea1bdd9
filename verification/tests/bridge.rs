use etag::bridge::ble::{
    classify_notification, decode_stock_count, device_summary_line, stock_sync_request,
    NotificationAction,
    CHAR_BATTERY_PCT, CHAR_GROCYCODE, CHAR_STOCK_COUNT, ETAG_SERVICE_UUID,
};
use etag::bridge::config::{parse_transport_mode, Config, ConfigError, ConfigVars, TransportMode};
use etag::bridge::device::{parse_product_id, DeviceRegistry, TagInfo};
use etag::bridge::grocy::{sync_stock_action, StockSync};
use etag::bridge::grpc::{
    get_node, link_node_to_grocy, list_nodes, provision_node, tag_to_proto, watch_interval_ms,
    NodeStatus,
};
use etag::bridge::mesh::{
    apply_inventory_event, decode_inventory_packet, ApplyOutcome, ApplyPlan, MeshInventoryEvent,
    MeshInventoryOp, MeshRevisionGuard,
};

#[test]
fn decode_stock_count_valid() {
    assert_eq!(decode_stock_count(&[0x00, 0x00, 0x00, 0x00]), Some(0));
    assert_eq!(decode_stock_count(&[0x0A, 0x00, 0x00, 0x00]), Some(10));
    assert_eq!(decode_stock_count(&[0xFF, 0xFF, 0xFF, 0x7F]), Some(i32::MAX));
    assert_eq!(decode_stock_count(&[0xFF, 0xFF, 0xFF, 0xFF]), Some(-1));
}

#[test]
fn decode_stock_count_too_short() {
    assert_eq!(decode_stock_count(&[]), None);
    assert_eq!(decode_stock_count(&[0x01, 0x02, 0x03]), None);
}

#[test]
fn uuid_constants_are_correct() {
    assert_eq!(
        uuid::Uuid::from_u128(ETAG_SERVICE_UUID).to_string(),
        "4fa0e000-1081-4329-9b34-1c4bfd86c2f4"
    );
    assert_eq!(
        uuid::Uuid::from_u128(CHAR_GROCYCODE).to_string(),
        "4fa0e001-1081-4329-9b34-1c4bfd86c2f4"
    );
    assert_eq!(
        uuid::Uuid::from_u128(CHAR_STOCK_COUNT).to_string(),
        "4fa0e003-1081-4329-9b34-1c4bfd86c2f4"
    );
    assert_eq!(
        uuid::Uuid::from_u128(CHAR_BATTERY_PCT).to_string(),
        "4fa0e004-1081-4329-9b34-1c4bfd86c2f4"
    );
}

#[test]
fn parse_product_id_valid() {
    assert_eq!(parse_product_id("grcy-p-1"), Some(1));
    assert_eq!(parse_product_id("grcy-p-99999"), Some(99999));
}

#[test]
fn parse_product_id_invalid() {
    assert_eq!(parse_product_id("grcy-lo-3"), None);
    assert_eq!(parse_product_id(""), None);
    assert_eq!(parse_product_id("grcy-p-"), None);
    assert_eq!(parse_product_id("grcy-p-abc"), None);
}

#[test]
fn registry_upsert_and_update() {
    let mut reg = DeviceRegistry::new();
    reg.upsert_seen("AA:BB:CC:DD:EE:FF", Some("etag-1".to_owned()), Some(-65), 100);
    let info = reg.get("AA:BB:CC:DD:EE:FF").expect("device should exist");
    assert_eq!(info.name.as_deref(), Some("etag-1"));
    assert_eq!(info.rssi, Some(-65));
    assert!(!info.connected);

    reg.update_grocycode("AA:BB:CC:DD:EE:FF", "grcy-p-7", 101);
    let info = reg.get("AA:BB:CC:DD:EE:FF").unwrap();
    assert_eq!(info.product_id, Some(7));

    let prev = reg.update_stock("AA:BB:CC:DD:EE:FF", 5, 102);
    assert_eq!(prev, None);
    let prev = reg.update_stock("AA:BB:CC:DD:EE:FF", 6, 103);
    assert_eq!(prev, Some(5));
}

#[test]
fn registry_count_and_get_all() {
    let mut reg = DeviceRegistry::new();
    reg.upsert_seen("11:22:33:44:55:66", None, None, 1);
    reg.upsert_seen("AA:BB:CC:DD:EE:FF", None, None, 2);
    assert_eq!(reg.count(), 2);
    let all = reg.get_all();
    assert_eq!(all.len(), 2);
    assert_eq!(all[0].address, "11:22:33:44:55:66");
    assert_eq!(all[1].address, "AA:BB:CC:DD:EE:FF");
}

#[test]
fn revision_guard_rejects_duplicates() {
    let mut guard = MeshRevisionGuard::new();
    assert!(guard.accept("mesh:0001", 1));
    assert!(!guard.accept("mesh:0001", 1));
    assert!(!guard.accept("mesh:0001", 0));
    assert!(guard.accept("mesh:0001", 2));
}

#[test]
fn decode_inventory_packet_roundtrip_layout() {
    let mut data = [0_u8; 16];
    data[0..2].copy_from_slice(&0x1234_u16.to_le_bytes());
    data[2..6].copy_from_slice(&7_u32.to_le_bytes());
    data[6..10].copy_from_slice(&42_u32.to_le_bytes());
    data[10] = 0;
    data[11..15].copy_from_slice(&(-2_i32).to_le_bytes());
    data[15] = 88;
    let event = decode_inventory_packet(&data).expect("valid packet");
    assert_eq!(event.node_unicast, 0x1234);
    assert_eq!(event.revision, 7);
    assert_eq!(event.product_id, 42);
    assert_eq!(event.op, MeshInventoryOp::StockDelta);
    assert_eq!(event.stock_value, -2);
    assert_eq!(event.battery_pct, Some(88));
}

#[test]
fn decode_inventory_packet_rejects_invalid() {
    assert!(decode_inventory_packet(&[]).is_none());
    let mut data = [0_u8; 16];
    data[10] = 9;
    assert!(decode_inventory_packet(&data).is_none());
}

#[test]
fn inventory_packet_battery_over_100_is_unknown() {
    let mut data = [0_u8; 16];
    data[10] = 1;
    data[15] = 101;
    let event = decode_inventory_packet(&data).unwrap();
    assert_eq!(event.op, MeshInventoryOp::StockAbsolute);
    assert_eq!(event.battery_pct, None);
    data[15] = 100;
    assert_eq!(decode_inventory_packet(&data).unwrap().battery_pct, Some(100));
}

#[test]
fn registry_orders_by_bytes_and_updates_known_devices_only() {
    let mut reg = DeviceRegistry::new();
    for (i, addr) in ["b", "a", "ab", "B", "aa"].iter().enumerate() {
        reg.upsert_seen(addr, None, None, i as i64);
    }
    reg.upsert_seen("a", Some("again".to_owned()), None, 50);
    let all = reg.get_all();
    let order: Vec<&str> = all.iter().map(|t| t.address.as_str()).collect();
    assert_eq!(order, vec!["B", "a", "aa", "ab", "b"]);
    let a = reg.get("a").unwrap();
    assert_eq!(a.first_seen, 1);
    assert_eq!(a.last_seen, 50);
    assert_eq!(a.name.as_deref(), Some("again"));

    assert_eq!(reg.update_stock("zz", 3, 60), None);
    reg.update_battery("zz", 40, 60);
    reg.set_connected("zz", true);
    assert!(reg.get("zz").is_none());
    assert_eq!(reg.count(), 5);

    reg.set_connected("b", true);
    reg.update_battery("b", 40, 61);
    reg.update_rssi("b", -70, 62);
    reg.update_product_name("b", "Flour", 63);
    let b = reg.get("b").unwrap();
    assert!(b.connected);
    assert_eq!(b.battery_pct, Some(40));
    assert_eq!(b.rssi, Some(-70));
    assert_eq!(b.product_name.as_deref(), Some("Flour"));
    assert_eq!(b.last_seen, 63);
    reg.update_grocycode("b", "grcy-lo-1", 64);
    let b = reg.get("b").unwrap();
    assert_eq!(b.grocycode.as_deref(), Some("grcy-lo-1"));
    assert_eq!(b.product_id, None);
}

fn event(node: u16, revision: u32, op: MeshInventoryOp, value: i32) -> MeshInventoryEvent {
    MeshInventoryEvent {
        node_unicast: node,
        revision,
        product_id: 42,
        op,
        stock_value: value,
        battery_pct: Some(90),
    }
}

#[test]
fn mesh_events_set_baseline_then_sync() {
    let mut reg = DeviceRegistry::new();
    let mut guard = MeshRevisionGuard::new();
    let plan = apply_inventory_event(
        &mut reg,
        &mut guard,
        &event(0x00AB, 1, MeshInventoryOp::StockAbsolute, 5),
        10,
    );
    assert_eq!(plan, ApplyPlan::Finished(ApplyOutcome::BaselineApplied));
    let node = reg.get("mesh:00AB").unwrap();
    assert_eq!(node.name.as_deref(), Some("mesh-node-00AB"));
    assert_eq!(node.grocycode.as_deref(), Some("grcy-p-42"));
    assert_eq!(node.product_id, Some(42));
    assert_eq!(node.stock_count, Some(5));
    assert_eq!(node.battery_pct, Some(90));

    let plan = apply_inventory_event(
        &mut reg,
        &mut guard,
        &event(0x00AB, 2, MeshInventoryOp::StockDelta, -2),
        11,
    );
    assert_eq!(plan, ApplyPlan::SyncToGrocy { product_id: 42, previous: 5, new_count: 3 });

    let plan = apply_inventory_event(
        &mut reg,
        &mut guard,
        &event(0x00AB, 2, MeshInventoryOp::StockDelta, -2),
        12,
    );
    assert_eq!(plan, ApplyPlan::Finished(ApplyOutcome::IgnoredDuplicate));
    assert_eq!(reg.get("mesh:00AB").unwrap().stock_count, Some(3));

    let plan = apply_inventory_event(
        &mut reg,
        &mut guard,
        &event(0x00AB, 3, MeshInventoryOp::StockAbsolute, 3),
        13,
    );
    assert_eq!(plan, ApplyPlan::Finished(ApplyOutcome::BaselineApplied));
}

#[test]
fn first_mesh_delta_syncs_from_zero() {
    let mut reg = DeviceRegistry::new();
    let mut guard = MeshRevisionGuard::new();
    let plan = apply_inventory_event(
        &mut reg,
        &mut guard,
        &event(0xFFFF, 9, MeshInventoryOp::StockDelta, 4),
        1,
    );
    assert_eq!(plan, ApplyPlan::SyncToGrocy { product_id: 42, previous: 0, new_count: 4 });
    assert!(reg.get("mesh:FFFF").is_some());
}

#[test]
fn grocy_sync_direction() {
    assert_eq!(sync_stock_action(3, 5), StockSync::Add(2));
    assert_eq!(sync_stock_action(3, 2), StockSync::Consume(1));
    assert_eq!(sync_stock_action(4, 4), StockSync::Unchanged);
}

#[test]
fn notifications_are_classified() {
    assert_eq!(
        classify_notification(CHAR_STOCK_COUNT, &[7, 0, 0, 0]),
        NotificationAction::StockCount(7)
    );
    assert_eq!(
        classify_notification(CHAR_STOCK_COUNT, &[7]),
        NotificationAction::MalformedStockCount
    );
    assert_eq!(
        classify_notification(CHAR_BATTERY_PCT, &[10]),
        NotificationAction::Battery { pct: 10, low: true }
    );
    assert_eq!(
        classify_notification(CHAR_BATTERY_PCT, &[11, 5]),
        NotificationAction::Battery { pct: 11, low: false }
    );
    assert_eq!(classify_notification(CHAR_BATTERY_PCT, &[]), NotificationAction::EmptyBattery);
    assert_eq!(classify_notification(CHAR_GROCYCODE, &[1]), NotificationAction::Ignored);
    assert_eq!(stock_sync_request(Some(4), None, 9), Some((4, 9, 9)));
    assert_eq!(stock_sync_request(Some(4), Some(2), 9), Some((4, 2, 9)));
    assert_eq!(stock_sync_request(None, Some(2), 9), None);
}

#[test]
fn transport_modes_and_config_defaults() {
    assert_eq!(parse_transport_mode(" MeSh\n"), Some(TransportMode::Mesh));
    assert_eq!(parse_transport_mode("gatt"), Some(TransportMode::Gatt));
    assert_eq!(parse_transport_mode("\u{3000}GATT\t"), Some(TransportMode::Gatt));
    assert_eq!(parse_transport_mode("ga tt"), None);
    assert_eq!(parse_transport_mode(""), None);

    let vars = ConfigVars {
        grocy_url: Some("http://grocy.local".to_owned()),
        grocy_api_key: Some("key".to_owned()),
        ..ConfigVars::default()
    };
    let c = Config::from_vars(&vars).unwrap();
    assert_eq!(c.grocy_url, "http://grocy.local");
    assert_eq!(c.grocy_api_key, "key");
    assert_eq!(c.scan_duration_secs, 30);
    assert_eq!(c.scan_interval_secs, 5);
    assert_eq!(c.device_timeout_secs, 300);
    assert_eq!(c.stats_interval_secs, 60);
    assert_eq!(c.transport_mode, TransportMode::Gatt);
    assert_eq!(c.mesh_poll_interval_secs, 5);
    assert_eq!(c.mesh_ingest_bind_addr, "127.0.0.1:9478");
}

#[test]
fn config_errors_come_in_reading_order() {
    let err = Config::from_vars(&ConfigVars::default()).unwrap_err();
    assert_eq!(err, ConfigError::NotSet { name: "GROCY_URL".to_owned() });
    assert_eq!(err.message(), "GROCY_URL environment variable not set");

    let vars = ConfigVars {
        grocy_url: Some("u".to_owned()),
        grocy_api_key: Some("k".to_owned()),
        scan_interval_secs: Some("-1".to_owned()),
        transport_mode: Some("radio".to_owned()),
        ..ConfigVars::default()
    };
    let err = Config::from_vars(&vars).unwrap_err();
    assert_eq!(err.message(), "SCAN_INTERVAL_SECS must be a non-negative integer");

    let vars = ConfigVars {
        grocy_url: Some("u".to_owned()),
        grocy_api_key: Some("k".to_owned()),
        transport_mode: Some("radio".to_owned()),
        mesh_poll_interval_secs: Some("9".to_owned()),
        ..ConfigVars::default()
    };
    let err = Config::from_vars(&vars).unwrap_err();
    assert_eq!(err.message(), "TRANSPORT_MODE must be one of: gatt, mesh (got: radio)");

    let vars = ConfigVars {
        grocy_url: Some("u".to_owned()),
        grocy_api_key: Some("k".to_owned()),
        scan_duration_secs: Some("+45".to_owned()),
        transport_mode: Some(" Mesh ".to_owned()),
        mesh_ingest_bind_addr: Some("0.0.0.0:1".to_owned()),
        ..ConfigVars::default()
    };
    let c = Config::from_vars(&vars).unwrap();
    assert_eq!(c.scan_duration_secs, 45);
    assert_eq!(c.transport_mode, TransportMode::Mesh);
    assert_eq!(c.mesh_ingest_bind_addr, "0.0.0.0:1");
}

#[test]
fn node_service_answers() {
    assert_eq!(watch_interval_ms(0), 1000);
    assert_eq!(watch_interval_ms(250), 250);

    let mut reg = DeviceRegistry::new();
    reg.upsert_seen("AA", Some("tag".to_owned()), Some(-50), 1_000);
    let tag = reg.get("AA").unwrap();
    assert_eq!(tag_to_proto(&tag, 1_200, 300).status, NodeStatus::Active);
    assert_eq!(tag_to_proto(&tag, 1_301, 300).status, NodeStatus::Away);
    reg.set_connected("AA", true);
    let tag = reg.get("AA").unwrap();
    let info = tag_to_proto(&tag, 9_999, 300);
    assert_eq!(info.status, NodeStatus::Active);
    assert_eq!(info.rssi, Some(-50));
    assert_eq!(info.first_seen_unix, 1_000);

    let nodes = list_nodes(&reg, 1_100, 300);
    assert_eq!(nodes.len(), 1);
    assert_eq!(nodes[0].address, "AA");
    assert_eq!(get_node(&reg, "BB", 1_100, 300).unwrap_err(), "Node BB not found");

    let bad = link_node_to_grocy(&mut reg, "AA", "grcy-x-1", 1_100);
    assert!(!bad.success);
    assert_eq!(bad.message, "Invalid grocycode \"grcy-x-1\": expected \"grcy-p-<id>\"");
    assert_eq!(reg.get("AA").unwrap().grocycode, None);
    let ok = link_node_to_grocy(&mut reg, "AA", "grcy-p-5", 1_101);
    assert!(ok.success);
    assert_eq!(ok.message, "Node AA linked to grcy-p-5");
    assert_eq!(get_node(&reg, "AA", 1_200, 300).unwrap().product_id, Some(5));

    let p = provision_node("AA");
    assert!(!p.success);
    assert_eq!(p.message, "BLE Mesh provisioning is not yet implemented (WIP branch)");
}

fn summary_tag() -> TagInfo {
    TagInfo {
        address: "AA:BB:CC:DD:EE:FF".to_string(),
        name: None,
        grocycode: Some("grcy-p-7".to_string()),
        product_id: Some(7),
        product_name: Some("Oat Milk".to_string()),
        stock_count: Some(5),
        battery_pct: Some(87),
        rssi: Some(-62),
        first_seen: 1_000,
        last_seen: 1_997,
        connected: true,
    }
}

#[test]
fn device_summary_line_full_record() {
    assert_eq!(
        device_summary_line(&summary_tag(), 2_000),
        "● AA:BB:CC:DD:EE:FF | Oat Milk | stock=5 | bat=87% | rssi=-62 dBm | last seen 3s ago"
    );
}

#[test]
fn device_summary_line_falls_back_and_marks_unknowns() {
    let mut t = summary_tag();
    t.product_name = None;
    t.stock_count = Some(-3);
    t.battery_pct = None;
    t.rssi = None;
    t.connected = false;
    assert_eq!(
        device_summary_line(&t, 1_997),
        "○ AA:BB:CC:DD:EE:FF | grcy-p-7 | stock=-3 | bat=? | rssi=? | last seen 0s ago"
    );
    t.grocycode = None;
    t.stock_count = None;
    assert_eq!(
        device_summary_line(&t, 1_990),
        "○ AA:BB:CC:DD:EE:FF | (unknown) | stock=? | bat=? | rssi=? | last seen -7s ago"
    );
}

#[test]
fn device_summary_line_age_saturates() {
    let mut t = summary_tag();
    t.last_seen = i64::MIN;
    let line = device_summary_line(&t, i64::MAX);
    assert!(line.ends_with(&format!("last seen {}s ago", i64::MAX)));
    t.last_seen = i64::MAX;
    let line = device_summary_line(&t, i64::MIN);
    assert!(line.ends_with(&format!("last seen {}s ago", i64::MIN)));
}
