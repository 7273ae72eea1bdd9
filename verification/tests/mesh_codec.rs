use etag::firmware::mesh::{
    config_frame_bytes, decode_config, decode_inventory, encode_config, encode_inventory, ConfigMessage, InventoryMessage,
    InventoryOp, MeshNodeRole, MeshTagPublisher, CONFIG_WIRE_MAX_LEN, INVENTORY_WIRE_LEN,
};

#[test]
fn inventory_roundtrip() {
    let msg = InventoryMessage {
        revision: 12,
        product_id: 42,
        op: InventoryOp::StockDelta,
        stock_value: -1,
        battery_pct: 87,
    };
    let encoded = encode_inventory(&msg);
    let decoded = decode_inventory(&encoded).unwrap();
    assert_eq!(decoded, msg);
}

#[test]
fn inventory_decode_rejects_bad_len() {
    assert!(decode_inventory(&[]).is_none());
    assert!(decode_inventory(&[0_u8; INVENTORY_WIRE_LEN - 1]).is_none());
}

#[test]
fn config_roundtrip() {
    let mut grocycode = heapless::String::<20>::new();
    grocycode.push_str("grcy-p-7").unwrap();
    let mut product_name = heapless::String::<32>::new();
    product_name.push_str("Oat Milk").unwrap();
    let msg = ConfigMessage {
        revision: 99,
        role: MeshNodeRole::TagLpn,
        publish_interval_secs: 15,
        grocycode,
        product_name,
    };
    let encoded = encode_config(&msg).unwrap();
    let decoded = decode_config(&encoded).unwrap();
    assert_eq!(decoded, msg);
}

#[test]
fn config_decode_rejects_length_mismatch() {
    let data = [0_u8, 0, 0, 0, 0, 0, 0, 1, 0];
    assert!(decode_config(&data).is_none());
}

#[test]
fn publisher_emits_incrementing_revisions() {
    let mut publisher = MeshTagPublisher::new(42);
    let f1 = publisher.build_delta_frame(1, 80);
    let f2 = publisher.build_absolute_frame(7, 79);
    assert_eq!(decode_inventory(&f1).unwrap().revision, 1);
    assert_eq!(decode_inventory(&f2).unwrap().revision, 2);
}

#[test]
fn parse_product_id_from_grocycode() {
    assert_eq!(MeshTagPublisher::parse_product_id("grcy-p-7"), Some(7));
    assert_eq!(MeshTagPublisher::parse_product_id("grcy-lo-7"), None);
    assert_eq!(MeshTagPublisher::parse_product_id(""), None);
}

#[test]
fn inventory_wire_layout_is_little_endian() {
    let msg = InventoryMessage {
        revision: 0x0403_0201,
        product_id: 0x0807_0605,
        op: InventoryOp::StockAbsolute,
        stock_value: -2,
        battery_pct: 100,
    };
    assert_eq!(
        encode_inventory(&msg),
        [1, 2, 3, 4, 5, 6, 7, 8, 1, 0xFE, 0xFF, 0xFF, 0xFF, 100]
    );
}

#[test]
fn inventory_decode_rejects_unknown_op() {
    let mut frame = encode_inventory(&InventoryMessage {
        revision: 1,
        product_id: 1,
        op: InventoryOp::StockDelta,
        stock_value: 0,
        battery_pct: 0,
    });
    frame[8] = 2;
    assert!(decode_inventory(&frame).is_none());
    assert!(decode_inventory(&[0_u8; INVENTORY_WIRE_LEN + 1]).is_none());
}

#[test]
fn inventory_extremes_roundtrip() {
    for (rev, stock) in [(0u32, i32::MIN), (u32::MAX, i32::MAX), (1, 0)] {
        let msg = InventoryMessage {
            revision: rev,
            product_id: u32::MAX - rev,
            op: InventoryOp::StockAbsolute,
            stock_value: stock,
            battery_pct: 255,
        };
        assert_eq!(decode_inventory(&encode_inventory(&msg)), Some(msg));
    }
}

#[test]
fn config_wire_layout() {
    let mut grocycode = heapless::String::<20>::new();
    grocycode.push_str("ab").unwrap();
    let mut product_name = heapless::String::<32>::new();
    product_name.push_str("c").unwrap();
    let msg = ConfigMessage {
        revision: 0x0102_0304,
        role: MeshNodeRole::RelayRepeater,
        publish_interval_secs: 0x0506,
        grocycode,
        product_name,
    };
    let encoded = encode_config(&msg).unwrap();
    assert_eq!(&encoded[..], &[4, 3, 2, 1, 1, 6, 5, 2, 1, b'a', b'b', b'c'][..]);
}

#[test]
fn config_of_full_strings_fits() {
    let mut grocycode = heapless::String::<20>::new();
    grocycode.push_str("grcy-p-1234567890123").unwrap();
    let mut product_name = heapless::String::<32>::new();
    product_name.push_str("abcdefghijklmnopqrstuvwxyzABCDEF").unwrap();
    let msg = ConfigMessage {
        revision: 1,
        role: MeshNodeRole::TagLpn,
        publish_interval_secs: 60,
        grocycode,
        product_name,
    };
    let encoded = encode_config(&msg).unwrap();
    assert_eq!(encoded.len(), CONFIG_WIRE_MAX_LEN);
    assert_eq!(decode_config(&encoded).unwrap(), msg);
}

#[test]
fn config_decode_rejects_bad_role_and_invalid_utf8() {
    // Unknown role code.
    assert!(decode_config(&[0, 0, 0, 0, 2, 0, 0, 0, 0]).is_none());
    // Grocycode length over 20.
    let mut long = vec![0_u8, 0, 0, 0, 0, 0, 0, 21, 0];
    long.extend_from_slice(&[b'a'; 21]);
    assert!(decode_config(&long).is_none());
    // Invalid UTF-8 in the product name.
    assert!(decode_config(&[0, 0, 0, 0, 0, 0, 0, 0, 1, 0xFF]).is_none());
    // Too short for the header.
    assert!(decode_config(&[0, 0, 0]).is_none());
    // Minimal valid frame.
    let ok = decode_config(&[1, 0, 0, 0, 1, 2, 0, 0, 0]).unwrap();
    assert_eq!(ok.revision, 1);
    assert_eq!(ok.role, MeshNodeRole::RelayRepeater);
    assert_eq!(ok.publish_interval_secs, 2);
    assert_eq!(ok.grocycode.as_str(), "");
}

#[test]
fn role_and_op_codes() {
    assert_eq!(MeshNodeRole::try_from(0), Ok(MeshNodeRole::TagLpn));
    assert_eq!(MeshNodeRole::try_from(1), Ok(MeshNodeRole::RelayRepeater));
    assert_eq!(MeshNodeRole::try_from(2), Err(()));
    assert_eq!(InventoryOp::try_from(1), Ok(InventoryOp::StockAbsolute));
    assert_eq!(InventoryOp::try_from(7), Err(()));
}

#[test]
fn publisher_revision_saturates_and_keeps_product() {
    let mut publisher = MeshTagPublisher::new(9);
    let frame = publisher.build_absolute_frame(5, 50);
    let msg = decode_inventory(&frame).unwrap();
    assert_eq!(msg.product_id, 9);
    assert_eq!(msg.op, InventoryOp::StockAbsolute);
    assert_eq!(msg.stock_value, 5);
    assert_eq!(msg.battery_pct, 50);
    let delta = decode_inventory(&publisher.build_delta_frame(-3, 49)).unwrap();
    assert_eq!(delta.op, InventoryOp::StockDelta);
    assert_eq!(delta.stock_value, -3);
    assert_eq!(delta.revision, 2);
}

#[test]
fn parse_product_id_follows_integer_parsing() {
    assert_eq!(MeshTagPublisher::parse_product_id("grcy-p-+5"), Some(5));
    assert_eq!(MeshTagPublisher::parse_product_id("grcy-p-4294967295"), Some(u32::MAX));
    assert_eq!(MeshTagPublisher::parse_product_id("grcy-p-4294967296"), None);
    assert_eq!(MeshTagPublisher::parse_product_id("grcy-p--1"), None);
    assert_eq!(MeshTagPublisher::parse_product_id("grcy-p-1x"), None);
    assert_eq!(MeshTagPublisher::parse_product_id("GRCY-p-1"), None);
    assert_eq!(MeshTagPublisher::parse_product_id("grcy-p-007"), Some(7));
}

#[test]
fn config_frame_bytes_feed_the_decoder() {
    let mut grocycode = heapless::String::<20>::new();
    grocycode.push_str("grcy-p-12").unwrap();
    let mut product_name = heapless::String::<32>::new();
    product_name.push_str("Rye Bread").unwrap();
    let msg = ConfigMessage {
        revision: 0x0102_0304,
        role: MeshNodeRole::TagLpn,
        publish_interval_secs: 0x0506,
        grocycode,
        product_name,
    };
    let frame = encode_config(&msg).unwrap();
    let bytes = config_frame_bytes(&frame);
    assert_eq!(bytes.len(), 9 + 9 + 9);
    assert_eq!(&bytes[..9], &[4, 3, 2, 1, MeshNodeRole::TagLpn.code(), 6, 5, 9, 9]);
    assert_eq!(&bytes[9..18], b"grcy-p-12");
    assert_eq!(&bytes[18..], b"Rye Bread");
    assert_eq!(decode_config(bytes).unwrap(), msg);
}
