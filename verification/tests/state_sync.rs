use etag::firmware::grocy::{BleEvent, TagState};
use etag::firmware::state_sync::{
    apply_pending_external_updates, publish_bridge_event, publish_bridge_update,
    publish_bridge_update_best_effort, publish_external_event, try_receive_external_event,
    BridgeUpdate, BridgeUpdateBestEffortReport, BridgeUpdateError, EventQueue, EVENT_QUEUE_LEN,
};

fn full_queue() -> EventQueue {
    let mut q = EventQueue::new();
    for _ in 0..EVENT_QUEUE_LEN {
        assert!(publish_external_event(&mut q, BleEvent::Connected).is_ok());
    }
    q
}

#[test]
fn queue_is_fifo_and_bounded() {
    let mut q = EventQueue::new();
    assert!(try_receive_external_event(&mut q).is_none());
    publish_external_event(&mut q, BleEvent::StockCountChanged(1)).unwrap();
    publish_external_event(&mut q, BleEvent::StockCountChanged(2)).unwrap();
    assert!(matches!(try_receive_external_event(&mut q), Some(BleEvent::StockCountChanged(1))));
    assert!(matches!(try_receive_external_event(&mut q), Some(BleEvent::StockCountChanged(2))));
    assert!(try_receive_external_event(&mut q).is_none());

    let mut q = full_queue();
    assert_eq!(q.len(), EVENT_QUEUE_LEN);
    let back = publish_bridge_event(&mut q, BleEvent::StockCountChanged(3));
    assert!(matches!(back, Err(BleEvent::StockCountChanged(3))));
    assert_eq!(q.len(), EVENT_QUEUE_LEN);
}

#[test]
fn bridge_update_publishes_fields_in_order() {
    let mut q = EventQueue::new();
    let update = BridgeUpdate {
        connected: Some(true),
        product_name: Some("Oat Milk"),
        grocycode: Some("grcy-p-7"),
        stock_count: Some(4),
    };
    assert_eq!(publish_bridge_update(&mut q, update), Ok(4));
    assert!(matches!(try_receive_external_event(&mut q), Some(BleEvent::Connected)));
    match try_receive_external_event(&mut q) {
        Some(BleEvent::ProductNameChanged(n)) => assert_eq!(n.as_str(), "Oat Milk"),
        _ => panic!("expected a product name"),
    }
    match try_receive_external_event(&mut q) {
        Some(BleEvent::GrocycodeChanged(c)) => assert_eq!(c.as_str(), "grcy-p-7"),
        _ => panic!("expected a grocycode"),
    }
    assert!(matches!(try_receive_external_event(&mut q), Some(BleEvent::StockCountChanged(4))));
    assert_eq!(publish_bridge_update(&mut q, BridgeUpdate::default()), Ok(0));
}

#[test]
fn bridge_update_fails_fast() {
    let mut q = EventQueue::new();
    let too_long = "a product name that is far too long for the tag";
    let update = BridgeUpdate {
        connected: Some(false),
        product_name: Some(too_long),
        grocycode: None,
        stock_count: Some(1),
    };
    assert_eq!(
        publish_bridge_update(&mut q, update),
        Err(BridgeUpdateError::ProductNameTooLong)
    );
    // The connection event before the failure stays queued; nothing after it.
    assert_eq!(q.len(), 1);
    assert!(matches!(try_receive_external_event(&mut q), Some(BleEvent::Disconnected)));

    let update = BridgeUpdate {
        grocycode: Some("grcy-p-123456789012345"),
        ..BridgeUpdate::default()
    };
    assert_eq!(publish_bridge_update(&mut q, update), Err(BridgeUpdateError::GrocycodeTooLong));

    let mut q = full_queue();
    let update = BridgeUpdate { stock_count: Some(3), ..BridgeUpdate::default() };
    assert_eq!(publish_bridge_update(&mut q, update), Err(BridgeUpdateError::QueueFull));
}

#[test]
fn best_effort_counts_every_field() {
    let mut q = EventQueue::new();
    for _ in 0..EVENT_QUEUE_LEN - 1 {
        publish_external_event(&mut q, BleEvent::Connected).unwrap();
    }
    let update = BridgeUpdate {
        connected: Some(true),
        product_name: Some("a product name that is far too long for the tag"),
        grocycode: Some("grcy-p-9"),
        stock_count: Some(2),
    };
    let report = publish_bridge_update_best_effort(&mut q, update);
    assert_eq!(
        report,
        BridgeUpdateBestEffortReport { published: 1, skipped_too_long: 1, skipped_queue_full: 2 }
    );
    assert_eq!(q.len(), EVENT_QUEUE_LEN);
}

#[test]
fn external_updates_are_applied_and_clamped() {
    let mut state = TagState::new();
    let mut q = EventQueue::new();
    let mut name = heapless::String::<32>::new();
    name.push_str("Rice").unwrap();
    let mut code = heapless::String::<20>::new();
    code.push_str("grcy-p-3").unwrap();
    publish_external_event(&mut q, BleEvent::Connected).unwrap();
    publish_external_event(&mut q, BleEvent::ProductNameChanged(name)).unwrap();
    publish_external_event(&mut q, BleEvent::GrocycodeChanged(code)).unwrap();
    publish_external_event(&mut q, BleEvent::StockCountChanged(12_345)).unwrap();
    assert!(apply_pending_external_updates(&mut state, &mut q));
    assert_eq!(q.len(), 0);
    assert_eq!(state.product_name.as_str(), "Rice");
    assert_eq!(state.grocycode.as_str(), "grcy-p-3");
    assert_eq!(state.stock_count, 9_999);

    publish_external_event(&mut q, BleEvent::StockCountChanged(-5)).unwrap();
    assert!(apply_pending_external_updates(&mut state, &mut q));
    assert_eq!(state.stock_count, 0);

    // Nothing changes: same stock, connection events only.
    publish_external_event(&mut q, BleEvent::StockCountChanged(0)).unwrap();
    publish_external_event(&mut q, BleEvent::Disconnected).unwrap();
    assert!(!apply_pending_external_updates(&mut state, &mut q));
    assert!(!apply_pending_external_updates(&mut state, &mut q));
}

use etag::firmware::state_sync::forward_bridge_event;

#[test]
fn pump_forwards_one_event_at_a_time() {
    let mut bridge = EventQueue::new();
    let mut external = EventQueue::new();
    assert!(forward_bridge_event(&mut bridge, &mut external).is_none());
    publish_bridge_event(&mut bridge, BleEvent::StockCountChanged(8)).unwrap();
    publish_bridge_event(&mut bridge, BleEvent::Connected).unwrap();
    assert!(matches!(forward_bridge_event(&mut bridge, &mut external), Some(Ok(()))));
    assert_eq!(bridge.len(), 1);
    assert!(matches!(try_receive_external_event(&mut external), Some(BleEvent::StockCountChanged(8))));

    let mut full = full_queue();
    let dropped = forward_bridge_event(&mut bridge, &mut full);
    assert!(matches!(dropped, Some(Err(BleEvent::Connected))));
    assert_eq!(bridge.len(), 0);
    assert_eq!(full.len(), EVENT_QUEUE_LEN);
}

use etag::firmware::state_sync::tag_changed;

#[test]
fn redraw_follows_state_changes() {
    let mut a = TagState::new();
    let b = TagState::new();
    assert!(!tag_changed(&a, &b));
    a.increment();
    assert!(tag_changed(&a, &b));
    a.decrement();
    assert!(!tag_changed(&a, &b));
    a.product_name.push_str("x").unwrap();
    assert!(tag_changed(&a, &b));
}
