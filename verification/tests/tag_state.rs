use etag::firmware::buttons::{apply_button_event, battery_tick, battery_update, ButtonEvent};
use etag::firmware::config::{STOCK_MAX, STOCK_MIN};
use etag::firmware::grocy::{grocycode_for_product, TagState};
use etag::firmware::mesh::MeshTagPublisher;

#[test]
fn grocycode_format() {
    let code = grocycode_for_product(1).unwrap();
    assert_eq!(code.as_str(), "grcy-p-1");
    let code = grocycode_for_product(99999).unwrap();
    assert_eq!(code.as_str(), "grcy-p-99999");
}

#[test]
fn stock_clamp() {
    let mut state = TagState::new();
    state.stock_count = STOCK_MAX;
    state.increment();
    assert_eq!(state.stock_count, STOCK_MAX);
    state.stock_count = STOCK_MIN;
    state.decrement();
    assert_eq!(state.stock_count, STOCK_MIN);
}

#[test]
fn stock_increment_decrement() {
    let mut state = TagState::new();
    state.increment();
    state.increment();
    assert_eq!(state.stock_count, 2);
    state.decrement();
    assert_eq!(state.stock_count, 1);
}

#[test]
fn grocycode_of_largest_id_fits_and_parses_back() {
    for id in [0u32, 7, 42, 4_294_967_295] {
        let code = grocycode_for_product(id).unwrap();
        assert_eq!(MeshTagPublisher::parse_product_id(code.as_str()), Some(id));
    }
    assert_eq!(grocycode_for_product(4_294_967_295).unwrap().as_str(), "grcy-p-4294967295");
}

#[test]
fn new_and_default_tags_are_empty() {
    let a = TagState::new();
    let b = TagState::default();
    assert_eq!(a.grocycode.as_str(), "");
    assert_eq!(a.product_name.as_str(), "");
    assert_eq!(a.stock_count, 0);
    assert!(a == b);
}

#[test]
fn buttons_move_stock_within_range() {
    let mut state = TagState::new();
    apply_button_event(&mut state, ButtonEvent::Decrement);
    assert_eq!(state.stock_count, 0);
    apply_button_event(&mut state, ButtonEvent::Increment);
    assert_eq!(state.stock_count, 1);
    state.stock_count = STOCK_MAX;
    apply_button_event(&mut state, ButtonEvent::Increment);
    assert_eq!(state.stock_count, STOCK_MAX);
}

#[test]
fn battery_sampling_schedule() {
    let mut count = 0u8;
    let mut samples = 0;
    for _ in 0..50 {
        let (next, due) = battery_tick(count);
        count = next;
        if due {
            samples += 1;
        }
    }
    assert_eq!(samples, 2);
    assert_eq!(battery_tick(255), (0, false));
    assert_eq!(battery_tick(24), (0, true));
}

#[test]
fn battery_redraw_threshold() {
    assert_eq!(battery_update(50, 51), (50, false));
    assert_eq!(battery_update(50, 52), (52, true));
    assert_eq!(battery_update(50, 48), (48, true));
    assert_eq!(battery_update(0, 100), (100, true));
}
