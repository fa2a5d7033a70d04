use widget_tree::pointers::{PointerId, PointerType, TapInfo, TapListener, TAP_WINDOW_MS};

const PRIMARY: u8 = 1;
const SECONDARY: u8 = 2;

/// Sends `events` mouse events, pressed and released in turn, one every
/// `interval` milliseconds, and counts how often the listener fires.
fn fired(times: u8, interval: u64, events: u64) -> usize {
    let mut listener = TapListener::on_tap_times(times);
    let mut count = 0;
    for i in 0..events {
        let released = i % 2 != 0;
        if released && listener.tap((i + 1) * interval, PointerType::Mouse, PRIMARY) {
            count += 1;
        }
    }
    count
}

#[test]
fn double_tap() {
    let count = fired(2, "10".parse().unwrap(), 8);
    assert_eq!(count, 2);

    let count = fired(2, "251".parse().unwrap(), 8);
    assert_eq!(count, 0);
}

#[test]
fn tripe_tap() {
    let count = fired(3, "10".parse().unwrap(), "12".parse().unwrap());
    assert_eq!(count, 2);
}

#[test]
fn a_series_ends_with_the_window() {
    assert_eq!(TAP_WINDOW_MS, 250);
    let mut l = TapListener::on_tap_times(2);
    assert!(!l.tap(1000, PointerType::Mouse, PRIMARY));
    assert!(l.tap(1249, PointerType::Mouse, PRIMARY));
    let mut l = TapListener::on_tap_times(2);
    assert!(!l.tap(1000, PointerType::Mouse, PRIMARY));
    assert!(!l.tap(1250, PointerType::Mouse, PRIMARY));
    assert!(l.tap(1300, PointerType::Mouse, PRIMARY));
}

#[test]
fn another_device_or_button_starts_a_new_series() {
    let mut l = TapListener::on_tap_times(2);
    assert!(!l.tap(0, PointerType::Mouse, PRIMARY));
    assert!(!l.tap(10, PointerType::Touch, PRIMARY));
    assert!(!l.tap(20, PointerType::Touch, SECONDARY));
    assert!(l.tap(30, PointerType::Touch, SECONDARY));
    assert!(!l.tap(40, PointerType::Touch, SECONDARY));
    assert!(!l.tap(50, PointerType::Pen, SECONDARY));
}

#[test]
fn single_taps_fire_each_time_and_none_is_never_reached() {
    let mut l = TapListener::on_tap_times(1);
    assert!(l.tap(0, PointerType::Pen, PRIMARY));
    assert!(l.tap(1, PointerType::Pen, PRIMARY));
    assert!(l.tap(1000, PointerType::Pen, PRIMARY));
    let mut never = TapListener::on_tap_times(0);
    assert!(!never.tap(0, PointerType::Pen, PRIMARY));
    assert!(!never.tap(1, PointerType::Pen, PRIMARY));
}

#[test]
fn pointer_values_compare_by_what_they_hold() {
    assert_eq!(PointerId(3), PointerId(3).clone());
    assert_ne!(PointerId(3), PointerId(4));
    assert_ne!(PointerType::Mouse, PointerType::Pen);
    let info = TapInfo {
        first_tap_stamp: 5,
        tap_times: 1,
        pointer_type: PointerType::Touch,
        mouse_btns: PRIMARY,
    };
    assert_eq!(info.clone(), info);
}
