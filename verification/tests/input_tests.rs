use live_compiler::input::{Area, CxFingerDrag, CxFingers, DigitDevice, DigitId, DragAction,
    DragState, HoverState, KeyModifiers};

#[test]
fn digit_device_classification() {
    let m = DigitDevice::Mouse(2);
    let t = DigitDevice::Touch(77);
    let x = DigitDevice::XR(1);
    assert!(m.is_mouse() && !m.is_touch() && !m.is_xr());
    assert!(t.is_touch() && !t.is_mouse() && !t.is_xr());
    assert!(x.is_xr() && !x.is_mouse() && !x.is_touch());
    assert!(m.has_hovers());
    assert!(x.has_hovers());
    assert!(!t.has_hovers());
    assert_eq!(m.mouse_button(), Some(2));
    assert_eq!(t.mouse_button(), None);
    assert_eq!(t.touch_uid(), Some(77));
    assert_eq!(x.touch_uid(), None);
    assert_eq!(x.xr_input(), Some(1));
    assert_eq!(m.xr_input(), None);
}

#[test]
fn hover_state_defaults_to_over() {
    assert_eq!(HoverState::default(), HoverState::Over);
}

#[test]
fn drag_cycle_and_area_update() {
    let mut d = CxFingerDrag::new();
    assert_eq!(d.drag_area, Area::Empty);
    d.next_drag_area = Area::Instance(5);
    d.cycle_drag();
    assert_eq!(d.drag_area, Area::Instance(5));
    assert_eq!(d.next_drag_area, Area::Empty);
    // a redraw moves the region: the stored handle follows
    d.update_area(Area::Instance(5), Area::Instance(9));
    assert_eq!(d.drag_area, Area::Instance(9));
    // an unrelated handle does not
    d.update_area(Area::Instance(5), Area::Instance(1));
    assert_eq!(d.drag_area, Area::Instance(9));
}

#[test]
fn plain_value_types_compare() {
    assert_eq!(DigitId(3), DigitId(3));
    assert_ne!(DigitId(3), DigitId(4));
    assert_eq!(DragState::In, DragState::In);
    assert_ne!(DragAction::Copy, DragAction::Move);
    let mods = KeyModifiers { shift: true, control: false, alt: false, logo: false };
    assert!(mods.shift && !mods.control);
}

#[test]
fn digits_allocate_capture_and_release() {
    let mut f = CxFingers::new();
    assert_eq!(f.get_digit_count(), 0);
    f.alloc_digit(DigitId(1));
    f.alloc_digit(DigitId(2));
    // a second registration of the same identity is ignored
    f.alloc_digit(DigitId(1));
    assert_eq!(f.get_digit_count(), 2);
    assert!(f.is_digit_allocated(DigitId(1)));
    assert!(!f.is_digit_allocated(DigitId(3)));
    assert_eq!(f.get_digit_index(DigitId(2)), 1);
    assert_eq!(f.get_digit_index(DigitId(9)), 0);
    // capture and look the capture up both ways
    assert!(f.capture_digit(DigitId(2), Area::Instance(7)));
    assert!(!f.capture_digit(DigitId(9), Area::Instance(7)));
    assert_eq!(f.get_captured_area(DigitId(2)), Area::Instance(7));
    assert_eq!(f.get_captured_area(DigitId(1)), Area::Empty);
    assert_eq!(f.get_captured_area_digit(Area::Instance(7)), Some(DigitId(2)));
    // a redraw moves the region: the capture follows
    f.update_area(Area::Instance(7), Area::Instance(8));
    assert_eq!(f.get_captured_area(DigitId(2)), Area::Instance(8));
    f.release_digit(DigitId(2));
    assert_eq!(f.get_captured_area(DigitId(2)), Area::Empty);
    assert_eq!(f.get_captured_area_digit(Area::Instance(8)), None);
    // freeing forgets the digit
    f.free_digit(DigitId(2));
    assert!(!f.is_digit_allocated(DigitId(2)));
    assert_eq!(f.get_digit_count(), 1);
}

#[test]
fn hover_areas_cycle_per_frame() {
    let mut f = CxFingers::new();
    f.new_hover_area(DigitId(1), Area::Instance(4));
    // nothing shown yet: the collected area waits for the frame end
    assert_eq!(f.get_hover_area(DigitId(1)), Area::Empty);
    f.cycle_hover_area(DigitId(1));
    assert_eq!(f.get_hover_area(DigitId(1)), Area::Instance(4));
    // a redraw moves the shown area's handle
    f.update_area(Area::Instance(4), Area::Instance(5));
    assert_eq!(f.get_hover_area(DigitId(1)), Area::Instance(5));
    // the next frame hovers nothing: the shown area empties on cycle
    f.cycle_hover_area(DigitId(1));
    assert_eq!(f.get_hover_area(DigitId(1)), Area::Empty);
}
