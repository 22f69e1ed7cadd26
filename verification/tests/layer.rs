use dashcompositor::layer::draw_order;
use dashcompositor::{EntryControls, SolidColor};

#[test]
fn solid_color_default_z_is_zero() {
    let s = SolidColor::new(1, 2, 3, 4);
    assert_eq!(s.z_order(), 0);
    assert_eq!(s.color, [1, 2, 3, 4]);
}

#[test]
fn solid_color_builders() {
    let s = SolidColor::new(1, 2, 3, 4).with_z(5).with_name("bg");
    assert_eq!(s.z_order(), 5);
    assert_eq!(s.name(), "bg");
}

#[test]
fn solid_color_default_name_lists_channels() {
    let s = SolidColor::new(255, 0, 10, 128);
    assert_eq!(s.name(), "SolidColor(r=255, g=0, b=10, a=128)");
}

#[test]
fn solid_color_builders_keep_the_rest() {
    let s = SolidColor::new(9, 8, 7, 6).with_name("x").with_z(3);
    assert_eq!(s.color, [9, 8, 7, 6]);
    assert_eq!(s.name(), "x");
    assert_eq!(s.z_order(), 3);
}

#[test]
fn entry_controls_start_visible_without_overrides() {
    let c = EntryControls::new(7);
    assert_eq!(c.id(), 7);
    assert!(c.is_visible());
    assert_eq!(c.effective_z(4), 4);
    assert_eq!(c.name("layer"), "layer");
}

#[test]
fn entry_controls_visibility_toggle() {
    let mut c = EntryControls::new(0);
    assert!(c.is_visible());
    c.set_visible(false);
    assert!(!c.is_visible());
    c.set_visible(true);
    assert!(c.is_visible());
}

#[test]
fn entry_controls_z_override_beats_layer_default() {
    let layer = SolidColor::new(0, 0, 0, 255).with_z(2);
    let mut c = EntryControls::new(0);
    assert_eq!(c.effective_z(layer.z_order()), 2);
    c.set_z_override(99);
    assert_eq!(c.effective_z(layer.z_order()), 99);
    c.clear_z_override();
    assert_eq!(c.effective_z(layer.z_order()), 2);
}

#[test]
fn entry_controls_name_override() {
    let layer = SolidColor::new(0, 0, 0, 255).with_name("a");
    let mut c = EntryControls::new(0);
    assert_eq!(c.name(layer.name()), "a");
    c.set_name("b");
    assert_eq!(c.name(layer.name()), "b");
    assert_eq!(c.id(), 0);
}

#[test]
fn draw_order_sorts_by_z_then_stack_position() {
    let keys = [(true, 10), (true, 0), (false, 5), (true, 10), (true, 3)];
    assert_eq!(draw_order(&keys), vec![1, 4, 0, 3]);
}

#[test]
fn draw_order_skips_hidden_entries() {
    assert_eq!(draw_order(&[(false, 1), (false, 2)]), Vec::<usize>::new());
    assert_eq!(draw_order(&[]), Vec::<usize>::new());
    assert_eq!(draw_order(&[(false, 0), (true, 99), (true, 99)]), vec![1, 2]);
}

#[test]
fn entry_controls_report_their_override() {
    let mut c = EntryControls::new(1);
    assert_eq!(c.z_override(), None);
    c.set_z_override(5);
    assert_eq!(c.z_override(), Some(5));
    c.clear_z_override();
    assert_eq!(c.z_override(), None);
}

#[test]
fn solid_color_reports_its_colour() {
    let s = SolidColor::new(4, 3, 2, 1).with_z(8);
    assert_eq!(s.color(), [4, 3, 2, 1]);
    assert_eq!(s.color(), s.color);
}
