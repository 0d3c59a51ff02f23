use gui::geometry::{Coordinate, Fill, Padding, Point, Position, PreferredSize, Size, SIZE_CAP};
use gui::layout::{
    default_target, pane_content_size, row_allocations, row_content_size, row_targets, ChildInfo,
};
use gui::mouse::{MouseButtonState, MouseState};
use gui::widget::HBoxPar;
use gui::widget_model::WidgetModel;
use gui::widget_state::{DirtyFlags, WidgetState};

fn info(w: i64, h: i64, fill: Fill) -> ChildInfo {
    ChildInfo {
        size: Size::new(w, h),
        position: Position { x: Coordinate::Flow, y: Coordinate::Flow },
        fill_width: fill,
        fill_height: Fill::Disabled,
    }
}

#[test]
fn floor_merge_keeps_larger() {
    let p = PreferredSize { width: Some(100), height: None };
    assert_eq!(p.replace_empty_dimensions_and_max(&Size::new(40, 30)), Size::new(100, 30));
    assert_eq!(p.replace_empty_dimensions_and_max(&Size::new(140, 30)), Size::new(140, 30));
    let e = PreferredSize::empty();
    assert_eq!(e.replace_empty_dimensions_and_max(&Size::new(7, 8)), Size::new(7, 8));
}

#[test]
fn padding_grows_and_shrinks() {
    let p = Padding { left: 1, right: 2, top: 3, bottom: 4 };
    assert_eq!(Size::new(10, 10).with_padding(&p), Size::new(13, 17));
    assert_eq!(Size::new(10, 10).without_padding(&p), Size::new(7, 3));
    assert_eq!(Size::new(SIZE_CAP, 0).with_padding(&p), Size::new(SIZE_CAP, 7));
}

#[test]
fn row_width_is_sum_plus_spacing() {
    let sizes = vec![Size::new(50, 20), Size::new(30, 25), Size::new(5, 1)];
    assert_eq!(row_content_size(&sizes, 10), Size::new(105, 25));
    assert_eq!(row_content_size(&vec![Size::new(9, 4)], 10), Size::new(9, 4));
    assert_eq!(row_content_size(&vec![], 10), Size::new(0, 0));
}

#[test]
fn row_width_saturates() {
    let sizes = vec![Size::new(SIZE_CAP, 1), Size::new(SIZE_CAP, 1)];
    assert_eq!(row_content_size(&sizes, 0).width, SIZE_CAP);
}

#[test]
fn fill_share_by_weight() {
    let children = vec![
        info(30, 5, Fill::Disabled),
        info(0, 0, Fill::Enabled { weight: 1 }),
        info(0, 0, Fill::Enabled { weight: 2 }),
    ];
    let r = row_allocations(&children, 5, Size::new(100, 40));
    // 100 - 10 - 30 = 60 left
    assert_eq!(r, vec![Size::new(30, 40), Size::new(20, 40), Size::new(40, 40)]);
}

#[test]
fn fill_single_child_gets_all() {
    let children = vec![info(3, 3, Fill::Enabled { weight: 1 })];
    assert_eq!(row_allocations(&children, 0, Size::new(100, 10)), vec![Size::new(100, 10)]);
}

#[test]
fn fill_with_no_space_goes_negative() {
    let children = vec![info(80, 3, Fill::Disabled), info(0, 0, Fill::Enabled { weight: 2 })];
    let r = row_allocations(&children, 0, Size::new(50, 10));
    assert_eq!(r[1].width, -30);
}

#[test]
fn fill_sum_within_rounding() {
    let children = vec![
        info(0, 0, Fill::Enabled { weight: 1 }),
        info(0, 0, Fill::Enabled { weight: 1 }),
        info(0, 0, Fill::Enabled { weight: 1 }),
    ];
    let r = row_allocations(&children, 0, Size::new(100, 10));
    let total: i64 = r.iter().map(|s| s.width).sum();
    assert!(total <= 100 && total > 97);
    assert_eq!(r[0].width, 33);
}

#[test]
fn row_targets_advance_and_centre() {
    let boxes = vec![Size::new(50, 20), Size::new(30, 11)];
    let t = row_targets(&boxes, 10, 100);
    assert_eq!(t, vec![Point { x: 0, y: 40 }, Point { x: 60, y: 44 }]);
    let t = row_targets(&vec![Size::new(5, 30)], 0, 10);
    assert_eq!(t[0].y, -10);
}

#[test]
fn default_target_of_position() {
    let p = Position { x: Coordinate::Absolute(7), y: Coordinate::Flow };
    assert_eq!(default_target(&p), Point { x: 7, y: 0 });
}

#[test]
fn pane_content_of_children() {
    let mut a = info(10, 10, Fill::Disabled);
    a.position = Position { x: Coordinate::Absolute(-3), y: Coordinate::Flow };
    let b = info(4, 25, Fill::Disabled);
    assert_eq!(pane_content_size(&vec![a, b]), Size::new(10, 25));
    assert_eq!(pane_content_size(&vec![]), Size::new(0, 0));
}

#[test]
fn dirty_flag_test_and_clear() {
    let mut s = WidgetState::new();
    assert!(!s.dirty_flag_clean(DirtyFlags::PreferredSize));
    assert!(s.dirty_flag_clean(DirtyFlags::PreferredSize));
    assert!(s.is_flag_dirty(DirtyFlags::ContentSize));
    s.mark_dirty(DirtyFlags::PreferredSize);
    assert!(s.is_flag_dirty(DirtyFlags::PreferredSize));
    assert!(!s.dirty_flag_clean(DirtyFlags::Style));
    assert!(!s.is_flag_dirty(DirtyFlags::Style));
}

#[test]
fn hbox_spacing_default_and_set() {
    let mut b = HBoxPar::new();
    assert_eq!(b.get_spacing(), 10);
    assert!(!b.set_spacing(10));
    assert!(b.set_spacing(4));
    assert_eq!(b.get_spacing(), 4);
}

#[test]
fn model_defaults() {
    let m = WidgetModel::new();
    assert_eq!(m.text_style_name, "default");
    assert!(!m.clickable && !m.armed && !m.hoovered);
    assert!(m.action_id.is_none());
}

#[test]
fn mouse_snapshot() {
    let l = MouseButtonState::new(true, false, true, false);
    let o = MouseButtonState::new(false, true, false, false);
    let m = MouseState::new(l, o, o);
    assert!(m.left.down && m.left.pressed && m.middle.up);
}
