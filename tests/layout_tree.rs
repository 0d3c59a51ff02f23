use gui::geometry::{Coordinate, Fill, Padding, Position, PreferredSize, Rect, Size};
use gui::gui::{create_gui, Gui};
use gui::widget::{HBoxPar, LabelPar, PanePar, Widget};

fn label(w: i64, h: i64) -> Widget {
    Widget::Label(LabelPar::new("text".to_string(), Size::new(w, h)))
}

fn hbox_with_spacing(spacing: i64) -> Widget {
    let mut b = HBoxPar::new();
    b.set_spacing(spacing);
    Widget::HBox(b)
}

fn layout_of(g: &Gui, i: usize) -> Rect {
    g.nodes[i].widget.geometry().widget_layout
}

#[test]
fn pane_hbox_two_labels_scenario() {
    let mut g = create_gui(Widget::Pane(PanePar::new()));
    let hb = g.add_child(0, hbox_with_spacing(10));
    let l1 = g.add_child(hb, label(50, 20));
    let l2 = g.add_child(hb, label(30, 20));
    assert_eq!(g.compute_size(hb), Size::new(90, 20));
    g.layout(Size::new(200, 100));
    let a = layout_of(&g, l1);
    let b = layout_of(&g, l2);
    assert_eq!((a.width, a.height), (50, 100));
    assert_eq!((b.width, b.height), (30, 100));
    assert_eq!(a.x, 0);
    assert_eq!(b.x, 60);
    let hbl = layout_of(&g, hb);
    assert_eq!((hbl.x, hbl.y, hbl.width, hbl.height), (0, 0, 200, 100));
}

#[test]
fn single_fill_child_takes_whole_width() {
    let mut g = create_gui(hbox_with_spacing(0));
    let mut child = LabelPar::new("x".to_string(), Size::new(5, 5));
    child.widget_data.geometry.fill_width = Fill::Enabled { weight: 1 };
    let c = g.add_child(0, Widget::Label(child));
    g.layout(Size::new(100, 40));
    assert_eq!(layout_of(&g, c).width, 100);
}

#[test]
fn fill_children_share_by_weight() {
    let mut g = create_gui(hbox_with_spacing(10));
    let fixed = g.add_child(0, label(30, 10));
    let mut one = LabelPar::new("a".to_string(), Size::new(1, 1));
    one.widget_data.geometry.fill_width = Fill::Enabled { weight: 1 };
    let mut three = LabelPar::new("b".to_string(), Size::new(1, 1));
    three.widget_data.geometry.fill_width = Fill::Enabled { weight: 3 };
    let a = g.add_child(0, Widget::Label(one));
    let b = g.add_child(0, Widget::Label(three));
    // 200 - 2 * 10 - 30 = 150 left: 1/4 and 3/4 of it
    g.layout(Size::new(200, 50));
    assert_eq!(layout_of(&g, fixed).width, 30);
    assert_eq!(layout_of(&g, a).width, 37);
    assert_eq!(layout_of(&g, b).width, 112);
    assert_eq!(layout_of(&g, a).x, 40);
    assert_eq!(layout_of(&g, b).x, 87);
}

#[test]
fn hbox_size_with_padding_and_preference() {
    let mut g = create_gui(hbox_with_spacing(5));
    g.add_child(0, label(10, 7));
    g.add_child(0, label(20, 9));
    g.add_child(0, label(30, 3));
    assert_eq!(g.compute_size(0), Size::new(70, 9));
    g.set_padding(0, Padding::uniform(2));
    assert_eq!(g.compute_size(0), Size::new(74, 13));
    g.set_preferred_size(0, PreferredSize { width: Some(100), height: Some(1) });
    assert_eq!(g.compute_size(0), Size::new(100, 13));
}

#[test]
fn empty_hbox_has_padding_size() {
    let mut g = create_gui(hbox_with_spacing(10));
    assert_eq!(g.compute_size(0), Size::new(0, 0));
    g.set_padding(0, Padding { left: 1, right: 2, top: 3, bottom: 4 });
    assert_eq!(g.compute_size(0), Size::new(3, 7));
}

#[test]
fn pane_size_bounds_absolute_children() {
    let mut g = create_gui(Widget::Pane(PanePar::new()));
    let a = g.add_child(0, label(10, 10));
    let b = g.add_child(0, label(20, 5));
    g.set_position(a, Position { x: Coordinate::Absolute(5), y: Coordinate::Absolute(-5) });
    g.set_position(b, Position { x: Coordinate::Absolute(40), y: Coordinate::Absolute(30) });
    // x: from 5 to 60; y: from -5 to 35
    assert_eq!(g.compute_size(0), Size::new(55, 40));
    let c = g.add_child(0, label(70, 1));
    // a flowing child wider than the absolute span decides the width
    assert_eq!(g.compute_size(0), Size::new(70, 40));
    g.set_fill_width(c, Fill::Enabled { weight: 1 });
    assert_eq!(g.compute_size(0), Size::new(70, 40));
}

#[test]
fn pane_places_children_at_their_positions() {
    let mut g = create_gui(Widget::Pane(PanePar::new()));
    g.set_padding(0, Padding::uniform(4));
    let a = g.add_child(0, label(10, 10));
    let b = g.add_child(0, label(10, 10));
    g.set_position(a, Position { x: Coordinate::Absolute(12), y: Coordinate::Absolute(7) });
    g.layout(Size::new(100, 80));
    let root = g.nodes[0].widget.geometry();
    assert_eq!(root.content_layout, Rect { x: 4, y: 4, width: 92, height: 72 });
    assert_eq!((layout_of(&g, a).x, layout_of(&g, a).y), (12, 7));
    assert_eq!((layout_of(&g, b).x, layout_of(&g, b).y), (0, 0));
    assert_eq!((layout_of(&g, b).width, layout_of(&g, b).height), (92, 72));
}

#[test]
fn hbox_centres_children_vertically() {
    let mut g = create_gui(Widget::Pane(PanePar::new()));
    let hb = g.add_child(0, hbox_with_spacing(0));
    let inner = g.add_child(hb, Widget::Pane(PanePar::new()));
    g.set_padding(inner, Padding::uniform(0));
    g.layout(Size::new(50, 30));
    assert_eq!(layout_of(&g, inner).y, 0);
}

#[test]
fn negative_space_leaves_layout_alone() {
    let mut g = create_gui(Widget::Pane(PanePar::new()));
    let hb = g.add_child(0, hbox_with_spacing(10));
    let l1 = g.add_child(hb, label(50, 20));
    g.layout(Size::new(200, 100));
    let before_root = g.nodes[0].widget.geometry();
    let before_hb = g.nodes[hb].widget.geometry();
    let before_l1 = g.nodes[l1].widget.geometry();
    g.update_content_size(0, Size::new(-1, 100));
    assert_eq!(g.nodes[0].widget.geometry(), before_root);
    assert_eq!(g.nodes[hb].widget.geometry(), before_hb);
    assert_eq!(g.nodes[l1].widget.geometry(), before_l1);
    g.update_content_size(0, Size::new(100, 0));
    assert_eq!(g.nodes[hb].widget.geometry(), before_hb);
}

#[test]
fn padding_change_marks_ancestors_only() {
    let mut g = create_gui(Widget::Pane(PanePar::new()));
    let hb = g.add_child(0, hbox_with_spacing(10));
    let l1 = g.add_child(hb, label(50, 20));
    let l2 = g.add_child(hb, label(30, 20));
    for i in 0..4 {
        let mut geo = g.nodes[i].widget.geometry();
        geo.state.preferred_size = false;
        g.nodes[i].widget.set_geometry(geo);
    }
    assert!(g.set_padding(l1, Padding::uniform(3)));
    assert!(g.nodes[l1].widget.geometry().state.preferred_size);
    assert!(g.nodes[hb].widget.geometry().state.preferred_size);
    assert!(g.nodes[0].widget.geometry().state.preferred_size);
    assert!(!g.nodes[l2].widget.geometry().state.preferred_size);
    let mut geo = g.nodes[l1].widget.geometry();
    geo.state.preferred_size = false;
    g.nodes[l1].widget.set_geometry(geo);
    assert!(g.set_padding(l2, Padding::uniform(1)));
    assert!(!g.nodes[l1].widget.geometry().state.preferred_size);
    assert!(!g.set_padding(l2, Padding::uniform(1)));
}

#[test]
fn compute_size_twice_is_stable() {
    let mut g = create_gui(Widget::Pane(PanePar::new()));
    let hb = g.add_child(0, hbox_with_spacing(3));
    g.add_child(hb, label(5, 6));
    let flags: Vec<_> = (0..3).map(|i| g.nodes[i].widget.geometry().state).collect();
    let first = g.compute_size(0);
    let second = g.compute_size(0);
    assert_eq!(first, second);
    let after: Vec<_> = (0..3).map(|i| g.nodes[i].widget.geometry().state).collect();
    assert_eq!(flags, after);
}

#[test]
fn spacing_change_invalidates_ancestors() {
    let mut g = create_gui(Widget::Pane(PanePar::new()));
    let hb = g.add_child(0, hbox_with_spacing(10));
    let l1 = g.add_child(hb, label(50, 20));
    g.add_child(hb, label(30, 20));
    for i in 0..4 {
        let mut geo = g.nodes[i].widget.geometry();
        geo.state.preferred_size = false;
        g.nodes[i].widget.set_geometry(geo);
    }
    assert!(!g.set_spacing(hb, 10));
    assert!(!g.nodes[hb].widget.geometry().state.preferred_size);
    assert!(!g.set_spacing(l1, 3));
    assert!(g.set_spacing(hb, 4));
    assert!(g.nodes[hb].widget.geometry().state.preferred_size);
    assert!(g.nodes[0].widget.geometry().state.preferred_size);
    assert!(!g.nodes[l1].widget.geometry().state.preferred_size);
    assert_eq!(g.compute_size(hb), Size::new(84, 20));
}

#[test]
fn computed_size_is_cached_until_stale() {
    let mut g = create_gui(hbox_with_spacing(2));
    let l = g.add_child(0, label(5, 6));
    assert_eq!(g.get_computed_size(0), Size::new(5, 6));
    assert!(!g.nodes[0].widget.geometry().state.preferred_size);
    assert_eq!(g.nodes[0].widget.geometry().computed_size, Size::new(5, 6));
    g.add_child(0, label(7, 1));
    assert_eq!(g.get_computed_size(0), Size::new(14, 6));
    // a clean flag returns the cache as it stands
    let mut geo = g.nodes[0].widget.geometry();
    geo.computed_size = Size::new(1, 1);
    g.nodes[0].widget.set_geometry(geo);
    assert_eq!(g.get_computed_size(0), Size::new(1, 1));
    g.set_padding(l, Padding::uniform(1));
    assert_eq!(g.get_computed_size(0), Size::new(16, 8));
}

#[test]
fn pane_children_each_get_the_content_area() {
    let mut g = create_gui(Widget::Pane(PanePar::new()));
    g.set_padding(0, Padding::uniform(10));
    let hb = g.add_child(0, hbox_with_spacing(10));
    let l = g.add_child(0, label(5, 5));
    g.layout(Size::new(200, 100));
    assert_eq!((layout_of(&g, hb).width, layout_of(&g, hb).height), (180, 80));
    assert_eq!((layout_of(&g, l).width, layout_of(&g, l).height), (180, 80));
}

#[test]
fn draw_origins_in_pre_order() {
    let mut g = create_gui(Widget::Pane(PanePar::new()));
    g.set_padding(0, Padding::uniform(5));
    let hb = g.add_child(0, hbox_with_spacing(10));
    let l1 = g.add_child(hb, label(50, 20));
    let l2 = g.add_child(hb, label(30, 20));
    let other = g.add_child(0, label(1, 1));
    g.layout(Size::new(200, 100));
    let d = g.draw_origins(0, gui::geometry::Point { x: 100, y: 200 });
    let nodes: Vec<usize> = d.iter().map(|e| e.0).collect();
    assert_eq!(nodes, vec![0, hb, l1, l2, other]);
    assert_eq!((d[0].1.x, d[0].1.y), (100, 200));
    assert_eq!((d[1].1.x, d[1].1.y), (105, 205));
    // row children receive the full row height, so they are not shifted down
    assert_eq!((d[2].1.x, d[2].1.y), (105, 205));
    assert_eq!((d[3].1.x, d[3].1.y), (165, 205));
}
