use gui::geometry::{Point, Size};
use gui::gui::{clamped_add, create_gui};
use gui::mouse::{MouseButtonState, MouseState};
use gui::widget::{hit_test, HBoxPar, LabelPar, PanePar, Widget};

fn mouse(left_down: bool) -> MouseState {
    let left = MouseButtonState::new(left_down, !left_down, false, false);
    let idle = MouseButtonState::new(false, true, false, false);
    MouseState::new(left, idle, idle)
}

fn clickable_label(w: i64, h: i64) -> Widget {
    let mut l = LabelPar::new("click".to_string(), Size::new(w, h));
    l.widget_data.model.clickable = true;
    Widget::Label(l)
}

fn flags(w: &Widget) -> (bool, bool) {
    match w {
        Widget::Label(p) => (p.widget_data.model.hoovered, p.widget_data.model.armed),
        Widget::Pane(p) => (p.widget_data.model.hoovered, p.widget_data.model.armed),
        Widget::HBox(p) => (p.widget_data.model.hoovered, p.widget_data.model.armed),
    }
}

#[test]
fn hit_test_edges() {
    let o = Point { x: 10, y: 20 };
    assert!(hit_test(&o, 5, 5, &Point { x: 10, y: 20 }));
    assert!(hit_test(&o, 5, 5, &Point { x: 14, y: 24 }));
    assert!(!hit_test(&o, 5, 5, &Point { x: 15, y: 24 }));
    assert!(!hit_test(&o, 5, 5, &Point { x: 9, y: 22 }));
    assert!(!hit_test(&o, 0, 5, &Point { x: 10, y: 20 }));
}

#[test]
fn clamped_add_saturates() {
    assert_eq!(clamped_add(3, 4), 7);
    assert_eq!(clamped_add(i64::MAX, 1), i64::MAX);
    assert_eq!(clamped_add(i64::MIN, -1), i64::MIN);
}

#[test]
fn hover_and_arm_follow_the_mouse() {
    let mut g = create_gui(Widget::Pane(PanePar::new()));
    let hb = g.add_child(0, Widget::HBox(HBoxPar::new()));
    let a = g.add_child(hb, clickable_label(50, 20));
    let b = g.add_child(hb, clickable_label(30, 20));
    let plain = g.add_child(hb, Widget::Label(LabelPar::new("p".to_string(), Size::new(10, 20))));
    g.layout(Size::new(200, 100));
    // a spans x 0..50, b spans x 60..90; both span y 0..100 in the row
    g.update_action(0, Point { x: 0, y: 0 }, Point { x: 70, y: 50 }, &mouse(true));
    assert_eq!(flags(&g.nodes[a].widget), (false, false));
    assert_eq!(flags(&g.nodes[b].widget), (true, true));
    assert_eq!(flags(&g.nodes[plain].widget), (false, false));
    g.update_action(0, Point { x: 0, y: 0 }, Point { x: 5, y: 5 }, &mouse(false));
    assert_eq!(flags(&g.nodes[a].widget), (true, false));
    assert_eq!(flags(&g.nodes[b].widget), (false, false));
}

#[test]
fn widget_update_action_on_its_own() {
    let mut w = clickable_label(10, 10);
    if let Widget::Label(p) = &mut w {
        p.widget_data.geometry.widget_layout.width = 10;
        p.widget_data.geometry.widget_layout.height = 10;
    }
    w.update_action(&Point { x: 100, y: 100 }, &Point { x: 105, y: 109 }, &mouse(true));
    assert_eq!(flags(&w), (true, true));
    w.update_action(&Point { x: 100, y: 100 }, &Point { x: 99, y: 109 }, &mouse(true));
    assert_eq!(flags(&w), (false, false));
}
