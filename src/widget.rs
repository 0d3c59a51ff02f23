use vstd::prelude::*;
use crate::geometry::{Size, PreferredSize, Padding, Fill, Position, Coordinate, Rect, Point};
use crate::widget_state::WidgetState;
use crate::widget_model::WidgetModel;
use crate::mouse::MouseState;

verus! {

/// The geometric state every widget carries: its layout inputs, the caches
/// and results of the layout passes, and its dirty flags.
#[derive(Clone, Copy, Debug, PartialEq, Eq, Structural)]
pub struct Geometry {
    pub preferred_size: PreferredSize,
    pub padding: Padding,
    pub fill_width: Fill,
    pub fill_height: Fill,
    pub position: Position,
    pub computed_size: Size,
    /// Where this widget's children draw, relative to its own origin.
    pub content_layout: Rect,
    /// This widget's own box, relative to its parent's content origin.
    pub widget_layout: Rect,
    pub state: WidgetState,
}

impl Geometry {
    pub open spec fn wf(self) -> bool {
        self.preferred_size.wf() && self.padding.wf() && self.fill_width.wf()
            && self.fill_height.wf() && self.position.wf()
    }

    pub open spec fn new_spec() -> Geometry {
        Geometry {
            preferred_size: PreferredSize { width: None, height: None },
            padding: Padding::uniform_spec(0),
            fill_width: Fill::Disabled,
            fill_height: Fill::Disabled,
            position: Position { x: Coordinate::Flow, y: Coordinate::Flow },
            computed_size: Size { width: 0, height: 0 },
            content_layout: Rect::zero_spec(),
            widget_layout: Rect::zero_spec(),
            state: WidgetState { preferred_size: true, content_size: true, position: true, style: true },
        }
    }

    /// Nothing requested, no padding, no fill, flow position, every flag dirty.
    pub fn new() -> (r: Geometry)
        ensures
            r == Geometry::new_spec(),
            r.wf(),
    {
        Geometry {
            preferred_size: PreferredSize::empty(),
            padding: Padding::uniform(0),
            fill_width: Fill::Disabled,
            fill_height: Fill::Disabled,
            position: Position { x: Coordinate::Flow, y: Coordinate::Flow },
            computed_size: Size::new(0, 0),
            content_layout: Rect::zero(),
            widget_layout: Rect::zero(),
            state: WidgetState::new(),
        }
    }
}

/// The state shared by every widget variant.
pub struct WidgetData {
    /// This widget's index in its tree; `None` before attachment.
    pub tree_index: Option<usize>,
    pub model: WidgetModel,
    pub geometry: Geometry,
}

impl WidgetData {
    pub fn new() -> (r: WidgetData)
        ensures
            r.tree_index is None,
            r.geometry == Geometry::new_spec(),
    {
        WidgetData { tree_index: None, model: WidgetModel::new(), geometry: Geometry::new() }
    }
}

/// A container whose children place or fill themselves independently.
pub struct PanePar {
    pub widget_data: WidgetData,
}

impl PanePar {
    pub fn new() -> (r: PanePar)
        ensures
            r.widget_data.tree_index is None,
            r.widget_data.geometry == Geometry::new_spec(),
    {
        PanePar { widget_data: WidgetData::new() }
    }
}

/// A container that lays its children out in a row.
pub struct HBoxPar {
    pub widget_data: WidgetData,
    pub spacing: i64,
}

impl HBoxPar {
    /// A row with the default spacing of ten pixels.
    pub fn new() -> (r: HBoxPar)
        ensures
            r.widget_data.tree_index is None,
            r.widget_data.geometry == Geometry::new_spec(),
            r.spacing == 10,
    {
        HBoxPar { widget_data: WidgetData::new(), spacing: 10 }
    }

    pub fn get_spacing(&self) -> (r: i64)
        ensures
            r == self.spacing,
    {
        self.spacing
    }

    /// Sets the spacing between children. Returns whether it changed. Once
    /// the box is in a tree, `Gui::set_spacing` also marks the sizes that
    /// depend on it as stale.
    pub fn set_spacing(&mut self, spacing: i64) -> (changed: bool)
        ensures
            final(self).spacing == spacing,
            changed == (old(self).spacing != spacing),
            final(self).widget_data == old(self).widget_data,
    {
        if spacing == self.spacing {
            return false;
        }
        self.spacing = spacing;
        true
    }
}

/// A leaf showing a text, whose measured size is supplied by the font service.
pub struct LabelPar {
    pub widget_data: WidgetData,
    pub text: String,
    pub text_size: Size,
}

impl LabelPar {
    pub fn new(text: String, text_size: Size) -> (r: LabelPar)
        ensures
            r.widget_data.tree_index is None,
            r.widget_data.geometry == Geometry::new_spec(),
            r.text@ == text@,
            r.text_size == text_size,
    {
        LabelPar { widget_data: WidgetData::new(), text, text_size }
    }
}

/// Whether `p` lies in the box of the given width and height at `origin`.
pub open spec fn box_contains(origin: Point, width: int, height: int, p: Point) -> bool {
    origin.x <= p.x < origin.x + width && origin.y <= p.y < origin.y + height
}

pub fn hit_test(origin: &Point, width: i64, height: i64, p: &Point) -> (r: bool)
    ensures
        r == box_contains(*origin, width as int, height as int, *p),
{
    let right = origin.x as i128 + width as i128;
    let bottom = origin.y as i128 + height as i128;
    origin.x <= p.x && (p.x as i128) < right && origin.y <= p.y && (p.y as i128) < bottom
}

pub enum Widget {
    Label(LabelPar),
    Pane(PanePar),
    HBox(HBoxPar),
}

impl Widget {
    pub open spec fn geometry_spec(&self) -> Geometry {
        match self {
            Widget::Label(p) => p.widget_data.geometry,
            Widget::Pane(p) => p.widget_data.geometry,
            Widget::HBox(p) => p.widget_data.geometry,
        }
    }

    pub open spec fn tree_index_spec(&self) -> Option<usize> {
        match self {
            Widget::Label(p) => p.widget_data.tree_index,
            Widget::Pane(p) => p.widget_data.tree_index,
            Widget::HBox(p) => p.widget_data.tree_index,
        }
    }

    pub fn set_tree_index(&mut self, index: usize)
        ensures
            final(self).tree_index_spec() == Some(index),
            final(self).geometry_spec() == old(self).geometry_spec(),
            crate::gui::kind_of(*final(self)) == crate::gui::kind_of(*old(self)),
    {
        match self {
            Widget::Label(p) => p.widget_data.tree_index = Some(index),
            Widget::Pane(p) => p.widget_data.tree_index = Some(index),
            Widget::HBox(p) => p.widget_data.tree_index = Some(index),
        }
    }

    pub open spec fn model_spec(&self) -> &WidgetModel {
        match self {
            Widget::Label(p) => &p.widget_data.model,
            Widget::Pane(p) => &p.widget_data.model,
            Widget::HBox(p) => &p.widget_data.model,
        }
    }

    /// Updates the hover and armed state of a clickable or focusable widget
    /// whose box starts at `origin`: it is hovered when the mouse is inside
    /// the box, and armed when hovered with the left button down. Other
    /// widgets are left as they are.
    pub fn update_action(&mut self, origin: &Point, mouse_position: &Point, mouse_state: &MouseState)
        ensures
            final(self).geometry_spec() == old(self).geometry_spec(),
            final(self).tree_index_spec() == old(self).tree_index_spec(),
            crate::gui::kind_of(*final(self)) == crate::gui::kind_of(*old(self)),
            ({
                let m = old(self).model_spec();
                let g = old(self).geometry_spec();
                let inside = box_contains(*origin, g.widget_layout.width as int, g.widget_layout.height as int, *mouse_position);
                if m.clickable || m.focusable {
                    &&& final(self).model_spec().hoovered == inside
                    &&& final(self).model_spec().armed == (inside && mouse_state.left.down)
                } else {
                    &&& final(self).model_spec().hoovered == m.hoovered
                    &&& final(self).model_spec().armed == m.armed
                }
            }),
    {
        let g = self.geometry();
        let inside = hit_test(origin, g.widget_layout.width, g.widget_layout.height, mouse_position);
        let armed = inside && mouse_state.left.down;
        match self {
            Widget::Label(p) => {
                if p.widget_data.model.clickable || p.widget_data.model.focusable {
                    p.widget_data.model.hoovered = inside;
                    p.widget_data.model.armed = armed;
                }
            },
            Widget::Pane(p) => {
                if p.widget_data.model.clickable || p.widget_data.model.focusable {
                    p.widget_data.model.hoovered = inside;
                    p.widget_data.model.armed = armed;
                }
            },
            Widget::HBox(p) => {
                if p.widget_data.model.clickable || p.widget_data.model.focusable {
                    p.widget_data.model.hoovered = inside;
                    p.widget_data.model.armed = armed;
                }
            },
        }
    }

    /// Sets the spacing of a row; other widgets are left as they are.
    pub fn set_row_spacing(&mut self, spacing: i64)
        ensures
            final(self).geometry_spec() == old(self).geometry_spec(),
            final(self).tree_index_spec() == old(self).tree_index_spec(),
            crate::gui::kind_of(*final(self)) == (match crate::gui::kind_of(*old(self)) {
                crate::gui::WidgetKind::HBox(_) => crate::gui::WidgetKind::HBox(spacing),
                k => k,
            }),
    {
        match self {
            Widget::HBox(p) => {
                p.set_spacing(spacing);
            },
            _ => {},
        }
    }

    pub fn geometry(&self) -> (r: Geometry)
        ensures
            r == self.geometry_spec(),
    {
        match self {
            Widget::Label(p) => p.widget_data.geometry,
            Widget::Pane(p) => p.widget_data.geometry,
            Widget::HBox(p) => p.widget_data.geometry,
        }
    }

    pub fn set_geometry(&mut self, g: Geometry)
        ensures
            final(self).geometry_spec() == g,
            final(self).tree_index_spec() == old(self).tree_index_spec(),
            crate::gui::kind_of(*final(self)) == crate::gui::kind_of(*old(self)),
    {
        match self {
            Widget::Label(p) => p.widget_data.geometry = g,
            Widget::Pane(p) => p.widget_data.geometry = g,
            Widget::HBox(p) => p.widget_data.geometry = g,
        }
    }
}

} // verus!
