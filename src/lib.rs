//! A retained-mode widget layout engine: a tree of widgets (panes, horizontal
//! boxes, labels) whose sizes are computed bottom-up, whose content space is
//! distributed top-down under fill rules, and whose children are positioned
//! relative to their parent's content rectangle.
//!
//! All geometry is in whole pixels.

pub mod geometry;
pub mod widget_state;
pub mod mouse;
pub mod widget_model;
pub mod widget;
pub mod layout;
pub mod gui;
