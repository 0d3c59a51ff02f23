use vstd::prelude::*;

verus! {

/// The non-geometric, user-facing state of a widget: style names and
/// interaction flags.
pub struct WidgetModel {
    pub text_style_name: String,
    pub back_style_name: String,
    pub border_style_name: String,
    pub focusable: bool,
    pub clickable: bool,
    pub armed: bool,
    pub hoovered: bool,
    pub disable: bool,
    pub action_id: Option<String>,
}

impl WidgetModel {
    /// Default styles, not focusable, not clickable, idle.
    pub fn new() -> (r: WidgetModel)
        ensures
            r.text_style_name@ == "default"@,
            r.back_style_name@ == "default"@,
            r.border_style_name@ == "default"@,
            !r.focusable && !r.clickable && !r.armed && !r.hoovered && !r.disable,
            r.action_id is None,
    {
        WidgetModel {
            text_style_name: String::from_str("default"),
            back_style_name: String::from_str("default"),
            border_style_name: String::from_str("default"),
            focusable: false,
            clickable: false,
            armed: false,
            hoovered: false,
            disable: false,
            action_id: None,
        }
    }
}

} // verus!
