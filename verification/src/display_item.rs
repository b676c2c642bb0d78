//! What painting a layout object produces.
use vstd::prelude::*;

use crate::layout_object::{LayoutPoint, LayoutSize};
use crate::style::{ComputedStyle, StyleView};

verus! {

/// Something to draw: a box, or a line of text.
#[derive(Debug, Clone, PartialEq)]
pub enum DisplayItem {
    Rect { style: ComputedStyle, layout_point: LayoutPoint, layout_size: LayoutSize },
    Text { text: String, style: ComputedStyle, layout_point: LayoutPoint },
}

pub enum DisplayItemView {
    Rect { style: StyleView, layout_point: LayoutPoint, layout_size: LayoutSize },
    Text { text: Seq<char>, style: StyleView, layout_point: LayoutPoint },
}

impl View for DisplayItem {
    type V = DisplayItemView;

    open spec fn view(&self) -> DisplayItemView {
        match self {
            DisplayItem::Rect { style, layout_point, layout_size } => DisplayItemView::Rect {
                style: style@,
                layout_point: *layout_point,
                layout_size: *layout_size,
            },
            DisplayItem::Text { text, style, layout_point } => DisplayItemView::Text {
                text: text@,
                style: style@,
                layout_point: *layout_point,
            },
        }
    }
}

pub open spec fn items_view(v: Seq<DisplayItem>) -> Seq<DisplayItemView> {
    v.map_values(|d: DisplayItem| d@)
}

} // verus!
