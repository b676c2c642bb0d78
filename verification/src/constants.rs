//! The dimensions of the window and of text that layout works with.
use vstd::prelude::*;

verus! {

/// The width of the browser window.
pub const WINDOW_WIDTH: i64 = 600;

/// The padding around the content area of the window.
pub const WINDOW_PADDING: i64 = 5;

/// The width of the content area: the window without its padding on both sides.
pub const CONTENT_AREA_WIDTH: i64 = WINDOW_WIDTH - WINDOW_PADDING * 2;

/// The width of a character of medium-sized text.
pub const CHAR_WIDTH: i64 = 8;

/// The height of a character of medium-sized text.
pub const CHAR_HEIGHT: i64 = 16;

/// The height of a line of medium-sized text.
pub const CHAR_HEIGHT_WITH_PADDING: i64 = CHAR_HEIGHT + 4;

} // verus!
