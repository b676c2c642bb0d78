//! A CSS tokenizer and parser, and the layout objects of a small browser
//! engine: selecting and cascading styles, sizes, positions and painting.
use vstd::prelude::*;

pub mod constants;
pub mod cssom;
pub mod display_item;
pub mod dom;
pub mod layout_object;
pub mod style;
pub mod text;
pub mod token;

verus! {

} // verus!
