//! Verified core of an HTML/CSS driven widget toolkit: the template language,
//! attribute and widget parsers, identifier pools and style selector rules.
use vstd::prelude::*;

pub mod text;
pub mod json;
pub mod expr;
pub mod render;
pub mod keyed;
pub mod uses;
pub mod context;
pub mod widgets;
pub mod registry;
pub mod attrs;
pub mod style;
pub mod html;
pub mod providers;
pub mod elements;
pub mod components;
pub mod convert;
pub mod tree;
pub mod builder;
pub mod document;
pub mod reload;

verus! {

} // verus!
