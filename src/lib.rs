//! Builders for SVG markup: elements with typed attributes, rendered as text.
pub mod element;
pub mod line;
pub mod text;
pub mod unit;

pub use element::{
    Attribute, CoreAttributes, Element, StylingAttributes, TagAndAttributes, TagName,
};
pub use line::Line;
pub use text::Text;
pub use unit::{DecimalValue, LengthOrPercentage};
