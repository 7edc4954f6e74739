//! A small verified text-formatting engine. A value (integer, exact
//! decimal, text, or an aggregate record) is rendered to raw text under a
//! requested convention — its own plain form, the structural debug form,
//! the pretty debug variant, or a numeric base — and the raw text is then
//! laid out with width, alignment, fill and precision modifiers. Width
//! and precision may be literal or resolved through another argument, and
//! whole templates bind positional and named arguments to slots. A value
//! rendered under a convention it does not support, or a reference to a
//! missing argument, is a typed error, never silent output.

pub mod numeric;
pub mod value;
pub mod render;
pub mod layout;
pub mod engine;
pub mod strip;
