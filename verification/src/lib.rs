//! Converts extended Markdown to HTML: a verified event-stream transformer
//! with math rendering hooks, syntax-highlighted and line-numbered code
//! blocks restricted to an allow-list of languages, heading anchor links,
//! and a `:::spoiler` disclosure-block syntax.

use vstd::prelude::*;

pub mod directive;
pub mod events;
pub mod lang;
pub mod laws;
pub mod render;
pub mod text;
pub mod transform;

pub use directive::parse_code_directive;
pub use events::{ExtRequest, MdEvent};
pub use lang::check_language;
pub use render::add_line_numbers;
pub use transform::Transformer;

verus! {

} // verus!
