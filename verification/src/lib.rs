//! A render engine for a logic-light, tag-based template language.
//!
//! A compiled [`Template`](render::Template) is a tree of
//! [`Token`](token::Token)s; rendering walks that tree against a
//! [`Data`](data::Data) value, resolving dotted paths through a stack of
//! nested scopes, tracking indentation across partials, and re-expanding
//! producer (lambda) values through the compiler.

use vstd::prelude::*;

pub mod compile;
pub mod data;
pub mod escape;
pub mod json;
pub mod laws;
pub mod render;
pub mod semantics;
pub mod token;
pub mod util;

pub use render::compile_str;
pub use render::Template;
pub use data::Data;

verus! {

/// Failures that compiling or rendering can report.
#[derive(Clone, Copy, PartialEq, Eq, Structural, Debug)]
pub enum Error {
    /// A section sentinel that compilation must never leak reached the renderer.
    IncompleteSection,
    /// A tag was opened but its closing delimiter never followed.
    UnclosedTag,
    /// A section was opened and never closed.
    UnclosedSection,
    /// A closing section tag did not match the innermost open section.
    UnbalancedSection,
    /// A tag form this engine does not accept: a delimiter change, or an
    /// empty delimiter.
    UnsupportedTag,
    /// The nesting budget for partials and producer expansions ran out.
    TooDeep,
    /// A producer was invoked while it was already running.
    ProducerBusy,
}

} // verus!
