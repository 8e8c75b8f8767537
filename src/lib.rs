//! A character-driven parser for a small stylesheet language: rule sets made of
//! selectors and `key: value` declarations, built by an explicit state machine
//! with a context stack.
use vstd::prelude::*;

pub mod context;
pub mod document;
pub mod laws;
pub mod model;
pub mod parser;
pub mod text;

pub use context::{CssCommand, CssContext, CssTestResult};
pub use document::{CssRoot, CssRule, CssRuleSet};
pub use model::ParseError;
pub use parser::CssParser;

verus! {

} // verus!
