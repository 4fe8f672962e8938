//! A parsing-combinator engine: rules built from small composable matchers
//! are scanned against Unicode text with backtracking, synthesizing typed
//! values bottom-up as matches succeed.
//!
//! Rules live in a [`Grammar`](engine::Grammar) arena and refer to each other
//! by handle, so grammars may be recursive.  Scanning is specified against
//! the step-indexed interpreter in [`semantics`]; the laws the engine obeys
//! are stated and proved in [`laws`].

pub mod diagnostics;
pub mod engine;
pub mod laws;
pub mod semantics;

use vstd::prelude::*;

verus! {

pub use crate::diagnostics::{cursor_pos, CursorPos, RuleError};
pub use crate::engine::{Grammar, Progress, Reducer, Rule, ScanCtx, Scanner};

} // verus!
