//! Names of token categories as they appear in diagnostics.

use vstd::prelude::*;

verus! {

pub const IDENTIFIER: &'static str = "Identifier";

pub const ASSIGN: &'static str = "Assign";

} // verus!
