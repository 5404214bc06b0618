//! Discriminants by which the parser looks up its prefix and infix rules.

use vstd::prelude::*;

verus! {

pub const IDENTIFIER: i8 = 0;

pub const INT: i8 = 1;

pub const PLUS: i8 = 2;

pub const MINUS: i8 = 3;

pub const ASTERISK: i8 = 4;

pub const SLASH: i8 = 5;

pub const BANG: i8 = 6;

pub const EQUAL: i8 = 7;

pub const NOT_EQUAL: i8 = 8;

pub const LESS_THAN: i8 = 9;

pub const GREATER_THAN: i8 = 10;

pub const BOOL: i8 = 11;

pub const LEFT_PARENTHESIS: i8 = 12;

pub const IF: i8 = 13;

pub const FUNCTION: i8 = 14;

pub const ILLEGAL: i8 = -1;

} // verus!
