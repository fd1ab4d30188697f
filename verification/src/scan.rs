//! Byte classification shared by the two transforms.
//!
//! Both transforms walk the input one byte at a time and classify each byte
//! by the same lexical categories: insignificant whitespace, structural
//! open/close brackets, separators, and everything else.  String tracking
//! (quotes and backslash escapes) is layered on top of this classification
//! by each transform's state machine.

use vstd::prelude::*;

verus! {

/// Double quote, `"`.
pub const QUOTE: u8 = 34;

/// Backslash, `\`.
pub const BACKSLASH: u8 = 92;

/// Space.
pub const SPACE: u8 = 32;

/// Horizontal tab.
pub const TAB: u8 = 9;

/// Line feed, `\n`.
pub const LF: u8 = 10;

/// Carriage return, `\r`.
pub const CR: u8 = 13;

/// Left brace, `{`.
pub const LBRACE: u8 = 123;

/// Right brace, `}`.
pub const RBRACE: u8 = 125;

/// Left bracket, `[`.
pub const LBRACKET: u8 = 91;

/// Right bracket, `]`.
pub const RBRACKET: u8 = 93;

/// Comma, `,`.
pub const COMMA: u8 = 44;

/// Colon, `:`.
pub const COLON: u8 = 58;

/// Insignificant whitespace outside of string literals: space, tab,
/// line feed, carriage return.
pub open spec fn is_ws(b: u8) -> bool {
    b == SPACE || b == TAB || b == LF || b == CR
}

/// A structural open bracket: `{` or `[`.
pub open spec fn is_open(b: u8) -> bool {
    b == LBRACE || b == LBRACKET
}

/// A structural close bracket: `}` or `]`.
pub open spec fn is_close(b: u8) -> bool {
    b == RBRACE || b == RBRACKET
}

/// Every byte of `s` is insignificant whitespace.
pub open spec fn all_ws(s: Seq<u8>) -> bool {
    forall|k: int| 0 <= k < s.len() ==> is_ws(#[trigger] s[k])
}

/// `n` copies of `unit`, concatenated.
pub open spec fn repeat_seq(unit: Seq<u8>, n: nat) -> Seq<u8>
    decreases n,
{
    if n == 0 {
        Seq::empty()
    } else {
        repeat_seq(unit, (n - 1) as nat) + unit
    }
}

/// Clamp an integer to a natural number, as iterating a range `0..d`
/// does for a possibly negative bound `d`.
pub open spec fn clamp0(d: int) -> nat {
    if d >= 0 {
        d as nat
    } else {
        0
    }
}

/// A repetition of a whitespace-only unit is itself whitespace-only.
pub proof fn lemma_repeat_all_ws(unit: Seq<u8>, n: nat)
    requires
        all_ws(unit),
    ensures
        all_ws(repeat_seq(unit, n)),
    decreases n,
{
    if n > 0 {
        lemma_repeat_all_ws(unit, (n - 1) as nat);
    }
}

} // verus!
