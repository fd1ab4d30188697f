//! The minimize transform: strip all insignificant whitespace.
//!
//! The mathematical model is a Mealy machine: [`min_step`] gives the state
//! transition for one input byte, [`min_step_out`] the bytes emitted for it,
//! and [`min_emit_seq`] folds both over an input sequence.  [`min_out`] is
//! the whole transform as a function on byte sequences, and the executable
//! [`minimize_bytes`] is proved to compute exactly that function.

use vstd::prelude::*;

use crate::scan::{
    is_ws, is_open, is_close, QUOTE, BACKSLASH, SPACE, TAB, LF, CR, LBRACE, RBRACE,
    LBRACKET, RBRACKET,
};

verus! {

/// Scanning state of the minimize machine.
///
/// `in_string` and `in_backslash` track string boundaries and escapes;
/// `in_backslash` can be true only while `in_string` is.  `depth` counts
/// open, unclosed `{`/`[` brackets; it goes negative on unbalanced input.
/// `print_newline` records that a top-level value has already been emitted,
/// so that the next top-level open bracket is preceded by one separating
/// newline.
pub ghost struct MinState {
    pub in_string: bool,
    pub in_backslash: bool,
    pub depth: int,
    pub print_newline: bool,
}

/// The state at the start of a transform.
pub open spec fn min_init() -> MinState {
    MinState { in_string: false, in_backslash: false, depth: 0, print_newline: false }
}

/// State transition of the minimize machine for one input byte.
///
/// Inside a string, an escaped byte clears the escape flag, an unescaped
/// quote closes the string, and an unescaped backslash sets the escape
/// flag.  Outside a string, whitespace changes nothing, brackets move the
/// depth, a quote opens a string, and everything else changes nothing.
pub open spec fn min_step(st: MinState, b: u8) -> MinState {
    if st.in_string {
        MinState {
            in_string: if st.in_backslash {
                true
            } else {
                b != QUOTE
            },
            in_backslash: if st.in_backslash {
                false
            } else {
                b == BACKSLASH
            },
            ..st
        }
    } else if is_ws(b) {
        st
    } else if is_open(b) {
        MinState {
            depth: st.depth + 1,
            print_newline: if st.depth == 0 {
                true
            } else {
                st.print_newline
            },
            ..st
        }
    } else if is_close(b) {
        MinState { depth: st.depth - 1, ..st }
    } else {
        MinState { in_string: b == QUOTE, ..st }
    }
}

/// Bytes emitted by the minimize machine for one input byte.
///
/// String content is copied verbatim; insignificant whitespace is dropped;
/// a top-level open bracket that follows an earlier top-level value is
/// preceded by one newline; every other byte is copied verbatim.
pub open spec fn min_step_out(st: MinState, b: u8) -> Seq<u8> {
    if st.in_string {
        seq![b]
    } else if is_ws(b) {
        Seq::empty()
    } else if is_open(b) && st.depth == 0 && st.print_newline {
        seq![LF, b]
    } else {
        seq![b]
    }
}

/// The state after the machine has consumed all of `s`, starting from `st`.
pub open spec fn min_state_seq(st: MinState, s: Seq<u8>) -> MinState
    decreases s.len(),
{
    if s.len() == 0 {
        st
    } else {
        min_step(min_state_seq(st, s.drop_last()), s.last())
    }
}

/// Everything the machine emits while consuming `s`, starting from `st`.
pub open spec fn min_emit_seq(st: MinState, s: Seq<u8>) -> Seq<u8>
    decreases s.len(),
{
    if s.len() == 0 {
        Seq::empty()
    } else {
        min_emit_seq(st, s.drop_last()) + min_step_out(min_state_seq(st, s.drop_last()), s.last())
    }
}

/// The minimize transform as a function on byte sequences.
pub open spec fn min_out(s: Seq<u8>) -> Seq<u8> {
    min_emit_seq(min_init(), s)
}

/// Consuming a concatenation reaches the same state as consuming the two
/// parts in order.
pub proof fn lemma_min_state_concat(st: MinState, a: Seq<u8>, b: Seq<u8>)
    ensures
        min_state_seq(st, a + b) == min_state_seq(min_state_seq(st, a), b),
    decreases b.len(),
{
    if b.len() == 0 {
        assert(a + b =~= a);
    } else {
        lemma_min_state_concat(st, a, b.drop_last());
        assert((a + b).drop_last() =~= a + b.drop_last());
    }
}

/// Consuming a concatenation emits the two parts' emissions in order.
pub proof fn lemma_min_emit_concat(st: MinState, a: Seq<u8>, b: Seq<u8>)
    ensures
        min_emit_seq(st, a + b) == min_emit_seq(st, a) + min_emit_seq(min_state_seq(st, a), b),
    decreases b.len(),
{
    if b.len() == 0 {
        assert(a + b =~= a);
        assert(min_emit_seq(st, a) + min_emit_seq(min_state_seq(st, a), b) =~= min_emit_seq(
            st,
            a,
        ));
    } else {
        lemma_min_emit_concat(st, a, b.drop_last());
        lemma_min_state_concat(st, a, b.drop_last());
        assert((a + b).drop_last() =~= a + b.drop_last());
        assert(min_emit_seq(st, a) + min_emit_seq(min_state_seq(st, a), b) =~= min_emit_seq(
            st,
            a,
        ) + min_emit_seq(min_state_seq(st, a), b.drop_last()) + min_step_out(
            min_state_seq(min_state_seq(st, a), b.drop_last()),
            b.last(),
        ));
    }
}

/// Consuming a single byte steps the machine once.
pub proof fn lemma_min_single(st: MinState, b: u8)
    ensures
        min_state_seq(st, seq![b]) == min_step(st, b),
        min_emit_seq(st, seq![b]) == min_step_out(st, b),
{
    assert(seq![b].drop_last() =~= Seq::<u8>::empty());
    assert(min_state_seq(st, Seq::<u8>::empty()) == st);
    assert(min_emit_seq(st, Seq::<u8>::empty()) == Seq::<u8>::empty());
    assert(min_emit_seq(st, seq![b]) == min_emit_seq(st, Seq::<u8>::empty()) + min_step_out(
        st,
        seq![b].last(),
    ));
    assert(Seq::<u8>::empty() + min_step_out(st, b) =~= min_step_out(st, b));
}

/// Strips all insignificant whitespace from JSON-encoded bytes.
///
/// This function does *not* perform JSON validation; it re-emits malformed
/// input on a best-effort basis.  Concatenated top-level values are
/// separated by exactly one newline, and the output never ends with a
/// trailing newline.
pub fn minimize_bytes(input: &[u8]) -> (out: Vec<u8>)
    ensures
        out@ == min_out(input@),
{
    let mut out: Vec<u8> = Vec::new();
    let mut in_string = false;
    let mut in_backslash = false;
    let mut depth: i128 = 0;
    let mut print_newline = false;
    let mut i: usize = 0;
    while i < input.len()
        invariant
            i <= input@.len(),
            ({
                let st = min_state_seq(min_init(), input@.take(i as int));
                &&& in_string == st.in_string
                &&& in_backslash == st.in_backslash
                &&& depth as int == st.depth
                &&& print_newline == st.print_newline
            }),
            -(i as int) <= depth as int <= i as int,
            out@ == min_emit_seq(min_init(), input@.take(i as int)),
        decreases input@.len() - i,
    {
        let b = input[i];
        proof {
            assert(input@.take(i + 1).drop_last() =~= input@.take(i as int));
            assert(input@.take(i + 1).last() == input@[i as int]);
        }
        if in_string {
            out.push(b);
            if in_backslash {
                in_backslash = false;
            } else if b == QUOTE {
                in_string = false;
            } else if b == BACKSLASH {
                in_backslash = true;
            }
        } else if b == SPACE || b == TAB || b == LF || b == CR {
            // insignificant whitespace: dropped
        } else if b == LBRACE || b == LBRACKET {
            if depth == 0 {
                if print_newline {
                    out.push(LF);
                }
                print_newline = true;
            }
            out.push(b);
            depth = depth + 1;
        } else if b == RBRACE || b == RBRACKET {
            out.push(b);
            depth = depth - 1;
        } else {
            if b == QUOTE {
                in_string = true;
            }
            out.push(b);
        }
        proof {
            let st = min_state_seq(min_init(), input@.take(i as int));
            assert(out@ =~= min_emit_seq(min_init(), input@.take(i as int)) + min_step_out(
                st,
                input@[i as int],
            ));
        }
        i = i + 1;
    }
    proof {
        assert(input@.take(input@.len() as int) =~= input@);
    }
    out
}

} // verus!
