//! The pretty-print transform: expand structure with newlines and indents.
//!
//! The model mirrors the minimize machine: [`pp_step`] is the state
//! transition for one input byte, [`pp_step_out`] the bytes emitted for it,
//! and [`pp_out`] the whole transform as a function on byte sequences.  The
//! executable [`pretty_print_bytes`] is proved to compute exactly that
//! function.

use vstd::prelude::*;

use crate::scan::{
    is_ws, is_open, is_close, repeat_seq, clamp0, QUOTE, BACKSLASH, SPACE, TAB, LF, CR,
    LBRACE, RBRACE, LBRACKET, RBRACKET, COMMA, COLON,
};

verus! {

/// Scanning state of the pretty-print machine.
///
/// `in_string`, `in_backslash` and `depth` are as in the minimize machine.
/// `empty_structure` is true while the most recently opened bracket has had
/// no content yet, so that `{}` and `[]` render without inner whitespace.
/// `ws_buffer` is the indentation deferred at that open bracket: a newline
/// followed by `depth` copies of the indent unit, emitted only when the
/// structure turns out to be non-empty.
pub ghost struct PpState {
    pub in_string: bool,
    pub in_backslash: bool,
    pub depth: int,
    pub empty_structure: bool,
    pub ws_buffer: Seq<u8>,
}

/// The state at the start of a transform.
pub open spec fn pp_init() -> PpState {
    PpState {
        in_string: false,
        in_backslash: false,
        depth: 0,
        empty_structure: false,
        ws_buffer: Seq::empty(),
    }
}

/// State transition of the pretty-print machine for one input byte.
///
/// String tracking is identical to the minimize machine.  An open bracket
/// raises the depth, marks the new structure empty and recomputes the
/// deferred indentation; a close bracket lowers the depth and clears the
/// empty marker; commas, colons and whitespace leave the state alone; any
/// other byte clears the empty marker and opens a string if it is a quote.
pub open spec fn pp_step(st: PpState, b: u8, indent: Seq<u8>) -> PpState {
    if st.in_string {
        PpState {
            in_string: if st.in_backslash {
                true
            } else {
                b != QUOTE
            },
            in_backslash: if st.in_backslash {
                false
            } else {
                b == BACKSLASH
            },
            ..st
        }
    } else if is_ws(b) {
        st
    } else if is_open(b) {
        PpState {
            depth: st.depth + 1,
            empty_structure: true,
            ws_buffer: seq![LF] + repeat_seq(indent, clamp0(st.depth + 1)),
            ..st
        }
    } else if is_close(b) {
        PpState { depth: st.depth - 1, empty_structure: false, ..st }
    } else if b == COMMA || b == COLON {
        st
    } else {
        PpState { in_string: b == QUOTE, empty_structure: false, ..st }
    }
}

/// Bytes emitted by the pretty-print machine for one input byte.
///
/// String content is copied verbatim and input whitespace is dropped.  An
/// open bracket is emitted bare (its indentation is deferred).  A close
/// bracket closing an empty structure is emitted bare; otherwise it is
/// preceded by a newline and the indentation of the enclosing level; a
/// close that returns the depth to zero is followed by a newline.  A comma
/// is followed by a newline and the current indentation, a colon by one
/// space, and any other byte flushes the deferred indentation first.
pub open spec fn pp_step_out(st: PpState, b: u8, indent: Seq<u8>) -> Seq<u8> {
    if st.in_string {
        seq![b]
    } else if is_ws(b) {
        Seq::empty()
    } else if is_open(b) {
        seq![b]
    } else if is_close(b) {
        let inner = if st.empty_structure {
            seq![b]
        } else {
            seq![LF] + repeat_seq(indent, clamp0(st.depth - 1)) + seq![b]
        };
        if st.depth - 1 == 0 {
            inner + seq![LF]
        } else {
            inner
        }
    } else if b == COMMA {
        seq![b, LF] + repeat_seq(indent, clamp0(st.depth))
    } else if b == COLON {
        seq![COLON, SPACE]
    } else {
        if st.empty_structure {
            st.ws_buffer + seq![b]
        } else {
            seq![b]
        }
    }
}

/// The state after the machine has consumed all of `s`, starting from `st`.
pub open spec fn pp_state_seq(st: PpState, s: Seq<u8>, indent: Seq<u8>) -> PpState
    decreases s.len(),
{
    if s.len() == 0 {
        st
    } else {
        pp_step(pp_state_seq(st, s.drop_last(), indent), s.last(), indent)
    }
}

/// Everything the machine emits while consuming `s`, starting from `st`.
pub open spec fn pp_emit_seq(st: PpState, s: Seq<u8>, indent: Seq<u8>) -> Seq<u8>
    decreases s.len(),
{
    if s.len() == 0 {
        Seq::empty()
    } else {
        pp_emit_seq(st, s.drop_last(), indent) + pp_step_out(
            pp_state_seq(st, s.drop_last(), indent),
            s.last(),
            indent,
        )
    }
}

/// The pretty-print transform as a function on byte sequences.
pub open spec fn pp_out(s: Seq<u8>, indent: Seq<u8>) -> Seq<u8> {
    pp_emit_seq(pp_init(), s, indent)
}

/// Consuming a concatenation reaches the same state as consuming the two
/// parts in order.
pub proof fn lemma_pp_state_concat(st: PpState, a: Seq<u8>, b: Seq<u8>, indent: Seq<u8>)
    ensures
        pp_state_seq(st, a + b, indent) == pp_state_seq(pp_state_seq(st, a, indent), b, indent),
    decreases b.len(),
{
    if b.len() == 0 {
        assert(a + b =~= a);
    } else {
        lemma_pp_state_concat(st, a, b.drop_last(), indent);
        assert((a + b).drop_last() =~= a + b.drop_last());
    }
}

/// Consuming a concatenation emits the two parts' emissions in order.
pub proof fn lemma_pp_emit_concat(st: PpState, a: Seq<u8>, b: Seq<u8>, indent: Seq<u8>)
    ensures
        pp_emit_seq(st, a + b, indent) == pp_emit_seq(st, a, indent) + pp_emit_seq(
            pp_state_seq(st, a, indent),
            b,
            indent,
        ),
    decreases b.len(),
{
    if b.len() == 0 {
        assert(a + b =~= a);
        assert(pp_emit_seq(st, a, indent) + pp_emit_seq(pp_state_seq(st, a, indent), b, indent)
            =~= pp_emit_seq(st, a, indent));
    } else {
        lemma_pp_emit_concat(st, a, b.drop_last(), indent);
        lemma_pp_state_concat(st, a, b.drop_last(), indent);
        assert((a + b).drop_last() =~= a + b.drop_last());
        assert(pp_emit_seq(st, a, indent) + pp_emit_seq(pp_state_seq(st, a, indent), b, indent)
            =~= pp_emit_seq(st, a, indent) + pp_emit_seq(
            pp_state_seq(st, a, indent),
            b.drop_last(),
            indent,
        ) + pp_step_out(
            pp_state_seq(pp_state_seq(st, a, indent), b.drop_last(), indent),
            b.last(),
            indent,
        ));
    }
}

/// Consuming a single byte steps the machine once.
pub proof fn lemma_pp_single(st: PpState, b: u8, indent: Seq<u8>)
    ensures
        pp_state_seq(st, seq![b], indent) == pp_step(st, b, indent),
        pp_emit_seq(st, seq![b], indent) == pp_step_out(st, b, indent),
{
    assert(seq![b].drop_last() =~= Seq::<u8>::empty());
    assert(pp_state_seq(st, Seq::<u8>::empty(), indent) == st);
    assert(pp_emit_seq(st, Seq::<u8>::empty(), indent) == Seq::<u8>::empty());
    assert(pp_emit_seq(st, seq![b], indent) == pp_emit_seq(st, Seq::<u8>::empty(), indent)
        + pp_step_out(st, seq![b].last(), indent));
    assert(Seq::<u8>::empty() + pp_step_out(st, b, indent) =~= pp_step_out(st, b, indent));
}

/// Appends `n` copies of `unit` to `out`.
fn push_repeat(out: &mut Vec<u8>, unit: &[u8], n: usize)
    ensures
        final(out)@ == old(out)@ + repeat_seq(unit@, n as nat),
{
    let mut j: usize = 0;
    while j < n
        invariant
            j <= n,
            out@ == old(out)@ + repeat_seq(unit@, j as nat),
        decreases n - j,
    {
        let mut k: usize = 0;
        while k < unit.len()
            invariant
                k <= unit@.len(),
                out@ == old(out)@ + repeat_seq(unit@, j as nat) + unit@.take(k as int),
            decreases unit@.len() - k,
        {
            out.push(unit[k]);
            proof {
                assert(unit@.take(k + 1) =~= unit@.take(k as int) + seq![unit@[k as int]]);
                assert(old(out)@ + repeat_seq(unit@, j as nat) + unit@.take(k + 1) =~= (old(out)@
                    + repeat_seq(unit@, j as nat) + unit@.take(k as int)).push(unit@[k as int]));
            }
            k = k + 1;
        }
        proof {
            assert(unit@.take(unit@.len() as int) =~= unit@);
            assert(old(out)@ + repeat_seq(unit@, (j + 1) as nat) =~= old(out)@ + repeat_seq(
                unit@,
                j as nat,
            ) + unit@);
        }
        j = j + 1;
    }
    proof {
        assert(out@ =~= old(out)@ + repeat_seq(unit@, n as nat));
    }
}

/// Pretty-prints JSON-encoded bytes, using `indent` as one indentation
/// level.
///
/// This function does *not* perform JSON validation; it re-emits malformed
/// input on a best-effort basis.  Empty structures render as `{}` and `[]`,
/// and a close bracket that returns the nesting depth to zero is followed
/// by one newline.
#[verifier::rlimit(60)]
pub fn pretty_print_bytes(input: &[u8], indent: &[u8]) -> (out: Vec<u8>)
    ensures
        out@ == pp_out(input@, indent@),
{
    let mut out: Vec<u8> = Vec::new();
    let mut in_string = false;
    let mut in_backslash = false;
    let mut depth: i128 = 0;
    let mut empty_structure = false;
    let mut ws_buffer: Vec<u8> = Vec::new();
    let mut i: usize = 0;
    while i < input.len()
        invariant
            i <= input@.len(),
            ({
                let st = pp_state_seq(pp_init(), input@.take(i as int), indent@);
                &&& in_string == st.in_string
                &&& in_backslash == st.in_backslash
                &&& depth as int == st.depth
                &&& empty_structure == st.empty_structure
                &&& empty_structure ==> ws_buffer@ == st.ws_buffer
            }),
            -(i as int) <= depth as int <= i as int,
            out@ == pp_emit_seq(pp_init(), input@.take(i as int), indent@),
        decreases input@.len() - i,
    {
        let b = input[i];
        proof {
            assert(input@.take(i + 1).drop_last() =~= input@.take(i as int));
            assert(input@.take(i + 1).last() == input@[i as int]);
        }
        if in_string {
            out.push(b);
            if in_backslash {
                in_backslash = false;
            } else if b == QUOTE {
                in_string = false;
            } else if b == BACKSLASH {
                in_backslash = true;
            }
        } else if b == SPACE || b == TAB || b == LF || b == CR {
            // insignificant whitespace: dropped
        } else if b == LBRACE || b == LBRACKET {
            out.push(b);
            depth = depth + 1;
            empty_structure = true;
            ws_buffer = Vec::new();
            ws_buffer.push(LF);
            push_repeat(&mut ws_buffer, indent, if depth > 0 {
                depth as usize
            } else {
                0
            });
            proof {
                assert(ws_buffer@ =~= seq![LF] + repeat_seq(indent@, clamp0(depth as int)));
            }
        } else if b == RBRACE || b == RBRACKET {
            depth = depth - 1;
            if empty_structure {
                out.push(b);
                empty_structure = false;
            } else {
                out.push(LF);
                push_repeat(&mut out, indent, if depth > 0 {
                    depth as usize
                } else {
                    0
                });
                out.push(b);
            }
            if depth == 0 {
                out.push(LF);
            }
        } else if b == COMMA {
            out.push(b);
            out.push(LF);
            push_repeat(&mut out, indent, if depth > 0 {
                depth as usize
            } else {
                0
            });
        } else if b == COLON {
            out.push(COLON);
            out.push(SPACE);
        } else {
            if empty_structure {
                let mut flushed = ws_buffer;
                ws_buffer = Vec::new();
                out.append(&mut flushed);
                empty_structure = false;
            }
            if b == QUOTE {
                in_string = true;
            }
            out.push(b);
        }
        proof {
            let st = pp_state_seq(pp_init(), input@.take(i as int), indent@);
            assert(out@ =~= pp_emit_seq(pp_init(), input@.take(i as int), indent@) + pp_step_out(
                st,
                input@[i as int],
                indent@,
            ));
        }
        i = i + 1;
    }
    proof {
        assert(input@.take(input@.len() as int) =~= input@);
    }
    out
}

} // verus!
