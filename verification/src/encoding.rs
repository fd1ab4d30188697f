//! Both transforms preserve UTF-8 validity.
//!
//! The transforms drop and insert only ASCII bytes outside string literals,
//! and every byte of a multi-byte UTF-8 scalar is at least `0x80`, so such
//! scalars pass through either machine untouched.  It follows that the
//! output of either transform on valid UTF-8 input is again valid UTF-8 —
//! which is why the string-level entry points always succeed.

use vstd::prelude::*;
use vstd::utf8::{
    valid_utf8, valid_first_scalar, valid_leading_and_continuation_bytes_first_codepoint,
    decode_first_codepoint, length_of_first_codepoint, length_of_first_scalar,
    take_first_scalar, pop_first_scalar, is_leading_byte_width_1,
};

use crate::scan::{is_ws, is_open, is_close, repeat_seq, clamp0, LF, SPACE, COMMA, COLON};
use crate::minimize::{
    MinState, min_init, min_step_out, min_state_seq, min_emit_seq, min_out,
    lemma_min_state_concat, lemma_min_emit_concat, lemma_min_single,
};
use crate::pretty::{
    PpState, pp_init, pp_step, pp_step_out, pp_state_seq, pp_emit_seq, pp_out,
    lemma_pp_state_concat, lemma_pp_emit_concat, lemma_pp_single,
};

verus! {

/// Every byte of `s` belongs to a multi-byte UTF-8 encoding (is at least
/// `0x80`), so neither machine classifies it as whitespace, a bracket, a
/// separator, a quote or a backslash.
spec fn all_high(s: Seq<u8>) -> bool {
    forall|k: int| 0 <= k < s.len() ==> #[trigger] s[k] >= 0x80
}

/// A single ASCII byte is valid UTF-8 on its own.
proof fn lemma_ascii_singleton_valid(b: u8)
    requires
        b < 0x80,
    ensures
        valid_utf8(seq![b]),
{
    let s = seq![b];
    assert(is_leading_byte_width_1(s[0]));
    assert(b & 0x7f == b) by (bit_vector)
        requires
            b < 0x80,
    ;
    assert(decode_first_codepoint(s) == b as u32);
    assert(valid_first_scalar(s));
    assert(pop_first_scalar(s) =~= Seq::<u8>::empty());
    assert(valid_utf8(Seq::<u8>::empty()));
}

/// Concatenating two valid UTF-8 sequences gives a valid UTF-8 sequence.
proof fn lemma_valid_utf8_concat(a: Seq<u8>, b: Seq<u8>)
    requires
        valid_utf8(a),
        valid_utf8(b),
    ensures
        valid_utf8(a + b),
    decreases a.len(),
{
    if a.len() == 0 {
        assert(a + b =~= b);
    } else {
        let ab = a + b;
        let l = length_of_first_scalar(a);
        assert(valid_first_scalar(a));
        assert(1 <= l <= a.len());
        assert(forall|i: int| 0 <= i < a.len() ==> ab[i] == a[i]);
        assert(valid_leading_and_continuation_bytes_first_codepoint(ab));
        assert(length_of_first_codepoint(ab) == l);
        assert(decode_first_codepoint(ab) == decode_first_codepoint(a));
        assert(valid_first_scalar(ab));
        assert(pop_first_scalar(ab) =~= pop_first_scalar(a) + b);
        lemma_valid_utf8_concat(pop_first_scalar(a), b);
    }
}

/// The first scalar of a valid UTF-8 sequence is itself valid UTF-8; it is
/// a single ASCII byte or consists entirely of bytes at least `0x80`.
proof fn lemma_take_first_scalar(s: Seq<u8>)
    requires
        valid_utf8(s),
        s.len() > 0,
    ensures
        1 <= length_of_first_scalar(s) <= s.len(),
        take_first_scalar(s).len() == length_of_first_scalar(s),
        valid_utf8(take_first_scalar(s)),
        length_of_first_scalar(s) == 1 ==> s[0] < 0x80 && take_first_scalar(s) == seq![s[0]],
        length_of_first_scalar(s) >= 2 ==> all_high(take_first_scalar(s)),
{
    let w = take_first_scalar(s);
    let l = length_of_first_scalar(s);
    assert(valid_first_scalar(s));
    assert(1 <= l <= s.len());
    assert(forall|i: int| 0 <= i < l ==> w[i] == s[i]);
    assert(valid_leading_and_continuation_bytes_first_codepoint(w));
    assert(length_of_first_codepoint(w) == l);
    assert(decode_first_codepoint(w) == decode_first_codepoint(s));
    assert(valid_first_scalar(w));
    assert(pop_first_scalar(w) =~= Seq::<u8>::empty());
    assert(valid_utf8(Seq::<u8>::empty()));
    if l == 1 {
        assert(w =~= seq![s[0]]);
    }
}

/// A valid UTF-8 sequence splits into its first scalar and the valid rest.
proof fn lemma_scalar_split(s: Seq<u8>)
    requires
        valid_utf8(s),
        s.len() > 0,
    ensures
        s == take_first_scalar(s) + pop_first_scalar(s),
        valid_utf8(pop_first_scalar(s)),
        pop_first_scalar(s).len() < s.len(),
{
    lemma_take_first_scalar(s);
    assert(s =~= take_first_scalar(s) + pop_first_scalar(s));
}

/// The minimize machine copies a run of high bytes verbatim, from any
/// state: each such byte is string content or an ordinary non-structural
/// byte, and in either case is emitted as it stands.
proof fn lemma_min_emit_high(st: MinState, w: Seq<u8>)
    requires
        all_high(w),
    ensures
        min_emit_seq(st, w) == w,
    decreases w.len(),
{
    if w.len() > 0 {
        lemma_min_emit_high(st, w.drop_last());
        assert(min_emit_seq(st, w) =~= w);
    }
}

/// What the minimize machine emits for one ASCII byte is valid UTF-8.
proof fn lemma_min_step_out_ascii_valid(st: MinState, b: u8)
    requires
        b < 0x80,
    ensures
        valid_utf8(min_step_out(st, b)),
{
    let chunk = min_step_out(st, b);
    if !st.in_string && is_ws(b) {
        assert(valid_utf8(Seq::<u8>::empty()));
    } else if !st.in_string && is_open(b) && st.depth == 0 && st.print_newline {
        lemma_ascii_singleton_valid(LF);
        lemma_ascii_singleton_valid(b);
        lemma_valid_utf8_concat(seq![LF], seq![b]);
        assert(chunk =~= seq![LF] + seq![b]);
    } else {
        lemma_ascii_singleton_valid(b);
        assert(chunk =~= seq![b]);
    }
}

/// What the minimize machine emits for valid UTF-8 input, from any state,
/// is valid UTF-8.
proof fn lemma_min_emit_valid(st: MinState, s: Seq<u8>)
    requires
        valid_utf8(s),
    ensures
        valid_utf8(min_emit_seq(st, s)),
    decreases s.len(),
{
    if s.len() > 0 {
        let w = take_first_scalar(s);
        let rest = pop_first_scalar(s);
        lemma_take_first_scalar(s);
        lemma_scalar_split(s);
        lemma_min_emit_concat(st, w, rest);
        lemma_min_state_concat(st, w, rest);
        let stw = min_state_seq(st, w);
        if w.len() == 1 {
            lemma_min_single(st, s[0]);
            lemma_min_step_out_ascii_valid(st, s[0]);
        } else {
            lemma_min_emit_high(st, w);
        }
        lemma_min_emit_valid(stw, rest);
        lemma_valid_utf8_concat(min_emit_seq(st, w), min_emit_seq(stw, rest));
    }
}

/// Minimizing valid UTF-8 gives valid UTF-8.
pub proof fn lemma_minimize_preserves_utf8(s: Seq<u8>)
    requires
        valid_utf8(s),
    ensures
        valid_utf8(min_out(s)),
{
    lemma_min_emit_valid(min_init(), s);
}

/// A repetition of a valid UTF-8 unit is valid UTF-8.
proof fn lemma_repeat_valid(unit: Seq<u8>, n: nat)
    requires
        valid_utf8(unit),
    ensures
        valid_utf8(repeat_seq(unit, n)),
    decreases n,
{
    if n == 0 {
        assert(valid_utf8(Seq::<u8>::empty()));
    } else {
        lemma_repeat_valid(unit, (n - 1) as nat);
        lemma_valid_utf8_concat(repeat_seq(unit, (n - 1) as nat), unit);
    }
}

/// The deferred indentation held in a pretty-print state is valid UTF-8.
spec fn pp_wf(st: PpState) -> bool {
    valid_utf8(st.ws_buffer)
}

/// One step of the pretty machine keeps the deferred indentation valid,
/// for a valid UTF-8 indent unit.
proof fn lemma_pp_step_wf(st: PpState, b: u8, ind: Seq<u8>)
    requires
        pp_wf(st),
        valid_utf8(ind),
    ensures
        pp_wf(pp_step(st, b, ind)),
{
    if !st.in_string && !is_ws(b) && is_open(b) {
        lemma_ascii_singleton_valid(LF);
        lemma_repeat_valid(ind, clamp0(st.depth + 1));
        lemma_valid_utf8_concat(seq![LF], repeat_seq(ind, clamp0(st.depth + 1)));
    }
}

/// What the pretty machine emits for one ASCII byte is valid UTF-8.
proof fn lemma_pp_step_out_ascii_valid(st: PpState, b: u8, ind: Seq<u8>)
    requires
        b < 0x80,
        pp_wf(st),
        valid_utf8(ind),
    ensures
        valid_utf8(pp_step_out(st, b, ind)),
{
    let chunk = pp_step_out(st, b, ind);
    lemma_ascii_singleton_valid(LF);
    lemma_ascii_singleton_valid(b);
    if st.in_string {
        assert(chunk =~= seq![b]);
    } else if is_ws(b) {
        assert(valid_utf8(Seq::<u8>::empty()));
    } else if is_open(b) {
        assert(chunk =~= seq![b]);
    } else if is_close(b) {
        let reps = repeat_seq(ind, clamp0(st.depth - 1));
        lemma_repeat_valid(ind, clamp0(st.depth - 1));
        let inner = if st.empty_structure {
            seq![b]
        } else {
            seq![LF] + reps + seq![b]
        };
        lemma_valid_utf8_concat(seq![LF], reps);
        lemma_valid_utf8_concat(seq![LF] + reps, seq![b]);
        lemma_valid_utf8_concat(inner, seq![LF]);
        if st.depth - 1 == 0 {
            assert(chunk =~= inner + seq![LF]);
        } else {
            assert(chunk =~= inner);
        }
    } else if b == COMMA {
        let reps = repeat_seq(ind, clamp0(st.depth));
        lemma_repeat_valid(ind, clamp0(st.depth));
        lemma_valid_utf8_concat(seq![b], seq![LF]);
        lemma_valid_utf8_concat(seq![b] + seq![LF], reps);
        assert(chunk =~= seq![b] + seq![LF] + reps);
    } else if b == COLON {
        lemma_ascii_singleton_valid(COLON);
        lemma_ascii_singleton_valid(SPACE);
        lemma_valid_utf8_concat(seq![COLON], seq![SPACE]);
        assert(chunk =~= seq![COLON] + seq![SPACE]);
    } else {
        if st.empty_structure {
            lemma_valid_utf8_concat(st.ws_buffer, seq![b]);
            assert(chunk =~= st.ws_buffer + seq![b]);
        } else {
            assert(chunk =~= seq![b]);
        }
    }
}

/// The pretty machine copies a run of high bytes verbatim, after flushing
/// any deferred indentation at the first of them; its string flag and
/// deferred indentation are unchanged.
proof fn lemma_pp_emit_high(st: PpState, w: Seq<u8>, ind: Seq<u8>)
    requires
        all_high(w),
        w.len() > 0,
    ensures
        pp_state_seq(st, w, ind).in_string == st.in_string,
        pp_state_seq(st, w, ind).ws_buffer == st.ws_buffer,
        !st.in_string ==> !pp_state_seq(st, w, ind).empty_structure,
        pp_emit_seq(st, w, ind) == (if !st.in_string && st.empty_structure {
            st.ws_buffer
        } else {
            Seq::<u8>::empty()
        }) + w,
    decreases w.len(),
{
    let flush = if !st.in_string && st.empty_structure {
        st.ws_buffer
    } else {
        Seq::<u8>::empty()
    };
    if w.len() == 1 {
        assert(w =~= seq![w[0]]);
        lemma_pp_single(st, w[0], ind);
        assert(pp_emit_seq(st, w, ind) =~= flush + w);
    } else {
        let w0 = w.drop_last();
        let b = w.last();
        assert(forall|k: int| 0 <= k < w0.len() ==> w0[k] == w[k]);
        assert(all_high(w0));
        assert(b >= 0x80);
        lemma_pp_emit_high(st, w0, ind);
        let st0 = pp_state_seq(st, w0, ind);
        assert(pp_step_out(st0, b, ind) == seq![b]);
        assert(pp_emit_seq(st, w, ind) == pp_emit_seq(st, w0, ind) + pp_step_out(st0, b, ind));
        assert(pp_emit_seq(st, w, ind) =~= flush + w);
    }
}

/// What the pretty machine emits for valid UTF-8 input, from any state
/// with valid deferred indentation, is valid UTF-8.
proof fn lemma_pp_emit_valid(st: PpState, s: Seq<u8>, ind: Seq<u8>)
    requires
        valid_utf8(s),
        valid_utf8(ind),
        pp_wf(st),
    ensures
        valid_utf8(pp_emit_seq(st, s, ind)),
        pp_wf(pp_state_seq(st, s, ind)),
    decreases s.len(),
{
    if s.len() == 0 {
        assert(valid_utf8(Seq::<u8>::empty()));
    } else {
        let w = take_first_scalar(s);
        let rest = pop_first_scalar(s);
        lemma_take_first_scalar(s);
        lemma_scalar_split(s);
        lemma_pp_emit_concat(st, w, rest, ind);
        lemma_pp_state_concat(st, w, rest, ind);
        let stw = pp_state_seq(st, w, ind);
        if w.len() == 1 {
            lemma_pp_single(st, s[0], ind);
            lemma_pp_step_out_ascii_valid(st, s[0], ind);
            lemma_pp_step_wf(st, s[0], ind);
        } else {
            lemma_pp_emit_high(st, w, ind);
            lemma_valid_utf8_concat(if !st.in_string && st.empty_structure {
                st.ws_buffer
            } else {
                Seq::<u8>::empty()
            }, w);
        }
        lemma_pp_emit_valid(stw, rest, ind);
        lemma_valid_utf8_concat(pp_emit_seq(st, w, ind), pp_emit_seq(stw, rest, ind));
    }
}

/// Pretty-printing valid UTF-8 with a valid UTF-8 indent unit gives valid
/// UTF-8.
pub proof fn lemma_pretty_preserves_utf8(s: Seq<u8>, indent: Seq<u8>)
    requires
        valid_utf8(s),
        valid_utf8(indent),
    ensures
        valid_utf8(pp_out(s, indent)),
{
    assert(valid_utf8(Seq::<u8>::empty()));
    lemma_pp_emit_valid(pp_init(), s, indent);
}

} // verus!
