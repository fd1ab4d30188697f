//! Laws relating the two transforms.
//!
//! These proof functions state the guarantees that hold of the transforms
//! as byte-sequence functions: minimizing is idempotent, minimizing a
//! pretty-printed stream gives the minimized original, insignificant
//! whitespace in the input never shows in the minimized output, and string
//! content passes through both transforms untouched.

use vstd::prelude::*;

use crate::scan::{all_ws, is_ws, is_open, is_close, repeat_seq, clamp0, LF, COMMA, COLON};
use crate::minimize::{
    MinState, min_init, min_step, min_step_out, min_state_seq, min_emit_seq, min_out,
    lemma_min_state_concat, lemma_min_emit_concat, lemma_min_single,
};
use crate::pretty::{
    PpState, pp_init, pp_step, pp_step_out, pp_state_seq, pp_emit_seq, pp_out,
};

verus! {

/// Whitespace outside a string is invisible to the minimize machine: it
/// changes no state and emits nothing.
proof fn lemma_min_ws_seq(st: MinState, w: Seq<u8>)
    requires
        !st.in_string,
        all_ws(w),
    ensures
        min_state_seq(st, w) == st,
        min_emit_seq(st, w) == Seq::<u8>::empty(),
    decreases w.len(),
{
    if w.len() > 0 {
        lemma_min_ws_seq(st, w.drop_last());
        assert(min_emit_seq(st, w) =~= Seq::<u8>::empty());
    }
}

/// Re-scanning what the minimize machine emitted for one byte, starting
/// from the state it emitted it in, takes the same step and emits the same
/// bytes again.
proof fn lemma_min_chunk_rescan(st: MinState, b: u8)
    ensures
        min_state_seq(st, min_step_out(st, b)) == min_step(st, b),
        min_emit_seq(st, min_step_out(st, b)) == min_step_out(st, b),
{
    let chunk = min_step_out(st, b);
    if st.in_string {
        lemma_min_single(st, b);
    } else if is_ws(b) {
    } else if is_open(b) && st.depth == 0 && st.print_newline {
        assert(chunk =~= seq![LF] + seq![b]);
        lemma_min_ws_seq(st, seq![LF]);
        lemma_min_state_concat(st, seq![LF], seq![b]);
        lemma_min_emit_concat(st, seq![LF], seq![b]);
        lemma_min_single(st, b);
        assert(min_emit_seq(st, chunk) =~= min_step_out(st, b));
    } else {
        lemma_min_single(st, b);
    }
}

/// Re-scanning everything the minimize machine emitted, starting from the
/// state it started in, tracks the original scan's state and emits the
/// same bytes again.
proof fn lemma_min_rescan(st: MinState, s: Seq<u8>)
    ensures
        min_state_seq(st, min_emit_seq(st, s)) == min_state_seq(st, s),
        min_emit_seq(st, min_emit_seq(st, s)) == min_emit_seq(st, s),
    decreases s.len(),
{
    if s.len() > 0 {
        let s0 = s.drop_last();
        let b = s.last();
        let o0 = min_emit_seq(st, s0);
        let st1 = min_state_seq(st, s0);
        let chunk = min_step_out(st1, b);
        lemma_min_rescan(st, s0);
        lemma_min_state_concat(st, o0, chunk);
        lemma_min_emit_concat(st, o0, chunk);
        lemma_min_chunk_rescan(st1, b);
        assert(min_emit_seq(st, min_emit_seq(st, s)) =~= min_emit_seq(st, s));
    }
}

/// Minimizing is idempotent: minimizing an already minimized stream
/// changes nothing.
pub proof fn lemma_minimize_idempotent(s: Seq<u8>)
    ensures
        min_out(min_out(s)) == min_out(s),
{
    lemma_min_rescan(min_init(), s);
}

/// Inserting a run of insignificant whitespace at any position outside a
/// string literal does not change the minimized output.
pub proof fn lemma_minimize_ws_insensitive(s: Seq<u8>, i: int, w: Seq<u8>)
    requires
        0 <= i <= s.len(),
        all_ws(w),
        !min_state_seq(min_init(), s.take(i)).in_string,
    ensures
        min_out(s.take(i) + w + s.skip(i)) == min_out(s),
{
    let pre = s.take(i);
    let post = s.skip(i);
    let st = min_state_seq(min_init(), pre);
    assert(pre + post =~= s);
    lemma_min_ws_seq(st, w);
    lemma_min_state_concat(min_init(), pre, w);
    lemma_min_emit_concat(min_init(), pre, w);
    lemma_min_state_concat(min_init(), pre + w, post);
    lemma_min_emit_concat(min_init(), pre + w, post);
    lemma_min_state_concat(min_init(), pre, post);
    lemma_min_emit_concat(min_init(), pre, post);
    assert(min_out(pre + w + post) =~= min_out(s));
}

/// A byte inside a string literal is copied to the minimized output
/// unchanged, and leaves the structural state (depth, pending top-level
/// separator) untouched.
pub proof fn lemma_minimize_string_byte(s: Seq<u8>, i: int)
    requires
        0 <= i < s.len(),
        min_state_seq(min_init(), s.take(i)).in_string,
    ensures
        min_step_out(min_state_seq(min_init(), s.take(i)), s[i]) == seq![s[i]],
        min_state_seq(min_init(), s.take(i + 1)).depth == min_state_seq(
            min_init(),
            s.take(i),
        ).depth,
        min_state_seq(min_init(), s.take(i + 1)).print_newline == min_state_seq(
            min_init(),
            s.take(i),
        ).print_newline,
{
    assert(s.take(i + 1).drop_last() =~= s.take(i));
}

/// A byte inside a string literal is copied to the pretty-printed output
/// unchanged, and leaves the structural state (depth, empty-structure
/// marker, deferred indentation) untouched.
pub proof fn lemma_pretty_string_byte(s: Seq<u8>, i: int, indent: Seq<u8>)
    requires
        0 <= i < s.len(),
        pp_state_seq(pp_init(), s.take(i), indent).in_string,
    ensures
        pp_step_out(pp_state_seq(pp_init(), s.take(i), indent), s[i], indent) == seq![s[i]],
        pp_state_seq(pp_init(), s.take(i + 1), indent).depth == pp_state_seq(
            pp_init(),
            s.take(i),
            indent,
        ).depth,
        pp_state_seq(pp_init(), s.take(i + 1), indent).empty_structure == pp_state_seq(
            pp_init(),
            s.take(i),
            indent,
        ).empty_structure,
        pp_state_seq(pp_init(), s.take(i + 1), indent).ws_buffer == pp_state_seq(
            pp_init(),
            s.take(i),
            indent,
        ).ws_buffer,
{
    assert(s.take(i + 1).drop_last() =~= s.take(i));
}

/// While the minimize machine's scan stands outside a string, everything
/// emitted so far ends in something other than a newline: inserted
/// newlines are followed by the open bracket they precede in the same
/// step, and whitespace never reaches the output outside a string.
proof fn lemma_min_emit_no_lf(st: MinState, s: Seq<u8>)
    ensures
        !min_state_seq(st, s).in_string ==> min_emit_seq(st, s).len() == 0 || min_emit_seq(
            st,
            s,
        ).last() != LF,
    decreases s.len(),
{
    if s.len() > 0 {
        lemma_min_emit_no_lf(st, s.drop_last());
        let st1 = min_state_seq(st, s.drop_last());
        let b = s.last();
        let chunk = min_step_out(st1, b);
        if chunk.len() == 0 {
            assert(min_emit_seq(st, s) =~= min_emit_seq(st, s.drop_last()));
        } else {
            assert(min_emit_seq(st, s).last() == chunk.last());
        }
    }
}

/// A minimized stream never ends with a trailing newline, as long as the
/// input does not end in the middle of a string literal.
pub proof fn lemma_minimize_no_trailing_newline(s: Seq<u8>)
    requires
        !min_state_seq(min_init(), s).in_string,
    ensures
        min_out(s).len() == 0 || min_out(s).last() != LF,
{
    lemma_min_emit_no_lf(min_init(), s);
}

/// The correspondence kept between the two machines while they consume the
/// same input: string and escape tracking and depth agree, and any
/// deferred indentation of the pretty machine is pure whitespace.
spec fn pp_min_related(pst: PpState, mst: MinState) -> bool {
    &&& pst.in_string == mst.in_string
    &&& pst.in_backslash == mst.in_backslash
    &&& pst.depth == mst.depth
    &&& (pst.empty_structure ==> all_ws(pst.ws_buffer))
}

/// Scanning what the pretty machine emitted for one byte with the
/// minimize machine takes the minimize machine's own step for that byte
/// and emits the minimize machine's own bytes for it.
proof fn lemma_pp_chunk_min(pst: PpState, mst: MinState, b: u8, ind: Seq<u8>)
    requires
        all_ws(ind),
        pp_min_related(pst, mst),
    ensures
        pp_min_related(pp_step(pst, b, ind), min_step(mst, b)),
        min_state_seq(mst, pp_step_out(pst, b, ind)) == min_step(mst, b),
        min_emit_seq(mst, pp_step_out(pst, b, ind)) == min_step_out(mst, b),
{
    let chunk = pp_step_out(pst, b, ind);
    if pst.in_string {
        lemma_min_single(mst, b);
    } else if is_ws(b) {
    } else if is_open(b) {
        crate::scan::lemma_repeat_all_ws(ind, clamp0(pst.depth + 1));
        lemma_min_single(mst, b);
    } else if is_close(b) {
        let reps = repeat_seq(ind, clamp0(pst.depth - 1));
        crate::scan::lemma_repeat_all_ws(ind, clamp0(pst.depth - 1));
        let lead = if pst.empty_structure {
            Seq::<u8>::empty()
        } else {
            seq![LF] + reps
        };
        let tail = if pst.depth - 1 == 0 {
            seq![LF]
        } else {
            Seq::<u8>::empty()
        };
        assert(chunk =~= lead + seq![b] + tail);
        lemma_min_ws_seq(mst, lead);
        lemma_min_state_concat(mst, lead, seq![b]);
        lemma_min_emit_concat(mst, lead, seq![b]);
        lemma_min_single(mst, b);
        let mst1 = min_step(mst, b);
        lemma_min_state_concat(mst, lead + seq![b], tail);
        lemma_min_emit_concat(mst, lead + seq![b], tail);
        lemma_min_ws_seq(mst1, tail);
        assert(min_emit_seq(mst, chunk) =~= min_step_out(mst, b));
    } else if b == COMMA {
        let reps = repeat_seq(ind, clamp0(pst.depth));
        crate::scan::lemma_repeat_all_ws(ind, clamp0(pst.depth));
        assert(chunk =~= seq![b] + (seq![LF] + reps));
        lemma_min_single(mst, b);
        let mst1 = min_step(mst, b);
        lemma_min_state_concat(mst, seq![b], seq![LF] + reps);
        lemma_min_emit_concat(mst, seq![b], seq![LF] + reps);
        lemma_min_ws_seq(mst1, seq![LF] + reps);
        assert(min_emit_seq(mst, chunk) =~= min_step_out(mst, b));
    } else if b == COLON {
        assert(chunk =~= seq![COLON] + seq![crate::scan::SPACE]);
        lemma_min_single(mst, b);
        let mst1 = min_step(mst, b);
        lemma_min_state_concat(mst, seq![COLON], seq![crate::scan::SPACE]);
        lemma_min_emit_concat(mst, seq![COLON], seq![crate::scan::SPACE]);
        lemma_min_ws_seq(mst1, seq![crate::scan::SPACE]);
        assert(min_emit_seq(mst, chunk) =~= min_step_out(mst, b));
    } else {
        let lead = if pst.empty_structure {
            pst.ws_buffer
        } else {
            Seq::<u8>::empty()
        };
        assert(chunk =~= lead + seq![b]);
        lemma_min_ws_seq(mst, lead);
        lemma_min_state_concat(mst, lead, seq![b]);
        lemma_min_emit_concat(mst, lead, seq![b]);
        lemma_min_single(mst, b);
        assert(min_emit_seq(mst, chunk) =~= min_step_out(mst, b));
    }
}

/// Scanning everything the pretty machine emitted with the minimize
/// machine tracks the minimize machine's scan of the original input and
/// emits exactly what that scan emits.
proof fn lemma_pp_then_min(pst: PpState, mst: MinState, s: Seq<u8>, ind: Seq<u8>)
    requires
        all_ws(ind),
        pp_min_related(pst, mst),
    ensures
        pp_min_related(pp_state_seq(pst, s, ind), min_state_seq(mst, s)),
        min_state_seq(mst, pp_emit_seq(pst, s, ind)) == min_state_seq(mst, s),
        min_emit_seq(mst, pp_emit_seq(pst, s, ind)) == min_emit_seq(mst, s),
    decreases s.len(),
{
    if s.len() > 0 {
        let s0 = s.drop_last();
        let b = s.last();
        let o0 = pp_emit_seq(pst, s0, ind);
        let pst1 = pp_state_seq(pst, s0, ind);
        let mst1 = min_state_seq(mst, s0);
        let chunk = pp_step_out(pst1, b, ind);
        lemma_pp_then_min(pst, mst, s0, ind);
        lemma_min_state_concat(mst, o0, chunk);
        lemma_min_emit_concat(mst, o0, chunk);
        lemma_pp_chunk_min(pst1, mst1, b, ind);
        assert(min_emit_seq(mst, pp_emit_seq(pst, s, ind)) =~= min_emit_seq(mst, s));
    }
}

/// Minimizing a pretty-printed stream gives the minimized original,
/// whatever the input, for any indent unit made of insignificant
/// whitespace.
pub proof fn lemma_pretty_then_minimize(s: Seq<u8>, indent: Seq<u8>)
    requires
        all_ws(indent),
    ensures
        min_out(pp_out(s, indent)) == min_out(s),
{
    lemma_pp_then_min(pp_init(), min_init(), s, indent);
}

} // verus!

