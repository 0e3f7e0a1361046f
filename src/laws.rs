//! Properties of the rendering that hold for all inputs.
use vstd::prelude::*;
use crate::number::number_field;
use crate::options::{no_options, Options};
use crate::splitter::{
    chunks, feed_result, is_partial_line, lemma_split_partial, lemma_split_rest_partial,
    render_chunks, render_source, split_lines,
};
use crate::transform::{
    chunk_body, chunk_output, ends_with_newline, is_blank, is_kept, is_nonblank, next_state,
    render_byte, render_bytes, RunningState, CARET, DELETE, DOLLAR, LETTER_I, NEWLINE,
    QUESTION_MARK,
};
use crate::number::TAB;

verus! {

/// The number of nonblank chunks in `cs`.
pub open spec fn count_nonblank(cs: Seq<Seq<u8>>) -> nat
    decreases cs.len(),
{
    if cs.len() == 0 {
        0
    } else {
        count_nonblank(cs.drop_last()) + if is_nonblank(cs.last()) {
            1nat
        } else {
            0nat
        }
    }
}

/// `n` blank lines in a row.
pub open spec fn blank_run(n: nat) -> Seq<Seq<u8>> {
    Seq::new(n, |i: int| seq![NEWLINE])
}

/// The state reached after the first `i` chunks of `cs`.
pub open spec fn state_before(o: Options, st: RunningState, cs: Seq<Seq<u8>>, i: int) -> RunningState {
    render_chunks(o, st, cs.take(i)).1
}

/// Splitting `x + y` splits `x`, then splits what `x` held back followed by `y`.
pub proof fn lemma_split_append(x: Seq<u8>, y: Seq<u8>)
    ensures
        ({
            let (cx, px) = split_lines(x);
            let (cy, py) = split_lines(px + y);
            split_lines(x + y) == (cx + cy, py)
        }),
    decreases y.len(),
{
    let (cx, px) = split_lines(x);
    if y.len() == 0 {
        assert(x + y =~= x);
        assert(px + y =~= px);
        lemma_split_rest_partial(x);
        lemma_split_partial(px);
        assert(cx + Seq::<Seq<u8>>::empty() =~= cx);
    } else {
        lemma_split_append(x, y.drop_last());
        assert((x + y).drop_last() =~= x + y.drop_last());
        assert((px + y).drop_last() =~= px + y.drop_last());
        assert((x + y).last() == y.last());
        assert((px + y).last() == y.last());
        let (cy, py) = split_lines(px + y.drop_last());
        assert((cx + cy).push(py.push(NEWLINE)) =~= cx + cy.push(py.push(NEWLINE)));
    }
}

/// Rendering the chunks `a + b` renders `a`, then renders `b` from the state
/// that `a` left. So the running state carries on from one input to the next.
pub proof fn lemma_render_chunks_append(o: Options, st: RunningState, a: Seq<Seq<u8>>, b: Seq<Seq<u8>>)
    ensures
        ({
            let (wa, sa) = render_chunks(o, st, a);
            let (wb, sb) = render_chunks(o, sa, b);
            render_chunks(o, st, a + b) == (wa + wb, sb)
        }),
    decreases b.len(),
{
    let (wa, sa) = render_chunks(o, st, a);
    if b.len() == 0 {
        assert(a + b =~= a);
        assert(wa + Seq::<u8>::empty() =~= wa);
    } else {
        lemma_render_chunks_append(o, st, a, b.drop_last());
        assert((a + b).drop_last() =~= a + b.drop_last());
        assert((a + b).last() == b.last());
        let (wb, sb) = render_chunks(o, sa, b.drop_last());
        assert(wa + wb + chunk_output(o, sb, b.last()) =~= wa + (wb + chunk_output(o, sb, b.last())));
    }
}

/// Two inputs rendered one after the other give what their chunks give when
/// rendered as one sequence: numbering and blank-run tracking carry on across
/// the boundary.
pub proof fn lemma_sources_in_sequence(o: Options, st: RunningState, a: Seq<u8>, b: Seq<u8>)
    ensures
        ({
            let (wa, sa) = render_source(o, st, a);
            let (wb, sb) = render_source(o, sa, b);
            render_chunks(o, st, chunks(a) + chunks(b)) == (wa + wb, sb)
        }),
{
    lemma_render_chunks_append(o, st, chunks(a), chunks(b));
}

/// Feeding a block in two parts does what feeding it whole does: a line that
/// spans blocks is put back together.
pub proof fn lemma_blocks_join(o: Options, st: RunningState, p: Seq<u8>, a: Seq<u8>, b: Seq<u8>)
    requires
        is_partial_line(p),
    ensures
        ({
            let (w1, s1, p1) = feed_result(o, st, p, a);
            let (w2, s2, p2) = feed_result(o, s1, p1, b);
            feed_result(o, st, p, a + b) == (w1 + w2, s2, p2)
        }),
{
    let (ca, pa) = split_lines(p + a);
    assert(p + (a + b) =~= (p + a) + b);
    lemma_split_append(p + a, b);
    let (cb, pb) = split_lines(pa + b);
    lemma_render_chunks_append(o, st, ca, cb);
}

/// Feeding a whole input to an empty splitter and then finishing renders the
/// input.
pub proof fn lemma_feed_then_finish(o: Options, st: RunningState, input: Seq<u8>)
    ensures
        ({
            let (w, s, p) = feed_result(o, st, seq![], input);
            render_source(o, st, input) == (w + chunk_output(o, s, p), next_state(o, s, p))
        }),
{
    let (cs, p) = split_lines(input);
    assert(Seq::<u8>::empty() + input =~= input);
    let (w, s) = render_chunks(o, st, cs);
    if p.len() == 0 {
        assert(w + chunk_output(o, s, p) =~= w);
    } else {
        assert(cs.push(p).drop_last() =~= cs);
    }
}

/// Every chunk of an input holds at least one byte, and there are no more
/// chunks than bytes.
pub proof fn lemma_chunks_nonempty(input: Seq<u8>)
    ensures
        chunks(input).len() <= input.len(),
        forall|i: int| 0 <= i < chunks(input).len() ==> (#[trigger] chunks(input)[i]).len() > 0,
{
    lemma_split_counts(input);
}

proof fn lemma_split_counts(input: Seq<u8>)
    ensures
        split_lines(input).0.len() + split_lines(input).1.len() <= input.len(),
        split_lines(input).1.len() > 0 ==> split_lines(input).0.len() < input.len(),
        forall|i: int|
            0 <= i < split_lines(input).0.len() ==> (#[trigger] split_lines(input).0[i]).len() > 0,
    decreases input.len(),
{
    if input.len() > 0 {
        lemma_split_counts(input.drop_last());
    }
}

/// With every switch off, each byte is written unchanged.
pub proof fn lemma_plain_bytes(s: Seq<u8>)
    ensures
        render_bytes(no_options(), s) == s,
    decreases s.len(),
{
    if s.len() > 0 {
        lemma_plain_bytes(s.drop_last());
        assert(s.drop_last().push(s.last()) =~= s);
    }
}

/// With every switch off, each chunk is written unchanged.
proof fn lemma_plain_chunk(st: RunningState, c: Seq<u8>)
    ensures
        chunk_output(no_options(), st, c) == c,
{
    if c.len() == 0 {
        assert(c =~= Seq::<u8>::empty());
    } else if ends_with_newline(c) {
        lemma_plain_bytes(c.drop_last());
        assert(c.drop_last().push(NEWLINE) =~= c);
    } else {
        lemma_plain_bytes(c);
    }
}

proof fn lemma_plain_split(st: RunningState, x: Seq<u8>)
    ensures
        render_chunks(no_options(), st, split_lines(x).0).0 + split_lines(x).1 == x,
    decreases x.len(),
{
    let o = no_options();
    if x.len() == 0 {
        assert(Seq::<u8>::empty() + Seq::<u8>::empty() =~= x);
    } else {
        lemma_plain_split(st, x.drop_last());
        let (cs, p) = split_lines(x.drop_last());
        let (w, s) = render_chunks(o, st, cs);
        assert(x.drop_last().push(x.last()) =~= x);
        if x.last() == NEWLINE {
            lemma_plain_chunk(s, p.push(NEWLINE));
            assert(cs.push(p.push(NEWLINE)).drop_last() =~= cs);
            assert(w + p.push(NEWLINE) + Seq::<u8>::empty() =~= (w + p).push(NEWLINE));
        } else {
            assert(w + p.push(x.last()) =~= (w + p).push(x.last()));
        }
    }
}

/// With every switch off, the output of an input is the input itself.
pub proof fn lemma_plain_identity(st: RunningState, input: Seq<u8>)
    ensures
        render_source(no_options(), st, input).0 == input,
{
    let o = no_options();
    lemma_plain_split(st, input);
    let (cs, p) = split_lines(input);
    let (w, s) = render_chunks(o, st, cs);
    if p.len() == 0 {
        assert(w + p =~= w);
    } else {
        assert(cs.push(p).drop_last() =~= cs);
        lemma_plain_chunk(s, p);
    }
}

/// Numbering every line, without squeezing, gives the lines the numbers
/// that follow the starting one, one each and in order, whatever the lines
/// hold.
pub proof fn lemma_number_all_lines(o: Options, st: RunningState, cs: Seq<Seq<u8>>)
    requires
        o.number_all_lines,
        !o.squeeze_blank_runs,
        forall|i: int| 0 <= i < cs.len() ==> (#[trigger] cs[i]).len() > 0,
        st.line_number + cs.len() < u64::MAX,
    ensures
        render_chunks(o, st, cs).1.line_number == st.line_number + cs.len(),
        forall|i: int|
            0 <= i < cs.len() ==> (#[trigger] state_before(o, st, cs, i)).line_number
                == st.line_number + i && chunk_output(o, state_before(o, st, cs, i), cs[i])
                == number_field((st.line_number + i) as nat) + chunk_body(o, cs[i]),
    decreases cs.len(),
{
    if cs.len() > 0 {
        let front = cs.drop_last();
        lemma_number_all_lines(o, st, front);
        assert forall|i: int| 0 <= i < cs.len() implies (#[trigger] state_before(
            o,
            st,
            cs,
            i,
        )).line_number == st.line_number + i && chunk_output(o, state_before(o, st, cs, i), cs[i])
            == number_field((st.line_number + i) as nat) + chunk_body(o, cs[i]) by {
            if i < front.len() {
                assert(cs.take(i) =~= front.take(i));
                assert(cs[i] == front[i]);
                assert(state_before(o, st, front, i).line_number == st.line_number + i);
            } else {
                assert(cs.take(i) =~= front);
                assert(front.take(front.len() as int) =~= front);
            }
        }
    }
}

/// Numbering every line, without squeezing, across two inputs: the lines of
/// the second take the numbers that follow the last line of the first.
pub proof fn lemma_numbering_across_sources(o: Options, st: RunningState, a: Seq<u8>, b: Seq<u8>)
    requires
        o.number_all_lines,
        !o.squeeze_blank_runs,
        st.line_number + a.len() + b.len() < u64::MAX,
    ensures
        render_source(o, st, a).1.line_number == st.line_number + chunks(a).len(),
        forall|i: int|
            0 <= i < chunks(b).len() ==> (#[trigger] state_before(
                o,
                render_source(o, st, a).1,
                chunks(b),
                i,
            )).line_number == st.line_number + chunks(a).len() + i,
        render_source(o, render_source(o, st, a).1, b).1.line_number == st.line_number + chunks(
            a,
        ).len() + chunks(b).len(),
{
    lemma_chunks_nonempty(a);
    lemma_chunks_nonempty(b);
    lemma_number_all_lines(o, st, chunks(a));
    lemma_number_all_lines(o, render_source(o, st, a).1, chunks(b));
}

/// Numbering nonblank lines only: a blank line gets no number, any other
/// line gets the count of nonblank lines before it added to the starting
/// number.
pub proof fn lemma_number_nonblank_lines(o: Options, st: RunningState, cs: Seq<Seq<u8>>)
    requires
        o.number_nonblank_lines,
        !o.number_all_lines,
        st.line_number + cs.len() < u64::MAX,
    ensures
        render_chunks(o, st, cs).1.line_number == st.line_number + count_nonblank(cs),
        forall|i: int|
            0 <= i < cs.len() ==> (#[trigger] state_before(o, st, cs, i)).line_number
                == st.line_number + count_nonblank(cs.take(i)),
        forall|i: int|
            0 <= i < cs.len() && is_nonblank(cs[i]) ==> chunk_output(
                o,
                #[trigger] state_before(o, st, cs, i),
                cs[i],
            ) == number_field(state_before(o, st, cs, i).line_number as nat) + chunk_body(o, cs[i]),
        forall|i: int|
            0 <= i < cs.len() && !is_nonblank(cs[i]) ==> chunk_output(
                o,
                #[trigger] state_before(o, st, cs, i),
                cs[i],
            ) == if is_kept(o, state_before(o, st, cs, i), cs[i]) {
                chunk_body(o, cs[i])
            } else {
                Seq::<u8>::empty()
            },
    decreases cs.len(),
{
    lemma_count_nonblank_bound(cs);
    if cs.len() > 0 {
        let front = cs.drop_last();
        lemma_number_nonblank_lines(o, st, front);
        assert forall|i: int| 0 <= i < cs.len() implies (#[trigger] state_before(
            o,
            st,
            cs,
            i,
        )).line_number == st.line_number + count_nonblank(cs.take(i)) by {
            if i < front.len() {
                assert(cs.take(i) =~= front.take(i));
                assert(state_before(o, st, front, i).line_number == st.line_number
                    + count_nonblank(front.take(i)));
            } else {
                assert(cs.take(i) =~= front);
                assert(front.take(front.len() as int) =~= front);
            }
        }
        assert forall|i: int| 0 <= i < cs.len() && is_nonblank(cs[i]) implies chunk_output(
            o,
            #[trigger] state_before(o, st, cs, i),
            cs[i],
        ) == number_field(state_before(o, st, cs, i).line_number as nat) + chunk_body(o, cs[i]) by {
            assert(cs[i].len() > 0);
        }
    }
}

proof fn lemma_count_nonblank_bound(cs: Seq<Seq<u8>>)
    ensures
        count_nonblank(cs) <= cs.len(),
    decreases cs.len(),
{
    if cs.len() > 0 {
        lemma_count_nonblank_bound(cs.drop_last());
    }
}

/// Under squeezing, a run of blank lines of any length is written as a
/// single blank line is.
pub proof fn lemma_squeeze_blank_run(o: Options, st: RunningState, n: nat)
    requires
        o.squeeze_blank_runs,
        n >= 1,
        st.line_number < u64::MAX,
    ensures
        render_chunks(o, st, blank_run(n)) == render_chunks(o, st, blank_run(1)),
        render_chunks(o, st, blank_run(n)).1.previous_chunk_was_blank,
    decreases n,
{
    let one = blank_run(1);
    assert(one.drop_last() =~= Seq::<Seq<u8>>::empty());
    assert(is_blank(one.last()));
    if n > 1 {
        lemma_squeeze_blank_run(o, st, (n - 1) as nat);
        assert(blank_run(n).drop_last() =~= blank_run((n - 1) as nat));
        let (w, s) = render_chunks(o, st, blank_run((n - 1) as nat));
        assert(is_blank(blank_run(n).last()));
        assert(!is_kept(o, s, blank_run(n).last()));
        assert(w + Seq::<u8>::empty() =~= w);
    }
}

/// With tabs shown and control bytes not, a tab is written as `^I` and
/// every other byte unchanged.
pub proof fn lemma_tabs_shown(o: Options, b: u8)
    requires
        o.show_tabs,
        !o.show_nonprinting,
    ensures
        render_byte(o, b) == if b == TAB {
            seq![CARET, LETTER_I]
        } else {
            seq![b]
        },
{
}

/// With control bytes shown, a byte below 32 other than the newline is
/// written as a caret and the byte plus 64, and delete as `^?`. A tab is
/// written so only when tabs are shown too: otherwise it stays a tab.
pub proof fn lemma_caret_notation(o: Options, b: u8)
    requires
        o.show_nonprinting,
        b < 32 || b == DELETE,
        b != NEWLINE,
    ensures
        b < 32 && (b != TAB || o.show_tabs) ==> render_byte(o, b) == seq![CARET, (b + 64) as u8],
        b == DELETE ==> render_byte(o, b) == seq![CARET, QUESTION_MARK],
        b == TAB && !o.show_tabs ==> render_byte(o, b) == seq![TAB],
{
}

/// With line endings shown, a line that ends in a newline is written with
/// `$` before its newline; a final line without a newline gains no marker.
pub proof fn lemma_line_end_marker(o: Options, c: Seq<u8>)
    requires
        o.show_line_endings,
    ensures
        ends_with_newline(c) ==> chunk_body(o, c) == render_bytes(o, c.drop_last()) + seq![
            DOLLAR,
            NEWLINE,
        ],
        !ends_with_newline(c) ==> chunk_body(o, c) == render_bytes(o, c),
{
}

} // verus!
