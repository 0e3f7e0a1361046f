//! The per-line transformation: numbering, squeezing, and the rendering of
//! each byte.
use vstd::prelude::*;
use crate::number::{number_field, write_line_number, TAB};
use crate::options::Options;

verus! {

/// ASCII line feed, the byte that ends a line.
pub const NEWLINE: u8 = 10;

/// ASCII caret, which introduces a visible control byte.
pub const CARET: u8 = 94;

/// ASCII dollar sign, the line-end marker.
pub const DOLLAR: u8 = 36;

/// ASCII `I`, which follows the caret for a tab.
pub const LETTER_I: u8 = 73;

/// ASCII delete.
pub const DELETE: u8 = 127;

/// ASCII question mark, which follows the caret for delete.
pub const QUESTION_MARK: u8 = 63;

/// The counters carried from one line to the next, across inputs too.
#[derive(Clone, Copy, Debug, PartialEq, Eq, Structural)]
pub struct RunningState {
    /// The number the next numbered line gets.
    pub line_number: u64,
    /// Whether the last line kept under squeezing was blank.
    pub previous_chunk_was_blank: bool,
}

impl RunningState {
    /// The state before the first line: numbering starts at one.
    pub fn new() -> (r: RunningState)
        ensures
            r.line_number == 1,
            !r.previous_chunk_was_blank,
    {
        RunningState { line_number: 1, previous_chunk_was_blank: false }
    }
}

/// A chunk that is exactly one newline.
pub open spec fn is_blank(c: Seq<u8>) -> bool {
    c == seq![NEWLINE]
}

/// A chunk with some byte other than a lone newline.
pub open spec fn is_nonblank(c: Seq<u8>) -> bool {
    c.len() > 1 || (c.len() == 1 && c[0] != NEWLINE)
}

/// A chunk whose last byte is a newline.
pub open spec fn ends_with_newline(c: Seq<u8>) -> bool {
    c.len() > 0 && c.last() == NEWLINE
}

/// A byte shown in caret notation under `show_nonprinting`: a control byte
/// other than newline and tab, or delete.
pub open spec fn is_control(b: u8) -> bool {
    b != NEWLINE && b != TAB && (b < 32 || b == DELETE)
}

/// The byte written after the caret for the control byte `b`: `b + 64`
/// below 32 (`^@`, `^A`, ...), and `?` for delete.
pub open spec fn caret_letter(b: u8) -> u8 {
    if b == DELETE {
        QUESTION_MARK
    } else {
        (b + 64) as u8
    }
}

/// The bytes written for the input byte `b`.
pub open spec fn render_byte(o: Options, b: u8) -> Seq<u8> {
    if o.show_nonprinting && is_control(b) {
        seq![CARET, caret_letter(b)]
    } else if o.show_tabs && b == TAB {
        seq![CARET, LETTER_I]
    } else {
        seq![b]
    }
}

/// The bytes written for the input bytes `s`, one byte after another.
pub open spec fn render_bytes(o: Options, s: Seq<u8>) -> Seq<u8>
    decreases s.len(),
{
    if s.len() == 0 {
        seq![]
    } else {
        render_bytes(o, s.drop_last()) + render_byte(o, s.last())
    }
}

/// The rendered bytes of a chunk: its bytes rendered one by one, where the
/// ending newline becomes `$` and newline under `show_line_endings`.
pub open spec fn chunk_body(o: Options, c: Seq<u8>) -> Seq<u8> {
    if ends_with_newline(c) {
        render_bytes(o, c.drop_last()) + if o.show_line_endings {
            seq![DOLLAR, NEWLINE]
        } else {
            seq![NEWLINE]
        }
    } else {
        render_bytes(o, c)
    }
}

/// Whether the chunk `c` is written at all: it is not empty, and is not a
/// blank line that follows a blank line under squeezing.
pub open spec fn is_kept(o: Options, st: RunningState, c: Seq<u8>) -> bool {
    c.len() > 0 && !(o.squeeze_blank_runs && is_blank(c) && st.previous_chunk_was_blank)
}

/// Whether the chunk `c` gets a line number when it is written.
pub open spec fn is_numbered(o: Options, c: Seq<u8>) -> bool {
    o.number_all_lines || (o.number_nonblank_lines && is_nonblank(c))
}

/// The bytes written for the chunk `c` in the state `st`.
pub open spec fn chunk_output(o: Options, st: RunningState, c: Seq<u8>) -> Seq<u8> {
    if !is_kept(o, st, c) {
        seq![]
    } else if is_numbered(o, c) {
        number_field(st.line_number as nat) + chunk_body(o, c)
    } else {
        chunk_body(o, c)
    }
}

/// The state after the chunk `c` in the state `st`. A final chunk without a
/// newline leaves the blank-run flag as it was.
pub open spec fn next_state(o: Options, st: RunningState, c: Seq<u8>) -> RunningState {
    if !is_kept(o, st, c) {
        st
    } else {
        RunningState {
            line_number: if is_numbered(o, c) {
                (st.line_number + 1) as u64
            } else {
                st.line_number
            },
            previous_chunk_was_blank: if o.squeeze_blank_runs && is_blank(c) {
                true
            } else if ends_with_newline(c) {
                false
            } else {
                st.previous_chunk_was_blank
            },
        }
    }
}

/// Appends to `out` the bytes written for the input byte `b`.
fn push_rendered(o: &Options, b: u8, out: &mut Vec<u8>)
    ensures
        final(out)@ == old(out)@ + render_byte(*o, b),
{
    if o.show_nonprinting && b != NEWLINE && b != TAB && (b < 32 || b == DELETE) {
        out.push(CARET);
        if b == DELETE {
            out.push(QUESTION_MARK);
        } else {
            out.push(b + 64);
        }
    } else if o.show_tabs && b == TAB {
        out.push(CARET);
        out.push(LETTER_I);
    } else {
        out.push(b);
    }
    assert(out@ =~= old(out)@ + render_byte(*o, b));
}

/// Appends to `out` the bytes written for the first `end` bytes of `line`.
fn push_rendered_bytes(o: &Options, line: &[u8], end: usize, out: &mut Vec<u8>)
    requires
        end <= line@.len(),
    ensures
        final(out)@ == old(out)@ + render_bytes(*o, line@.take(end as int)),
{
    let mut i: usize = 0;
    while i < end
        invariant
            0 <= i <= end <= line@.len(),
            out@ == old(out)@ + render_bytes(*o, line@.take(i as int)),
        decreases end - i,
    {
        push_rendered(o, line[i], out);
        assert(line@.take(i + 1).drop_last() =~= line@.take(i as int));
        assert(line@.take(i + 1).last() == line@[i as int]);
        i = i + 1;
    }
}

/// Transforms one chunk of input (one line, with its newline where it has
/// one) and appends the result to `out`, updating the running state.
pub fn process_line(line: &[u8], opts: &Options, state: &mut RunningState, out: &mut Vec<u8>)
    requires
        old(state).line_number < u64::MAX,
    ensures
        final(out)@ == old(out)@ + chunk_output(*opts, *old(state), line@),
        *final(state) == next_state(*opts, *old(state), line@),
{
    let n: usize = line.len();
    if n == 0 {
        return;
    }
    let blank = n == 1 && line[0] == NEWLINE;
    let ends_nl = line[n - 1] == NEWLINE;
    proof {
        assert(blank == is_blank(line@)) by {
            if n == 1 && line@[0] == NEWLINE {
                assert(line@ =~= seq![NEWLINE]);
            }
        }
    }
    if opts.squeeze_blank_runs && blank {
        if state.previous_chunk_was_blank {
            return;
        }
        state.previous_chunk_was_blank = true;
    } else if ends_nl {
        state.previous_chunk_was_blank = false;
    }
    assert(is_kept(*opts, *old(state), line@));
    let nonblank = n > 1 || line[0] != NEWLINE;
    let ghost field: Seq<u8> = if is_numbered(*opts, line@) {
        number_field(old(state).line_number as nat)
    } else {
        seq![]
    };
    if (opts.number_nonblank_lines && nonblank) || opts.number_all_lines {
        write_line_number(out, state.line_number);
        state.line_number = state.line_number + 1;
    } else {
        assert(out@ =~= old(out)@ + field);
    }
    assert(*state == next_state(*opts, *old(state), line@));
    let ghost prefix = out@;
    let body_len: usize = if ends_nl { n - 1 } else { n };
    push_rendered_bytes(opts, line, body_len, out);
    if ends_nl {
        assert(line@.take(body_len as int) =~= line@.drop_last());
        if opts.show_line_endings {
            out.push(DOLLAR);
        }
        out.push(NEWLINE);
    } else {
        assert(line@.take(body_len as int) =~= line@);
    }
    assert(out@ == prefix + chunk_body(*opts, line@));
    assert(chunk_output(*opts, *old(state), line@) == field + chunk_body(*opts, line@));
    assert(out@ =~= old(out)@ + chunk_output(*opts, *old(state), line@));
}

} // verus!
