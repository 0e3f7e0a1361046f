//! Splitting input streams into lines and rendering them in order, block by
//! block, with a partial line carried over from one block to the next.
use vstd::prelude::*;
use crate::options::Options;
use crate::transform::{chunk_output, next_state, process_line, RunningState, NEWLINE};

verus! {

/// The complete lines of `input`, each with its newline, and the bytes after
/// the last newline.
pub open spec fn split_lines(input: Seq<u8>) -> (Seq<Seq<u8>>, Seq<u8>)
    decreases input.len(),
{
    if input.len() == 0 {
        (seq![], seq![])
    } else {
        let (cs, p) = split_lines(input.drop_last());
        if input.last() == NEWLINE {
            (cs.push(p.push(NEWLINE)), seq![])
        } else {
            (cs, p.push(input.last()))
        }
    }
}

/// The chunks of one input: its complete lines, then the bytes after the
/// last newline as a final unterminated line where there are any.
pub open spec fn chunks(input: Seq<u8>) -> Seq<Seq<u8>> {
    let (cs, p) = split_lines(input);
    if p.len() == 0 {
        cs
    } else {
        cs.push(p)
    }
}

/// The bytes written for the chunks `cs`, one after another from the state
/// `st`, and the state after the last.
pub open spec fn render_chunks(o: Options, st: RunningState, cs: Seq<Seq<u8>>) -> (Seq<u8>, RunningState)
    decreases cs.len(),
{
    if cs.len() == 0 {
        (seq![], st)
    } else {
        let (out, s) = render_chunks(o, st, cs.drop_last());
        (out + chunk_output(o, s, cs.last()), next_state(o, s, cs.last()))
    }
}

/// The bytes written for a whole input from the state `st`, and the state
/// after it.
pub open spec fn render_source(o: Options, st: RunningState, input: Seq<u8>) -> (Seq<u8>, RunningState) {
    render_chunks(o, st, chunks(input))
}

/// What feeding `block` does where `pending` was held back: the bytes
/// written for the lines it completes, the state after them, and the bytes
/// held back after it.
pub open spec fn feed_result(o: Options, st: RunningState, pending: Seq<u8>, block: Seq<u8>) -> (Seq<u8>, RunningState, Seq<u8>) {
    let (cs, p) = split_lines(pending + block);
    let (out, s) = render_chunks(o, st, cs);
    (out, s, p)
}

/// Whether `s` holds no newline.
pub open spec fn is_partial_line(s: Seq<u8>) -> bool {
    forall|i: int| 0 <= i < s.len() ==> s[i] != NEWLINE
}

/// Bytes without a newline form no complete line.
pub proof fn lemma_split_partial(p: Seq<u8>)
    requires
        is_partial_line(p),
    ensures
        split_lines(p) == (Seq::<Seq<u8>>::empty(), p),
    decreases p.len(),
{
    if p.len() > 0 {
        lemma_split_partial(p.drop_last());
        assert(p.drop_last().push(p.last()) =~= p);
    } else {
        assert(p =~= Seq::<u8>::empty());
    }
}

/// What is held back after any input holds no newline.
pub proof fn lemma_split_rest_partial(input: Seq<u8>)
    ensures
        is_partial_line(split_lines(input).1),
    decreases input.len(),
{
    if input.len() > 0 {
        lemma_split_rest_partial(input.drop_last());
    }
}

/// The state of a splitter, as its contracts see it.
pub struct SplitterView {
    pub options: Options,
    pub state: RunningState,
    pub pending: Seq<u8>,
}

/// Renders input streams line by line. Bytes after the last newline of a
/// block are held back until a later block completes their line, or until
/// the input ends.
pub struct LineSplitter {
    options: Options,
    state: RunningState,
    pending: Vec<u8>,
}

impl View for LineSplitter {
    type V = SplitterView;

    closed spec fn view(&self) -> SplitterView {
        SplitterView { options: self.options, state: self.state, pending: self.pending@ }
    }
}

impl LineSplitter {
    /// Whether the bytes held back form a partial line.
    pub open spec fn wf(&self) -> bool {
        is_partial_line(self@.pending)
    }

    /// A splitter with the options `options`, starting from the state `state`.
    pub fn new(options: Options, state: RunningState) -> (r: LineSplitter)
        ensures
            r.wf(),
            r@.options == options,
            r@.state == state,
            r@.pending.len() == 0,
    {
        LineSplitter { options, state, pending: Vec::new() }
    }

    /// The options that the splitter renders with.
    pub fn options(&self) -> (r: Options)
        ensures
            r == self@.options,
    {
        self.options
    }

    /// The running state after the lines rendered so far.
    pub fn state(&self) -> (r: RunningState)
        ensures
            r == self@.state,
    {
        self.state
    }

    /// Renders into `out` each line that `block` completes, and holds back
    /// the bytes after its last newline.
    pub fn feed(&mut self, block: &[u8], out: &mut Vec<u8>)
        requires
            old(self).wf(),
            old(self)@.state.line_number + block@.len() < u64::MAX,
        ensures
            final(self).wf(),
            final(self)@.options == old(self)@.options,
            ({
                let (o, s, p) = feed_result(
                    old(self)@.options,
                    old(self)@.state,
                    old(self)@.pending,
                    block@,
                );
                &&& final(out)@ == old(out)@ + o
                &&& final(self)@.state == s
                &&& final(self)@.pending == p
            }),
    {
        let ghost o = self.options;
        let ghost st0 = self.state;
        let ghost p0 = self.pending@;
        let ghost out0 = out@;
        assert(p0 + block@.take(0) =~= p0);
        proof {
            lemma_split_partial(p0);
        }
        let mut i: usize = 0;
        while i < block.len()
            invariant
                0 <= i <= block@.len(),
                self.options == o,
                st0.line_number + block@.len() < u64::MAX,
                self.state.line_number <= st0.line_number + i,
                ({
                    let (cs, p) = split_lines(p0 + block@.take(i as int));
                    let (w, s) = render_chunks(o, st0, cs);
                    &&& out@ == out0 + w
                    &&& self.state == s
                    &&& self.pending@ == p
                }),
            decreases block@.len() - i,
        {
            let b = block[i];
            let ghost whole = p0 + block@.take(i + 1);
            assert(whole.drop_last() =~= p0 + block@.take(i as int));
            assert(whole.last() == b);
            let ghost cs = split_lines(p0 + block@.take(i as int)).0;
            self.pending.push(b);
            if b == NEWLINE {
                process_line(self.pending.as_slice(), &self.options, &mut self.state, out);
                assert(cs.push(self.pending@).drop_last() =~= cs);
                self.pending.clear();
            }
            i = i + 1;
        }
        assert(p0 + block@.take(i as int) =~= p0 + block@);
        proof {
            lemma_split_rest_partial(p0 + block@);
        }
    }

    /// Renders into `out` the bytes held back, as the final line of an input
    /// that does not end in a newline. The running state carries on to the
    /// next input.
    pub fn finish(&mut self, out: &mut Vec<u8>)
        requires
            old(self).wf(),
            old(self)@.state.line_number < u64::MAX,
        ensures
            final(self).wf(),
            final(self)@.options == old(self)@.options,
            final(self)@.pending.len() == 0,
            final(out)@ == old(out)@ + chunk_output(
                old(self)@.options,
                old(self)@.state,
                old(self)@.pending,
            ),
            final(self)@.state == next_state(old(self)@.options, old(self)@.state, old(self)@.pending),
    {
        process_line(self.pending.as_slice(), &self.options, &mut self.state, out);
        self.pending.clear();
    }
}

} // verus!
