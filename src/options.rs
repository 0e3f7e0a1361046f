//! The option set and its resolution from command-line tokens.
use vstd::prelude::*;

verus! {

/// The six independent switches that select how lines are decorated.
#[derive(Clone, Copy, Debug, PartialEq, Eq, Structural)]
pub struct Options {
    /// Number every line.
    pub number_all_lines: bool,
    /// Number every line that is not blank.
    pub number_nonblank_lines: bool,
    /// Collapse each run of blank lines into one.
    pub squeeze_blank_runs: bool,
    /// Write `$` before each line-ending newline.
    pub show_line_endings: bool,
    /// Write each tab as `^I`.
    pub show_tabs: bool,
    /// Write control bytes other than newline and tab in caret notation.
    pub show_nonprinting: bool,
}

/// Where the bytes of one input come from.
#[derive(Debug)]
pub enum Source {
    /// The standard input stream.
    Stdin,
    /// A file named by its path.
    Path(String),
}

/// What a command line asks for: the options and the inputs, in order.
#[derive(Debug)]
pub struct Invocation {
    pub options: Options,
    pub sources: Vec<Source>,
}

/// The option set with every switch off.
pub open spec fn no_options() -> Options {
    Options {
        number_all_lines: false,
        number_nonblank_lines: false,
        squeeze_blank_runs: false,
        show_line_endings: false,
        show_tabs: false,
        show_nonprinting: false,
    }
}

/// Whether every switch of `o` is off.
pub open spec fn is_plain(o: Options) -> bool {
    o == no_options()
}

/// The options after the option letter `c` took effect, or `None` where `c`
/// is no option letter.
pub open spec fn letter_effect(o: Options, c: char) -> Option<Options> {
    if c == 'A' {
        Some(Options { show_line_endings: true, show_tabs: true, show_nonprinting: true, ..o })
    } else if c == 'b' {
        Some(Options { number_nonblank_lines: true, ..o })
    } else if c == 'e' {
        Some(Options { show_line_endings: true, show_nonprinting: true, ..o })
    } else if c == 'E' {
        Some(Options { show_line_endings: true, ..o })
    } else if c == 'n' {
        Some(Options { number_all_lines: true, ..o })
    } else if c == 's' {
        Some(Options { squeeze_blank_runs: true, ..o })
    } else if c == 't' {
        Some(Options { show_tabs: true, show_nonprinting: true, ..o })
    } else if c == 'T' {
        Some(Options { show_tabs: true, ..o })
    } else if c == 'v' {
        Some(Options { show_nonprinting: true, ..o })
    } else {
        None
    }
}

/// The letters `cs` applied in order to `o`: the resulting options, or the
/// first letter that is no option letter.
pub open spec fn apply_letters(o: Options, cs: Seq<char>) -> Result<Options, char>
    decreases cs.len(),
{
    if cs.len() == 0 {
        Ok(o)
    } else {
        match letter_effect(o, cs[0]) {
            Some(o2) => apply_letters(o2, cs.drop_first()),
            None => Err(cs[0]),
        }
    }
}

/// Whether the token `t` is a cluster of option letters: a `-` followed by at
/// least one character.
pub open spec fn is_option_token(t: Seq<char>) -> bool {
    t.len() > 1 && t[0] == '-'
}

/// The option tokens among `ts` applied in order to `o`: the resulting
/// options, or the first letter that is no option letter.
pub open spec fn apply_tokens(o: Options, ts: Seq<Seq<char>>) -> Result<Options, char>
    decreases ts.len(),
{
    if ts.len() == 0 {
        Ok(o)
    } else if is_option_token(ts[0]) {
        match apply_letters(o, ts[0].drop_first()) {
            Ok(o2) => apply_tokens(o2, ts.drop_first()),
            Err(c) => Err(c),
        }
    } else {
        apply_tokens(o, ts.drop_first())
    }
}

/// The tokens among `ts` that name inputs, in order.
pub open spec fn input_tokens(ts: Seq<Seq<char>>) -> Seq<Seq<char>>
    decreases ts.len(),
{
    if ts.len() == 0 {
        seq![]
    } else if is_option_token(ts.last()) {
        input_tokens(ts.drop_last())
    } else {
        input_tokens(ts.drop_last()).push(ts.last())
    }
}

/// Whether `s` is the source that the token `t` names: `-` names the standard
/// input, any other token the file at that path.
pub open spec fn names_source(s: Source, t: Seq<char>) -> bool {
    match s {
        Source::Stdin => t == seq!['-'],
        Source::Path(p) => p@ == t && t != seq!['-'],
    }
}

/// Whether `srcs` are the sources that the tokens `ts` name: one per input
/// token, in order, or the standard input alone where there is none.
pub open spec fn sources_named(srcs: Seq<Source>, ts: Seq<Seq<char>>) -> bool {
    let inputs = input_tokens(ts);
    if inputs.len() == 0 {
        srcs.len() == 1 && srcs[0] is Stdin
    } else {
        srcs.len() == inputs.len() && forall|i: int|
            0 <= i < inputs.len() ==> #[trigger] names_source(srcs[i], inputs[i])
    }
}

impl Options {
    /// The option set with every switch off.
    pub fn new() -> (r: Options)
        ensures
            r == no_options(),
    {
        Options {
            number_all_lines: false,
            number_nonblank_lines: false,
            squeeze_blank_runs: false,
            show_line_endings: false,
            show_tabs: false,
            show_nonprinting: false,
        }
    }

    /// Whether every switch is off, so that the input is copied unchanged.
    pub fn is_plain(&self) -> (r: bool)
        ensures
            r == is_plain(*self),
    {
        !self.number_all_lines && !self.number_nonblank_lines && !self.squeeze_blank_runs
            && !self.show_line_endings && !self.show_tabs && !self.show_nonprinting
    }

    /// Applies the option letter `c`. Returns false, and changes nothing,
    /// where `c` is no option letter.
    pub fn apply_letter(&mut self, c: char) -> (r: bool)
        ensures
            r == letter_effect(*old(self), c) is Some,
            r ==> *final(self) == letter_effect(*old(self), c)->Some_0,
            !r ==> *final(self) == *old(self),
    {
        match c {
            'A' => {
                self.show_line_endings = true;
                self.show_tabs = true;
                self.show_nonprinting = true;
            },
            'b' => self.number_nonblank_lines = true,
            'e' => {
                self.show_line_endings = true;
                self.show_nonprinting = true;
            },
            'E' => self.show_line_endings = true,
            'n' => self.number_all_lines = true,
            's' => self.squeeze_blank_runs = true,
            't' => {
                self.show_tabs = true;
                self.show_nonprinting = true;
            },
            'T' => self.show_tabs = true,
            'v' => self.show_nonprinting = true,
            _ => {
                return false;
            },
        }
        true
    }
}

/// The characters of each token.
pub open spec fn token_views(tokens: Seq<String>) -> Seq<Seq<char>> {
    tokens.map_values(|t: String| t@)
}

/// Resolves command-line tokens (the program name left out) into options and
/// inputs. Fails with the first character of an option token that is no
/// option letter.
pub fn resolve_args(tokens: &Vec<String>) -> (r: Result<Invocation, char>)
    ensures
        match apply_tokens(no_options(), token_views(tokens@)) {
            Ok(o) => r matches Ok(inv) && inv.options == o && sources_named(
                inv.sources@,
                token_views(tokens@),
            ),
            Err(c) => r == Err::<Invocation, char>(c),
        },
{
    let ghost ts = token_views(tokens@);
    let mut options = Options::new();
    let mut sources: Vec<Source> = Vec::new();
    let mut i: usize = 0;
    assert(ts.skip(0) =~= ts);
    while i < tokens.len()
        invariant
            0 <= i <= tokens.len(),
            ts == token_views(tokens@),
            apply_tokens(no_options(), ts) == apply_tokens(options, ts.skip(i as int)),
            sources@.len() == input_tokens(ts.take(i as int)).len(),
            forall|j: int|
                0 <= j < sources@.len() ==> #[trigger] names_source(
                    sources@[j],
                    input_tokens(ts.take(i as int))[j],
                ),
        decreases tokens.len() - i,
    {
        let tok: &str = tokens[i].as_str();
        let n: usize = tok.unicode_len();
        assert(ts.skip(i as int).drop_first() =~= ts.skip(i + 1));
        assert(ts.take(i + 1).drop_last() =~= ts.take(i as int));
        assert(ts.skip(i as int)[0] == tok@);
        if n > 1 && tok.get_char(0) == '-' {
            let ghost before = options;
            assert(tok@.skip(1) =~= tok@.drop_first());
            let mut k: usize = 1;
            while k < n
                invariant
                    1 <= k <= n,
                    n == tok@.len(),
                    is_option_token(tok@),
                    ts == token_views(tokens@),
                    ts.skip(i as int)[0] == tok@,
                    ts.skip(i as int).len() > 0,
                    apply_tokens(no_options(), ts) == apply_tokens(before, ts.skip(i as int)),
                    apply_letters(before, tok@.drop_first()) == apply_letters(
                        options,
                        tok@.skip(k as int),
                    ),
                decreases n - k,
            {
                let c = tok.get_char(k);
                assert(tok@.skip(k as int).drop_first() =~= tok@.skip(k + 1));
                if !options.apply_letter(c) {
                    assert(tok@.skip(k as int)[0] == c);
                    assert(apply_letters(options, tok@.skip(k as int)) == Err::<Options, char>(c));
                    assert(apply_letters(before, tok@.drop_first()) == Err::<Options, char>(c));
                    assert(apply_tokens(before, ts.skip(i as int)) == Err::<Options, char>(c));
                    return Err(c);
                }
                k = k + 1;
            }
            assert(tok@.skip(n as int) =~= Seq::<char>::empty());
        } else {
            if n == 1 && tok.get_char(0) == '-' {
                sources.push(Source::Stdin);
                assert(tok@ =~= seq!['-']);
            } else {
                sources.push(Source::Path(tokens[i].clone()));
                assert(tok@ != seq!['-']);
            }
        }
        i = i + 1;
        assert(input_tokens(ts.take(i as int)) =~= if is_option_token(ts.take(i as int).last()) {
            input_tokens(ts.take(i - 1))
        } else {
            input_tokens(ts.take(i - 1)).push(ts[i - 1])
        });
    }
    assert(ts.take(i as int) =~= ts);
    if sources.len() == 0 {
        sources.push(Source::Stdin);
    }
    Ok(Invocation { options, sources })
}

} // verus!
