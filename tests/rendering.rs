use bytecat::number::write_line_number;
use bytecat::options::{resolve_args, Options, Source};
use bytecat::splitter::LineSplitter;
use bytecat::transform::{process_line, RunningState};

fn options_from(letters: &str) -> Options {
    let tokens = vec![format!("-{}", letters)];
    resolve_args(&tokens).unwrap().options
}

fn render_with(opts: Options, input: &[u8]) -> Vec<u8> {
    let mut splitter = LineSplitter::new(opts, RunningState::new());
    let mut out = Vec::new();
    splitter.feed(input, &mut out);
    splitter.finish(&mut out);
    out
}

fn render(letters: &str, input: &[u8]) -> Vec<u8> {
    if letters.is_empty() {
        render_with(Options::new(), input)
    } else {
        render_with(options_from(letters), input)
    }
}

#[test]
fn numbers_every_line() {
    assert_eq!(render("n", b"a\n\nb\n"), b"     1\ta\n     2\t\n     3\tb\n".to_vec());
}

#[test]
fn squeezes_blank_run() {
    assert_eq!(render("s", b"a\n\n\n\nb\n"), b"a\n\nb\n".to_vec());
}

#[test]
fn shows_tab_as_caret_i() {
    assert_eq!(render("T", b"a\tb\n"), b"a^Ib\n".to_vec());
}

#[test]
fn unterminated_line_keeps_its_bytes() {
    assert_eq!(render("", b"ab"), b"ab".to_vec());
    assert_eq!(render("E", b"ab"), b"ab".to_vec());
    assert_eq!(render("s", b"ab"), b"ab".to_vec());
    assert_eq!(render("n", b"ab"), b"     1\tab".to_vec());
    assert_eq!(render("b", b"ab"), b"     1\tab".to_vec());
    assert_eq!(render("A", b"ab"), b"ab".to_vec());
}

#[test]
fn plain_output_is_input() {
    let input: Vec<u8> = (0u8..=255).chain(b"\n\n\tx\r\n\x7f".iter().copied()).collect();
    assert_eq!(render("", &input), input);
    assert_eq!(render("", b""), Vec::<u8>::new());
}

#[test]
fn empty_input_gives_nothing() {
    assert_eq!(render("nbsAE", b""), Vec::<u8>::new());
}

#[test]
fn numbering_continues_across_sources() {
    let mut splitter = LineSplitter::new(options_from("n"), RunningState::new());
    let mut out = Vec::new();
    splitter.feed(b"x\ny", &mut out);
    splitter.finish(&mut out);
    splitter.feed(b"z\n", &mut out);
    splitter.finish(&mut out);
    assert_eq!(out, b"     1\tx\n     2\ty     3\tz\n".to_vec());
    assert_eq!(splitter.state().line_number, 4);
    assert_eq!(splitter.options(), options_from("n"));
}

#[test]
fn nonblank_numbering_skips_blank_lines() {
    assert_eq!(
        render("b", b"a\n\n\nb\n"),
        b"     1\ta\n\n\n     2\tb\n".to_vec()
    );
}

#[test]
fn number_all_wins_over_nonblank() {
    assert_eq!(render("bn", b"a\n\n"), b"     1\ta\n     2\t\n".to_vec());
}

#[test]
fn squeeze_keeps_one_blank_for_any_run() {
    for n in 1..6 {
        let mut input = b"x\n".to_vec();
        input.extend(std::iter::repeat(b'\n').take(n));
        input.extend_from_slice(b"y\n");
        assert_eq!(render("s", &input), b"x\n\ny\n".to_vec());
    }
    assert_eq!(render("s", b"\n\n\n"), b"\n".to_vec());
}

#[test]
fn squeeze_with_numbering_numbers_kept_lines() {
    assert_eq!(
        render("sn", b"a\n\n\n\nb\n"),
        b"     1\ta\n     2\t\n     3\tb\n".to_vec()
    );
}

#[test]
fn squeeze_tracks_blank_across_sources() {
    let mut splitter = LineSplitter::new(options_from("s"), RunningState::new());
    let mut out = Vec::new();
    splitter.feed(b"a\n\n", &mut out);
    splitter.finish(&mut out);
    splitter.feed(b"\n\nb\n", &mut out);
    splitter.finish(&mut out);
    assert_eq!(out, b"a\n\nb\n".to_vec());
}

#[test]
fn line_ending_marker() {
    assert_eq!(render("E", b"a\n\nb"), b"a$\n$\nb".to_vec());
}

#[test]
fn caret_notation_for_control_bytes() {
    assert_eq!(render("v", b"\x00\x01\x1b\x7f\t\n"), b"^@^A^[^?\t\n".to_vec());
    assert_eq!(render("t", b"\x00\t\n"), b"^@^I\n".to_vec());
    assert_eq!(render("e", b"\x01\n"), b"^A$\n".to_vec());
    assert_eq!(render("A", b"\x7f\t\n"), b"^?^I$\n".to_vec());
    assert_eq!(render("v", b"\x80\xff ~\n"), b"\x80\xff ~\n".to_vec());
}

#[test]
fn tabs_only_alters_tabs() {
    assert_eq!(render("T", b"\x01\t\x7f\n"), b"\x01^I\x7f\n".to_vec());
}

#[test]
fn line_split_across_blocks_is_joined() {
    let opts = options_from("nE");
    let mut splitter = LineSplitter::new(opts, RunningState::new());
    let mut out = Vec::new();
    splitter.feed(b"hel", &mut out);
    assert_eq!(out, Vec::<u8>::new());
    splitter.feed(b"lo\nwor", &mut out);
    splitter.feed(b"ld\n", &mut out);
    splitter.finish(&mut out);
    assert_eq!(out, render("nE", b"hello\nworld\n"));
    assert_eq!(out, b"     1\thello$\n     2\tworld$\n".to_vec());
}

#[test]
fn line_number_field_widths() {
    let cases: [(u64, &[u8]); 6] = [
        (0, b"     0\t"),
        (1, b"     1\t"),
        (42, b"    42\t"),
        (999_999, b"999999\t"),
        (1_000_000, b"1000000\t"),
        (u64::MAX, b"18446744073709551615\t"),
    ];
    for (n, expected) in cases.iter() {
        let mut out = b"x".to_vec();
        write_line_number(&mut out, *n);
        let mut want = b"x".to_vec();
        want.extend_from_slice(expected);
        assert_eq!(out, want);
    }
}

#[test]
fn process_line_updates_state() {
    let opts = options_from("sb");
    let mut state = RunningState::new();
    let mut out = Vec::new();
    process_line(b"\n", &opts, &mut state, &mut out);
    assert!(state.previous_chunk_was_blank);
    assert_eq!(state.line_number, 1);
    process_line(b"\n", &opts, &mut state, &mut out);
    process_line(b"q", &opts, &mut state, &mut out);
    assert!(state.previous_chunk_was_blank);
    assert_eq!(state.line_number, 2);
    process_line(b"", &opts, &mut state, &mut out);
    assert_eq!(out, b"\n     1\tq".to_vec());
}

#[test]
fn empty_chunk_writes_nothing() {
    let opts = options_from("n");
    let mut state = RunningState::new();
    let mut out = Vec::new();
    process_line(b"", &opts, &mut state, &mut out);
    assert_eq!(out, Vec::<u8>::new());
    assert_eq!(state.line_number, 1);
}

#[test]
fn resolves_letters_and_sources() {
    let tokens: Vec<String> = vec!["-be".to_string(), "f1".to_string(), "-".to_string(), "-s".to_string()];
    let inv = resolve_args(&tokens).unwrap();
    let want = Options {
        number_all_lines: false,
        number_nonblank_lines: true,
        squeeze_blank_runs: true,
        show_line_endings: true,
        show_tabs: false,
        show_nonprinting: true,
    };
    assert_eq!(inv.options, want);
    assert_eq!(inv.sources.len(), 2);
    assert!(matches!(&inv.sources[0], Source::Path(p) if p == "f1"));
    assert!(matches!(inv.sources[1], Source::Stdin));
}

#[test]
fn composite_letters() {
    let a = options_from("A");
    assert!(a.show_line_endings && a.show_tabs && a.show_nonprinting);
    assert!(!a.number_all_lines && !a.number_nonblank_lines && !a.squeeze_blank_runs);
    let t = options_from("t");
    assert!(t.show_tabs && t.show_nonprinting && !t.show_line_endings);
    let e = options_from("e");
    assert!(e.show_line_endings && e.show_nonprinting && !e.show_tabs);
}

#[test]
fn no_sources_means_stdin() {
    let tokens: Vec<String> = vec!["-n".to_string()];
    let inv = resolve_args(&tokens).unwrap();
    assert_eq!(inv.sources.len(), 1);
    assert!(matches!(inv.sources[0], Source::Stdin));
    assert!(inv.options.number_all_lines);
    assert!(!inv.options.is_plain());
    let none = resolve_args(&Vec::new()).unwrap();
    assert!(none.options.is_plain());
}

#[test]
fn unknown_letter_is_reported() {
    let tokens: Vec<String> = vec!["f".to_string(), "-nxq".to_string(), "-z".to_string()];
    assert_eq!(resolve_args(&tokens).unwrap_err(), 'x');
}

#[test]
fn apply_letter_rejects_unknown() {
    let mut o = Options::new();
    assert!(!o.apply_letter('q'));
    assert_eq!(o, Options::new());
    assert!(o.apply_letter('T'));
    assert!(o.show_tabs && !o.show_nonprinting);
}
