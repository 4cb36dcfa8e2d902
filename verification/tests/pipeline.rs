//! End-to-end checks of the argument pipeline: grammar, combinator, buffer,
//! tokenizer and the quoting transforms.

use parallel::Args;
use parallel::Flags;
use parallel::ParseOutput;
use parallel::buffer::WriteBuffer;
use parallel::command::quote_command;
use parallel::command::shellquote_command;
use parallel::errors::ParseErr;
use parallel::parser::Entry;
use parallel::parser::ExitKind;
use parallel::parser::splice_entries;
use parallel::records::record;
use parallel::records::record_count;
use parallel::records::write_all_records;
use parallel::records::write_lines;
use parallel::tokenizer::Token;
use parallel::tokenizer::tokenize;

fn s(x: &str) -> String {
    x.to_string()
}

fn strings(xs: &[&str]) -> Vec<String> {
    xs.iter().map(|x| x.to_string()).collect()
}

fn drain_all(buf: &mut WriteBuffer) -> Vec<u8> {
    buf.flush();
    buf.drain()
}

fn parse_run(args: &[&str], cores: usize) -> (Args, Vec<Vec<Entry>>) {
    let mut a = Args::new();
    let argv = strings(args);
    match a.parse_with_cores(&argv, cores) {
        Ok(ParseOutput::Run(lists)) => (a, lists),
        other => panic!("expected a run, got {:?}", other),
    }
}

fn parse_err(args: &[&str]) -> ParseErr {
    let mut a = Args::new();
    let argv = strings(args);
    match a.parse_with_cores(&argv, 4) {
        Err(e) => e,
        other => panic!("expected an error, got {:?}", other),
    }
}

#[test]
fn cartesian_product_odometer_order() {
    let lists = vec![strings(&["a", "b"]), strings(&["1", "2", "3"])];
    assert_eq!(record_count(&lists), Some(6));
    let expected = ["a 1\n", "a 2\n", "a 3\n", "b 1\n", "b 2\n", "b 3\n"];
    for (i, want) in expected.iter().enumerate() {
        assert_eq!(record(&lists, i as u64), want.as_bytes().to_vec());
    }
    let mut buf = WriteBuffer::new(4);
    assert_eq!(write_all_records(&lists, &mut buf), Some(6));
    assert_eq!(drain_all(&mut buf), b"a 1\na 2\na 3\nb 1\nb 2\nb 3\n".to_vec());
}

#[test]
fn three_lists_last_varies_fastest() {
    let lists = vec![strings(&["x", "y"]), strings(&["p"]), strings(&["1", "2"])];
    assert_eq!(record_count(&lists), Some(4));
    let mut buf = WriteBuffer::new(1024);
    assert_eq!(write_all_records(&lists, &mut buf), Some(4));
    assert_eq!(drain_all(&mut buf), b"x p 1\nx p 2\ny p 1\ny p 2\n".to_vec());
}

#[test]
fn single_list_passes_through_unchanged() {
    let lists = vec![strings(&["alpha", "beta", "gamma"])];
    assert_eq!(record_count(&lists), Some(3));
    let mut buf = WriteBuffer::new(2);
    assert_eq!(write_all_records(&lists, &mut buf), Some(3));
    assert_eq!(drain_all(&mut buf), b"alpha\nbeta\ngamma\n".to_vec());
}

#[test]
fn empty_list_among_many_yields_nothing() {
    let lists = vec![strings(&["a"]), strings(&[]), strings(&["b"])];
    assert_eq!(record_count(&lists), Some(0));
    let mut buf = WriteBuffer::new(8);
    assert_eq!(write_all_records(&lists, &mut buf), Some(0));
    assert!(buf.is_empty());
}

#[test]
fn overflowing_product_is_refused() {
    // 8 lists of 256 values give 2^64 tuples: one more than a 64-bit count
    // can hold.
    let one: Vec<String> = (0..256).map(|i| i.to_string()).collect();
    let lists: Vec<Vec<String>> = (0..8).map(|_| one.clone()).collect();
    assert_eq!(record_count(&lists), None);
    let mut buf = WriteBuffer::new(8);
    assert_eq!(write_all_records(&lists, &mut buf), None);
    assert!(buf.is_empty());
}

#[test]
fn stdin_lines_become_records_in_order() {
    let lines = strings(&["x", "y", "z"]);
    let mut buf = WriteBuffer::new(2);
    assert_eq!(write_lines(&lines, &mut buf), 3);
    assert_eq!(drain_all(&mut buf), b"x\ny\nz\n".to_vec());
}

#[test]
fn buffer_empty_iff_nothing_written() {
    let mut buf = WriteBuffer::new(4);
    assert!(buf.is_empty());
    buf.flush();
    let none = buf.drain();
    assert!(none.is_empty());
    assert!(buf.is_empty());
    buf.write(b"ab");
    assert!(!buf.is_empty());
    buf.flush();
    let _ = buf.drain();
    // Emptiness speaks of everything ever written, not of what is pending.
    assert!(!buf.is_empty());
    buf.write_byte(b'c');
    buf.write(b"defgh");
    assert!(!buf.is_empty());
}

#[test]
fn buffer_spills_preserve_order_across_drains() {
    let mut buf = WriteBuffer::new(3);
    let mut file: Vec<u8> = Vec::new();
    for chunk in [&b"ab"[..], b"cde", b"", b"f", b"ghij"] {
        buf.write(chunk);
        file.extend_from_slice(&buf.drain());
    }
    buf.flush();
    file.extend_from_slice(&buf.drain());
    assert_eq!(file, b"abcdefghij".to_vec());
}

#[test]
fn tokenize_plain_template_is_one_literal() {
    let tokens = tokenize(&s("echo hello")).unwrap();
    assert_eq!(tokens, vec![Token::Text(s("echo hello"))]);
}

#[test]
fn tokenize_placeholder_splits_literals_exactly() {
    let tokens = tokenize(&s("echo {} out")).unwrap();
    assert_eq!(
        tokens,
        vec![Token::Text(s("echo ")), Token::JobArgs, Token::Text(s(" out"))]
    );
    let tokens = tokenize(&s("{#}-{%}")).unwrap();
    assert_eq!(
        tokens,
        vec![Token::JobIndex, Token::Text(s("-")), Token::JobTotal]
    );
    // Concatenating the surface forms reconstructs the template.
    let mut rebuilt = String::new();
    for t in tokenize(&s("a{}b{#}c")).unwrap() {
        match t {
            Token::Text(x) => rebuilt.push_str(&x),
            Token::JobArgs => rebuilt.push_str("{}"),
            Token::JobIndex => rebuilt.push_str("{#}"),
            Token::JobTotal => rebuilt.push_str("{%}"),
        }
    }
    assert_eq!(rebuilt, "a{}b{#}c");
}

#[test]
fn tokenize_reports_malformed_placeholder_position() {
    assert_eq!(tokenize(&s("echo {x}")).unwrap_err().pos, 5);
    assert_eq!(tokenize(&s("{")).unwrap_err().pos, 0);
    assert_eq!(tokenize(&s("ab{#")).unwrap_err().pos, 2);
    // A lone closing brace is literal text.
    assert_eq!(tokenize(&s("a}b")).unwrap(), vec![Token::Text(s("a}b"))]);
}

#[test]
fn quote_doubles_backslashes_and_nothing_else() {
    assert_eq!(quote_command(s("a\\b c")), "a\\\\b c");
    assert_eq!(quote_command(s("plain")), "plain");
    // Not idempotent: quoting twice quadruples the backslash.
    let twice = quote_command(quote_command(s("\\")));
    assert_eq!(twice, "\\\\\\\\");
    assert_ne!(twice, quote_command(s("\\")));
}

#[test]
fn shellquote_escapes_after_binary_boundary() {
    // The first space separates the binary from its arguments and stays
    // unescaped; the ampersand is escaped.
    assert_eq!(shellquote_command(s("cmd a&b")), "cmd a\\&b");
    // Later spaces are metacharacters like any other.
    assert_eq!(shellquote_command(s("cmd a b")), "cmd a\\ b");
}

#[test]
fn jobs_value_in_both_token_shapes() {
    let (a, _) = parse_run(&["-j4", "echo"], 8);
    assert_eq!(a.ncores, 4);
    let (a, _) = parse_run(&["-j", "4", "echo"], 8);
    assert_eq!(a.ncores, 4);
    let (a, _) = parse_run(&["--jobs", "7", "echo"], 8);
    assert_eq!(a.ncores, 7);
}

#[test]
fn jobs_percentage_rounds_with_minimum_one() {
    let (a, _) = parse_run(&["-j50%", "echo"], 8);
    assert_eq!(a.ncores, 4);
    // 3 cores at 50% is 1.5, rounded to 2.
    let (a, _) = parse_run(&["-j50%", "echo"], 3);
    assert_eq!(a.ncores, 2);
    // A tiny share still yields at least one job.
    let (a, _) = parse_run(&["-j1%", "echo"], 1);
    assert_eq!(a.ncores, 1);
}

#[test]
fn plus_separator_first_acts_like_plain() {
    let (a1, l1) = parse_run(&["echo", ":::+", "a", "b"], 4);
    let (a2, l2) = parse_run(&["echo", ":::", "a", "b"], 4);
    assert_eq!(l1, l2);
    assert_eq!(a1.flags, a2.flags);
    assert_eq!(a1.arguments, a2.arguments);
    let (_, l3) = parse_run(&["echo", "::::+", "f"], 4);
    let (_, l4) = parse_run(&["echo", "::::", "f"], 4);
    assert_eq!(l3, l4);
}

#[test]
fn separators_build_lists_in_order() {
    let (a, lists) = parse_run(&["cmd", ":::", "a", "b", ":::", "c"], 4);
    assert!(!a.flags.inputs_are_commands);
    assert_eq!(lists.len(), 2);
    assert_eq!(
        lists[0],
        vec![
            Entry { is_file: false, text: s("a") },
            Entry { is_file: false, text: s("b") }
        ]
    );
    assert_eq!(lists[1], vec![Entry { is_file: false, text: s("c") }]);
    assert_eq!(a.arguments, vec![Token::Text(s("cmd"))]);
}

#[test]
fn plus_separator_continues_the_current_list() {
    let (_, lists) = parse_run(&["cmd", ":::", "a", ":::+", "b", ":::", "c"], 4);
    assert_eq!(lists.len(), 2);
    assert_eq!(lists[0].len(), 2);
    assert_eq!(lists[1].len(), 1);
}

#[test]
fn leading_separator_makes_inputs_commands() {
    let (a, lists) = parse_run(&[":::", "ls", "pwd"], 4);
    assert!(a.flags.inputs_are_commands);
    assert_eq!(lists.len(), 1);
    assert_eq!(lists[0].len(), 2);
}

#[test]
fn files_mode_records_file_entries() {
    let (_, lists) = parse_run(&["cmd", "::::", "values.txt"], 4);
    assert_eq!(
        lists[0],
        vec![Entry { is_file: true, text: s("values.txt") }]
    );
}

#[test]
fn short_option_block_sets_each_flag() {
    let (a, _) = parse_run(&["-nps", "echo"], 4);
    assert!(!a.flags.uses_shell);
    assert!(a.flags.pipe);
    assert!(a.flags.quiet);
    assert!(!a.flags.verbose);
    let (a, _) = parse_run(&["-v", "--no-shell", "--quiet", "echo"], 4);
    assert!(a.flags.verbose);
    assert!(!a.flags.uses_shell);
    assert!(a.flags.quiet);
    let expected_default = Flags::new();
    let (a, _) = parse_run(&["echo"], 4);
    assert_eq!(a.flags, expected_default);
}

#[test]
fn quote_option_transforms_the_template() {
    let (a, _) = parse_run(&["-q", "echo", "a\\b"], 4);
    assert_eq!(a.arguments, vec![Token::Text(s("echo a\\\\b"))]);
    let (a, _) = parse_run(&["--shellquote", "cmd", "a&b"], 4);
    assert_eq!(a.arguments, vec![Token::Text(s("cmd a\\&b"))]);
    // When both are requested, quote wins.
    let (a, _) = parse_run(&["-q", "--shellquote", "cmd", "a&b"], 4);
    assert_eq!(a.arguments, vec![Token::Text(s("cmd a&b"))]);
}

#[test]
fn informational_options_short_circuit() {
    let mut a = Args::new();
    match a.parse_with_cores(&strings(&["--version"]), 4) {
        Ok(ParseOutput::Exit(ExitKind::Version)) => (),
        other => panic!("expected version exit, got {:?}", other),
    }
    match a.parse_with_cores(&strings(&["-h"]), 4) {
        Ok(ParseOutput::Exit(ExitKind::Help)) => (),
        other => panic!("expected help exit, got {:?}", other),
    }
    match a.parse_with_cores(&strings(&["--num-cpu-cores"]), 4) {
        Ok(ParseOutput::Exit(ExitKind::NumCpuCores)) => (),
        other => panic!("expected core-count exit, got {:?}", other),
    }
    // `h` exits even in the middle of a short block.
    match a.parse_with_cores(&strings(&["-vh", "echo"]), 4) {
        Ok(ParseOutput::Exit(ExitKind::Help)) => (),
        other => panic!("expected help exit, got {:?}", other),
    }
}

#[test]
fn each_grammar_error_has_its_input() {
    assert!(matches!(parse_err(&[]), ParseErr::NoArguments));
    assert!(matches!(parse_err(&["-j"]), ParseErr::JobsNoValue));
    // After the command has started, `-j` is command text, not an option.
    let (a, _) = parse_run(&["echo", "-j"], 4);
    assert_eq!(a.arguments, vec![Token::Text(s("echo -j"))]);
    match parse_err(&["-jx", "echo"]) {
        ParseErr::Jobs(t) => assert_eq!(t, "x"),
        other => panic!("expected a jobs error, got {:?}", other),
    }
    match parse_err(&["-j", "5%%", "echo"]) {
        ParseErr::Jobs(t) => assert_eq!(t, "5%%"),
        other => panic!("expected a jobs error, got {:?}", other),
    }
    match parse_err(&["-x"]) {
        ParseErr::InvalidArgument(t) => assert_eq!(t, "-x"),
        other => panic!("expected an invalid argument, got {:?}", other),
    }
    match parse_err(&["-"]) {
        ParseErr::InvalidArgument(t) => assert_eq!(t, "-"),
        other => panic!("expected an invalid argument, got {:?}", other),
    }
    match parse_err(&["--bogus"]) {
        ParseErr::InvalidArgument(t) => assert_eq!(t, "--bogus"),
        other => panic!("expected an invalid argument, got {:?}", other),
    }
    match parse_err(&["echo", "{x}"]) {
        ParseErr::Token(e) => assert_eq!(e.pos, 5),
        other => panic!("expected a token error, got {:?}", other),
    }
}

#[test]
fn splice_replaces_file_entries_in_place() {
    let entries = vec![
        Entry { is_file: false, text: s("a") },
        Entry { is_file: true, text: s("f.txt") },
        Entry { is_file: false, text: s("b") },
    ];
    let expansions = vec![strings(&["x", "y"])];
    assert_eq!(
        splice_entries(&entries, &expansions),
        Some(strings(&["a", "x", "y", "b"]))
    );
    // One expansion per file entry, or nothing.
    assert_eq!(splice_entries(&entries, &vec![]), None);
    let too_many = vec![strings(&["x"]), strings(&["y"])];
    assert_eq!(splice_entries(&entries, &too_many), None);
}

#[test]
fn job_values_parse_directly() {
    assert_eq!(parallel::jobs::parse("4", 8), Ok(4));
    assert_eq!(parallel::jobs::parse("0", 8), Ok(0));
    assert_eq!(parallel::jobs::parse("50%", 8), Ok(4));
    assert_eq!(parallel::jobs::parse("0%", 4), Ok(1));
    assert!(matches!(parallel::jobs::parse("abc", 4), Err(ParseErr::Jobs(_))));
    assert!(matches!(parallel::jobs::parse("%", 4), Err(ParseErr::Jobs(_))));
    assert!(matches!(
        parallel::jobs::parse("99999999999999999999999999", 4),
        Err(ParseErr::Jobs(_))
    ));
}

#[test]
fn plus_separator_continues_across_value_kinds() {
    // `::::+` keeps filling the current list, tagging new values as files.
    let (_, lists) = parse_run(&["cmd", ":::", "a", "::::+", "f.txt"], 4);
    assert_eq!(lists.len(), 1);
    assert_eq!(
        lists[0],
        vec![
            Entry { is_file: false, text: s("a") },
            Entry { is_file: true, text: s("f.txt") }
        ]
    );
}

#[test]
fn total_count_placeholder_tokenizes() {
    let tokens = tokenize(&s("run {} of {%}")).unwrap();
    assert_eq!(
        tokens,
        vec![
            Token::Text(s("run ")),
            Token::JobArgs,
            Token::Text(s(" of ")),
            Token::JobTotal
        ]
    );
}

#[test]
fn new_args_use_detected_cores() {
    let a = Args::new();
    assert!(a.ncores >= 1);
    assert_eq!(a.ninputs, 0);
    assert!(a.piped_values.is_none());
    assert!(a.arguments.is_empty());
}
