use rush::aliasx::{cmd_items_x, expand_cmd, next_step};
use rush::builtins::{
    alias, exit, parse_i32, run_builtin, unalias, BuiltinResult, ExitRequest, IntParseError,
};
use rush::executor::{
    apply_assignments, is_builtin, pipeline_status, should_run, stage_status, wire_pipeline,
    Shell, SPAWN_FAILURE_STATUS,
};
use rush::expand::expand_word;
use rush::fd::{Fd, FdAction};
use rush::interpret_line;
use rush::lexer::{lex, LexError, Token};
use rush::parser::{parse, split_assignment, ParseError};
use rush::syntax::{Cmd, Connector, RedirKind};
use rush::ShellError;

fn words(c: &rush::syntax::SimpleCmd) -> Vec<String> {
    c.words.clone()
}

#[test]
fn lex_simple_words_and_operators() {
    let ts = lex("echo hi | wc ; a && b || c").unwrap();
    assert_eq!(
        ts,
        vec![
            Token::Word("echo".to_string()),
            Token::Word("hi".to_string()),
            Token::Pipe,
            Token::Word("wc".to_string()),
            Token::Semi,
            Token::Word("a".to_string()),
            Token::AndIf,
            Token::Word("b".to_string()),
            Token::OrIf,
            Token::Word("c".to_string()),
        ]
    );
}

#[test]
fn lex_redirections_with_descriptors() {
    let ts = lex("cmd 2> err >> log < in 3>> x").unwrap();
    assert_eq!(
        ts,
        vec![
            Token::Word("cmd".to_string()),
            Token::Great(2),
            Token::Word("err".to_string()),
            Token::DGreat(1),
            Token::Word("log".to_string()),
            Token::Less(0),
            Token::Word("in".to_string()),
            Token::DGreat(3),
            Token::Word("x".to_string()),
        ]
    );
}

#[test]
fn lex_quotes_kept_raw_and_word_boundaries() {
    let ts = lex("echo 'a b'\"c|d\"e").unwrap();
    assert_eq!(
        ts,
        vec![
            Token::Word("echo".to_string()),
            Token::Word("'a b'\"c|d\"e".to_string()),
        ]
    );
}

#[test]
fn lex_unterminated_quote_is_error() {
    match lex("echo \"abc") {
        Err(LexError::UnterminatedQuote { .. }) => {}
        other => panic!("expected unterminated quote, got {:?}", other),
    }
}

#[test]
fn lex_trailing_backslash_is_error() {
    match lex("echo a\\") {
        Err(LexError::TrailingBackslash { pos }) => assert_eq!(pos, 6),
        other => panic!("expected trailing backslash error, got {:?}", other),
    }
    // escaped characters inside the line are fine
    let ts = lex("echo a\\ b").unwrap();
    assert_eq!(
        ts,
        vec![Token::Word("echo".to_string()), Token::Word("a\\ b".to_string())]
    );
}

#[test]
fn lex_lone_ampersand_is_error() {
    match lex("sleep 5 &") {
        Err(LexError::LoneAmpersand { .. }) => {}
        other => panic!("expected lone ampersand error, got {:?}", other),
    }
}

#[test]
fn unterminated_quote_line_is_never_executed() {
    // the interpreter refuses the line before any tree exists
    match interpret_line("echo \"abc") {
        Err(ShellError::Lex(LexError::UnterminatedQuote { .. })) => {}
        other => panic!("expected lexical error, got {:?}", other),
    }
}

#[test]
fn parse_simple_command_with_assignments() {
    let c = interpret_line("A=1 B='x y' echo hi").unwrap();
    match c {
        Cmd::Simple(sc) => {
            assert_eq!(
                sc.assignments,
                vec![
                    ("A".to_string(), "1".to_string()),
                    ("B".to_string(), "'x y'".to_string()),
                ]
            );
            assert_eq!(sc.words, vec!["echo".to_string(), "hi".to_string()]);
            assert!(sc.redirects.is_empty());
        }
        other => panic!("expected simple command, got {:?}", other),
    }
}

#[test]
fn parse_scenario_redirect_sequence() {
    // echo hi > /tmp/x; cat < /tmp/x : two elements, the first writing the
    // file, the second reading it back
    let c = interpret_line("echo hi > /tmp/x; cat < /tmp/x").unwrap();
    match c {
        Cmd::Sequence(items) => {
            assert_eq!(items.len(), 2);
            assert_eq!(items[0].connector, Connector::Semi);
            assert_eq!(items[1].connector, Connector::Semi);
            let first = &items[0].stages[0];
            assert_eq!(first.words, vec!["echo".to_string(), "hi".to_string()]);
            assert_eq!(first.redirects.len(), 1);
            assert_eq!(first.redirects[0].fd, 1);
            assert_eq!(first.redirects[0].kind, RedirKind::OutTrunc);
            assert_eq!(first.redirects[0].target, "/tmp/x".to_string());
            let second = &items[1].stages[0];
            assert_eq!(second.words, vec!["cat".to_string()]);
            assert_eq!(second.redirects[0].fd, 0);
            assert_eq!(second.redirects[0].kind, RedirKind::In);
        }
        other => panic!("expected sequence, got {:?}", other),
    }
}

#[test]
fn parse_conditional_connectors() {
    let c = interpret_line("false && echo yes").unwrap();
    match c {
        Cmd::Sequence(items) => {
            assert_eq!(items.len(), 2);
            assert_eq!(items[0].connector, Connector::Semi);
            assert_eq!(items[1].connector, Connector::AndIf);
            assert_eq!(items[0].stages[0].words, vec!["false".to_string()]);
            assert_eq!(items[1].stages[0].words, vec!["echo".to_string(), "yes".to_string()]);
        }
        other => panic!("expected sequence, got {:?}", other),
    }
}

#[test]
fn short_circuit_policy() {
    // false && echo yes : the second element is skipped on failure
    assert!(!should_run(Connector::AndIf, 1));
    assert!(should_run(Connector::AndIf, 0));
    // false || echo yes : the second element runs on failure
    assert!(should_run(Connector::OrIf, 1));
    assert!(!should_run(Connector::OrIf, 0));
    assert!(should_run(Connector::Semi, 0));
    assert!(should_run(Connector::Semi, 7));
}

#[test]
fn parse_errors() {
    match interpret_line("| cat") {
        Err(ShellError::Parse(ParseError::UnexpectedToken { pos })) => assert_eq!(pos, 0),
        other => panic!("expected unexpected-token error, got {:?}", other),
    }
    match interpret_line("echo >") {
        Err(ShellError::Parse(ParseError::MissingRedirectTarget { pos })) => assert_eq!(pos, 1),
        other => panic!("expected missing-target error, got {:?}", other),
    }
    match interpret_line("a ;; b") {
        Err(ShellError::Parse(ParseError::UnexpectedToken { .. })) => {}
        other => panic!("expected unexpected-token error, got {:?}", other),
    }
}

#[test]
fn split_assignment_words() {
    assert_eq!(
        split_assignment(&"x=1".to_string()),
        Some(("x".to_string(), "1".to_string()))
    );
    assert_eq!(
        split_assignment(&"x=a=b".to_string()),
        Some(("x".to_string(), "a=b".to_string()))
    );
    assert_eq!(split_assignment(&"=x".to_string()), None);
    assert_eq!(split_assignment(&"'x'=1".to_string()), None);
    assert_eq!(split_assignment(&"plain".to_string()), None);
}

#[test]
fn roundtrip_through_serialization() {
    // lex, parse, serialize, re-lex, re-parse: the same tree comes back
    for line in [
        "echo hi",
        "A=1 echo a b > out 2>> err",
        "a | b | c",
        "a && b || c ; d",
        "echo 'a b' \"c d\" x",
        "cat < in > out",
    ] {
        let t1 = parse(&lex(line).unwrap()).unwrap();
        let text = t1.to_commandline();
        let t2 = parse(&lex(text.as_str()).unwrap()).unwrap();
        assert_eq!(t1, t2, "round trip failed for {:?} via {:?}", line, text);
    }
}

#[test]
fn serialization_canonical_text() {
    let t = parse(&lex("echo hi>f").unwrap()).unwrap();
    assert_eq!(t.to_commandline(), "echo hi > f".to_string());
    let t2 = parse(&lex("a|b&&c").unwrap()).unwrap();
    assert_eq!(t2.to_commandline(), "a | b && c".to_string());
}

#[test]
fn descriptor_resolves_lazily_and_once() {
    // first resolution of a named file asks for an open, and commits the
    // opened handle in place
    let mut fd = Fd::FileName("/tmp/f".to_string());
    match fd.get_stdout() {
        FdAction::OpenCreate(name) => assert_eq!(name, "/tmp/f".to_string()),
        other => panic!("expected create action, got {:?}", other),
    }
    fd.commit_open(42);
    // the second resolution, for any stream, reuses the same handle: the
    // file is neither reopened nor truncated again
    match fd.get_stdout() {
        FdAction::DupRaw(h) => assert_eq!(h, 42),
        other => panic!("expected handle reuse, got {:?}", other),
    }
    match fd.get_stdin() {
        FdAction::DupRaw(h) => assert_eq!(h, 42),
        other => panic!("expected handle reuse, got {:?}", other),
    }
}

#[test]
fn descriptor_input_opens_for_reading() {
    let fd = Fd::FileName("in".to_string());
    match fd.get_stdin() {
        FdAction::OpenRead(name) => assert_eq!(name, "in".to_string()),
        other => panic!("expected read action, got {:?}", other),
    }
}

#[test]
fn pipeline_wiring_and_redirect_precedence() {
    // a | b < f : the explicit redirection on b wins over the pipe
    let c = parse(&lex("a | b < f").unwrap()).unwrap();
    let stages = match c {
        Cmd::Pipeline(stages) => stages,
        other => panic!("expected pipeline, got {:?}", other),
    };
    let io = wire_pipeline(&stages);
    assert_eq!(io.len(), 2);
    match &io[0].stdout {
        Fd::PipeOut(0) => {}
        other => panic!("expected pipe write end, got {:?}", other),
    }
    match &io[1].stdin {
        Fd::FileName(name) => assert_eq!(*name, "f".to_string()),
        other => panic!("explicit redirect must beat the pipe, got {:?}", other),
    }
}

#[test]
fn pipeline_wiring_three_stages() {
    // a | b | c : two pipes; ends inherit the terminal
    let c = parse(&lex("a | b | c").unwrap()).unwrap();
    let stages = match c {
        Cmd::Pipeline(stages) => stages,
        other => panic!("expected pipeline, got {:?}", other),
    };
    let io = wire_pipeline(&stages);
    assert_eq!(io.len(), 3);
    assert!(matches!(io[0].stdin, Fd::Inherit));
    assert!(matches!(io[0].stdout, Fd::PipeOut(0)));
    assert!(matches!(io[1].stdin, Fd::PipeIn(0)));
    assert!(matches!(io[1].stdout, Fd::PipeOut(1)));
    assert!(matches!(io[2].stdin, Fd::PipeIn(1)));
    assert!(matches!(io[2].stdout, Fd::Inherit));
    assert!(matches!(io[0].stderr, Fd::Inherit));
}

#[test]
fn pipeline_status_is_last_stage() {
    // even when an interior stage could not be spawned, the pipeline
    // reports the last stage's status
    let statuses = vec![
        stage_status(Some(0)),
        stage_status(None),
        stage_status(Some(3)),
    ];
    assert_eq!(statuses[1], SPAWN_FAILURE_STATUS);
    assert_eq!(pipeline_status(&statuses), 3);
}

#[test]
fn last_redirect_per_descriptor_wins() {
    let c = parse(&lex("a > one > two").unwrap()).unwrap();
    let stages = match c {
        Cmd::Simple(sc) => vec![sc],
        other => panic!("expected simple, got {:?}", other),
    };
    let io = wire_pipeline(&stages);
    match &io[0].stdout {
        Fd::FileName(name) => assert_eq!(*name, "two".to_string()),
        other => panic!("later redirect must override, got {:?}", other),
    }
}

#[test]
fn variable_expansion() {
    let mut shell = Shell::new(false);
    shell.vars.insert("x".to_string(), "hello".to_string());
    shell.set_pos(vec!["one".to_string(), "two".to_string()]);
    assert_eq!(expand_word(&"$x".to_string(), &shell), "hello".to_string());
    assert_eq!(expand_word(&"a${q}b".to_string(), &shell), "a${q}b".to_string());
    assert_eq!(expand_word(&"$unset".to_string(), &shell), "".to_string());
    assert_eq!(expand_word(&"$1-$2-$3".to_string(), &shell), "one-two-".to_string());
    assert_eq!(expand_word(&"\"$x world\"".to_string(), &shell), "hello world".to_string());
    assert_eq!(expand_word(&"'$x'".to_string(), &shell), "$x".to_string());
    assert_eq!(expand_word(&"a\\ b".to_string(), &shell), "a b".to_string());
    assert_eq!(expand_word(&"\"a\\\"b\"".to_string(), &shell), "a\"b".to_string());
}

#[test]
fn builtin_names() {
    for n in ["cd", "exit", "set", "alias", "unalias"] {
        assert!(is_builtin(&n.to_string()));
    }
    assert!(!is_builtin(&"echo".to_string()));
}

#[test]
fn exit_status_parsing() {
    match exit(&vec![]) {
        ExitRequest::Terminate(0) => {}
        other => panic!("expected status 0, got {:?}", other),
    }
    match exit(&vec!["7".to_string()]) {
        ExitRequest::Terminate(7) => {}
        other => panic!("expected status 7, got {:?}", other),
    }
    match exit(&vec!["-3".to_string()]) {
        ExitRequest::Terminate(-3) => {}
        other => panic!("expected status -3, got {:?}", other),
    }
    match exit(&vec!["x7".to_string()]) {
        ExitRequest::Fail(msg) => {
            assert_eq!(msg, "rush: invalid digit found in string".to_string())
        }
        other => panic!("expected failure, got {:?}", other),
    }
    assert_eq!(parse_i32(&"2147483647".to_string()), Ok(2147483647));
    assert_eq!(
        parse_i32(&"2147483648".to_string()),
        Err(IntParseError::PosOverflow)
    );
    assert_eq!(parse_i32(&"-2147483648".to_string()), Ok(-2147483648));
    assert_eq!(
        parse_i32(&"-2147483649".to_string()),
        Err(IntParseError::NegOverflow)
    );
    assert_eq!(parse_i32(&"".to_string()), Err(IntParseError::Empty));
    assert_eq!(parse_i32(&"+".to_string()), Err(IntParseError::InvalidDigit));
}

#[test]
fn escape_singlequotes_for_display() {
    assert_eq!(rush::escape_singlequotes("a'b'c"), "a\\'b\\'c".to_string());
    assert_eq!(rush::escape_singlequotes("plain"), "plain".to_string());
}

#[test]
fn alias_definition_and_listing() {
    let mut shell = Shell::new(false);
    let out = alias(&mut shell, vec!["g=echo hi".to_string()]);
    assert!(out.success);
    let listing = alias(&mut shell, vec![]);
    assert_eq!(listing.out, vec!["alias g='echo hi'".to_string()]);
    let shown = alias(&mut shell, vec!["g".to_string()]);
    assert_eq!(shown.out, vec!["alias g='echo hi'".to_string()]);
    let missing = alias(&mut shell, vec!["nope".to_string()]);
    assert!(!missing.success);
    assert_eq!(missing.err, vec!["rush: alias: nope: not found".to_string()]);
}

#[test]
fn alias_mixed_arguments_in_order() {
    let mut shell = Shell::new(false);
    // one definition, one lookup of it, one unknown name: the listing and
    // error lines come out in argument order and the definition sticks
    let r = alias(
        &mut shell,
        vec!["g=echo".to_string(), "g".to_string(), "nope".to_string()],
    );
    assert!(!r.success);
    assert_eq!(r.out, vec!["alias g='echo'".to_string()]);
    assert_eq!(r.err, vec!["rush: alias: nope: not found".to_string()]);
    assert!(shell.aliases.get(&"g".to_string()).is_some());
    // a right-hand side that does not parse stores a bound-but-empty alias
    let r2 = alias(&mut shell, vec!["bad=echo |".to_string()]);
    assert!(r2.success);
    assert_eq!(shell.aliases.get(&"bad".to_string()), Some(&None));
    let listing = alias(&mut shell, vec!["bad".to_string()]);
    assert_eq!(listing.out, vec!["alias bad=''".to_string()]);
}

#[test]
fn run_builtin_dispatch() {
    let mut shell = Shell::new(false);
    // alias through the dispatch boundary binds the name
    match run_builtin(
        &"alias".to_string(),
        vec!["g=echo".to_string()],
        &mut shell,
    ) {
        BuiltinResult::Done(o) => assert!(o.success),
        other => panic!("expected plain output, got {:?}", other),
    }
    assert!(shell.aliases.get(&"g".to_string()).is_some());
    // cd hands the host the given directory, not the home fallback
    match run_builtin(&"cd".to_string(), vec!["/tmp".to_string()], &mut shell) {
        BuiltinResult::Chdir(Some(d)) => assert_eq!(d, "/tmp".to_string()),
        other => panic!("expected a directory change, got {:?}", other),
    }
    // a non-numeric exit argument reports and does not terminate
    match run_builtin(&"exit".to_string(), vec!["x".to_string()], &mut shell) {
        BuiltinResult::Done(o) => {
            assert!(!o.success);
            assert_eq!(o.err, vec!["rush: invalid digit found in string".to_string()]);
        }
        other => panic!("expected a reported usage error, got {:?}", other),
    }
    // unalias through the dispatch removes the binding
    match run_builtin(&"unalias".to_string(), vec!["g".to_string()], &mut shell) {
        BuiltinResult::Done(o) => assert!(o.success),
        other => panic!("expected plain output, got {:?}", other),
    }
    assert!(shell.aliases.get(&"g".to_string()).is_none());
}

#[test]
fn alias_lookup_after_unalias_fails() {
    let mut shell = Shell::new(false);
    alias(&mut shell, vec!["g=echo".to_string()]);
    assert!(shell.aliases.get(&"g".to_string()).is_some());
    let r = unalias(&mut shell.aliases, vec!["g".to_string()]);
    assert!(r.success);
    // the unbound name now fails with "not found"
    assert!(shell.aliases.get(&"g".to_string()).is_none());
    let again = unalias(&mut shell.aliases, vec!["g".to_string()]);
    assert!(!again.success);
    assert_eq!(again.err, vec!["rush: unalias: g: not found".to_string()]);
}

#[test]
fn unalias_all_empties_table() {
    let mut shell = Shell::new(false);
    alias(&mut shell, vec!["a=x".to_string(), "b=y".to_string()]);
    let r = unalias(&mut shell.aliases, vec!["-a".to_string()]);
    assert!(r.success);
    assert!(shell.aliases.get(&"a".to_string()).is_none());
    assert!(shell.aliases.get(&"b".to_string()).is_none());
    assert!(shell.aliases.is_empty());
}

#[test]
fn unalias_usage_error() {
    let mut shell = Shell::new(false);
    let r = unalias(&mut shell.aliases, vec![]);
    assert!(!r.success);
    assert_eq!(
        r.err,
        vec!["unalias: usage: unalias [-a] name [name ...]".to_string()]
    );
    assert!(r.out.is_empty());
}

#[test]
fn one_line_alias_definition_reaches_later_elements() {
    // alias g='echo' ; g hello — typed as one line: the second element is
    // expanded only when its turn comes, against the table the first
    // element's builtin has already changed
    let mut shell = Shell::new(false);
    let tree = interpret_line("alias g=echo ; g hello").unwrap();
    let items = cmd_items_x(tree);
    assert_eq!(items.len(), 2);
    let mut status = 0;
    // element 0 runs: it is the alias builtin
    let step0 = next_step(&items, 0, status, &shell.aliases, shell.aliases.list().len() + 1)
        .expect("the first element always runs");
    let stage0 = &step0[0].stages[0];
    assert_eq!(stage0.words[0], "alias".to_string());
    match run_builtin(&stage0.words[0], stage0.words[1..].to_vec(), &mut shell) {
        BuiltinResult::Done(o) => {
            assert!(o.success);
            status = 0;
        }
        other => panic!("expected plain output, got {:?}", other),
    }
    // element 1 now sees the alias its own line defined
    let step1 = next_step(&items, 1, status, &shell.aliases, shell.aliases.list().len() + 1)
        .expect("a `;` element runs whatever came before");
    assert_eq!(
        step1[0].stages[0].words,
        vec!["echo".to_string(), "hello".to_string()]
    );
}

#[test]
fn next_step_skips_per_connector() {
    let shell = Shell::new(false);
    let items = cmd_items_x(interpret_line("false && echo yes").unwrap());
    // after a failure the && element is skipped; after success it runs
    assert!(next_step(&items, 1, 1, &shell.aliases, 1).is_none());
    let run = next_step(&items, 1, 0, &shell.aliases, 1).unwrap();
    assert_eq!(
        run[0].stages[0].words,
        vec!["echo".to_string(), "yes".to_string()]
    );
}

#[test]
fn alias_redefinition_keeps_listing_position() {
    let mut shell = Shell::new(false);
    alias(&mut shell, vec!["a=x".to_string(), "b=y".to_string()]);
    alias(&mut shell, vec!["a=z".to_string()]);
    let listing = alias(&mut shell, vec![]);
    assert_eq!(
        listing.out,
        vec!["alias a='z'".to_string(), "alias b='y'".to_string()]
    );
}

#[test]
fn assignment_only_command_sets_variables() {
    let mut shell = Shell::new(false);
    let st = apply_assignments(
        &vec![("x".to_string(), "1".to_string()), ("x".to_string(), "2".to_string())],
        &mut shell,
    );
    assert_eq!(st, 0);
    assert_eq!(shell.vars.get(&"x".to_string()), Some(&"2".to_string()));
}

#[test]
fn alias_expansion_scenario() {
    // alias g='echo' ; g hello  ==>  echo hello
    let mut shell = Shell::new(false);
    alias(&mut shell, vec!["g=echo".to_string()]);
    let fuel = shell.aliases.list().len() + 1;
    let c = interpret_line("g hello").unwrap();
    let e = expand_cmd(c, &shell.aliases, fuel);
    match e {
        Cmd::Simple(sc) => {
            assert_eq!(words(&sc), vec!["echo".to_string(), "hello".to_string()]);
        }
        other => panic!("expected simple command, got {:?}", other),
    }
}

#[test]
fn alias_expansion_self_reference_stops() {
    let mut shell = Shell::new(false);
    alias(&mut shell, vec!["ls=ls -l".to_string()]);
    let fuel = shell.aliases.list().len() + 1;
    let c = interpret_line("ls x").unwrap();
    let e = expand_cmd(c, &shell.aliases, fuel);
    match e {
        Cmd::Simple(sc) => {
            assert_eq!(
                words(&sc),
                vec!["ls".to_string(), "-l".to_string(), "x".to_string()]
            );
        }
        other => panic!("expected simple command, got {:?}", other),
    }
}

#[test]
fn alias_expansion_into_pipeline() {
    let mut shell = Shell::new(false);
    alias(&mut shell, vec!["p=a | b".to_string()]);
    let fuel = shell.aliases.list().len() + 1;
    let c = interpret_line("p x").unwrap();
    let e = expand_cmd(c, &shell.aliases, fuel);
    match e {
        Cmd::Pipeline(stages) => {
            assert_eq!(stages.len(), 2);
            assert_eq!(stages[0].words, vec!["a".to_string()]);
            // the original's remaining arguments go to the final stage
            assert_eq!(stages[1].words, vec!["b".to_string(), "x".to_string()]);
        }
        other => panic!("expected pipeline, got {:?}", other),
    }
}

#[test]
fn alias_expansion_only_first_word() {
    let mut shell = Shell::new(false);
    alias(&mut shell, vec!["g=echo".to_string()]);
    let fuel = shell.aliases.list().len() + 1;
    let c = interpret_line("printf g").unwrap();
    let e = expand_cmd(c, &shell.aliases, fuel);
    match e {
        Cmd::Simple(sc) => {
            assert_eq!(words(&sc), vec!["printf".to_string(), "g".to_string()]);
        }
        other => panic!("expected simple command, got {:?}", other),
    }
}

#[test]
fn set_positional_parameters() {
    let mut shell = Shell::new(true);
    assert!(shell.is_interactive());
    let ok = rush::builtins::set(
        vec!["a".to_string(), "b".to_string()],
        &mut shell,
    );
    assert!(ok);
    assert_eq!(shell.positional, vec!["a".to_string(), "b".to_string()]);
    assert_eq!(expand_word(&"$2".to_string(), &shell), "b".to_string());
}

#[test]
fn cmd_items_reading() {
    let c = interpret_line("a ; b && c").unwrap();
    let items = cmd_items_x(c);
    assert_eq!(items.len(), 3);
    assert_eq!(items[2].connector, Connector::AndIf);
}

#[test]
fn cd_decision() {
    assert_eq!(
        rush::builtins::cd(&vec!["/tmp".to_string()]),
        Some("/tmp".to_string())
    );
    assert_eq!(rush::builtins::cd(&vec![]), None);
}

#[test]
fn lines_wrapper_holds_source() {
    let src: Vec<u8> = b"echo hi\n".to_vec();
    let lines = rush::executor::Lines::new(src);
    let back = lines.into_inner();
    assert_eq!(back, b"echo hi\n".to_vec());
}
