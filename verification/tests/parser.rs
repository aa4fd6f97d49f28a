use bash2amber::bash::ast::{Command, Connector};
use bash2amber::bash::parser::parse;

fn assert_simple_words(command: &Command, expected: &[&str]) {
    match command {
        Command::Simple(simple) => {
            let expected_words = expected.iter().map(|w| w.to_string()).collect::<Vec<_>>();
            assert_eq!(simple.words, expected_words);
        }
        _ => panic!("expected simple command, got {command:?}"),
    }
}

#[test]
fn parses_simple_command_with_keyword_as_argument() {
    let program = parse("echo done\n", None).expect("script should parse");
    assert_eq!(program.statements.len(), 1);
    assert_simple_words(&program.statements[0], &["echo", "done"]);
}

#[test]
fn parses_background_statement_separator() {
    let program = parse("echo a & echo b\n", None).expect("script should parse");
    assert_eq!(program.statements.len(), 2);

    match &program.statements[0] {
        Command::Background(inner) => assert_simple_words(inner, &["echo", "a"]),
        _ => panic!("expected background command, got {:?}", program.statements[0]),
    }

    assert_simple_words(&program.statements[1], &["echo", "b"]);
}

#[test]
fn gives_pipeline_higher_precedence_than_or() {
    let program = parse("a || b | c\n", None).expect("script should parse");
    assert_eq!(program.statements.len(), 1);

    let Command::Connection(or_connection) = &program.statements[0] else {
        panic!("expected OR connection, got {:?}", program.statements[0]);
    };
    assert_eq!(or_connection.op, Connector::Or);
    assert_simple_words(&or_connection.left, &["a"]);

    let Command::Connection(pipe_connection) = or_connection.right.as_ref() else {
        panic!("expected pipeline on OR right side, got {:?}", or_connection.right);
    };
    assert_eq!(pipe_connection.op, Connector::Pipe);
    assert_simple_words(&pipe_connection.left, &["b"]);
    assert_simple_words(&pipe_connection.right, &["c"]);
}

#[test]
fn debug_dollar_hash_tokens() {
    let source = "while [[ $# -gt 0 ]]; do\n  echo hi\ndone\n";
    // The script lexes; whatever the parser makes of the tokens, no lexer error comes back.
    if let Err(e) = parse(source, None) {
        assert!(!e.starts_with("Lexer error"), "unexpected lexer error: {}", e);
    }
}

#[test]
fn refuses_non_ascii_script_ending_in_pipe() {
    assert_eq!(parse("é|", None).err(), Some("Lexer error (non-ASCII text ending in '|')".to_string()));
    assert_eq!(parse("echo é &", None).err(), Some("Lexer error (non-ASCII text ending in '&')".to_string()));
}

#[test]
fn parses_if_else_with_test_condition() {
    let program = parse("if [ \"$a\" = \"b\" ]; then\n  echo yes\nelse\n  echo no\nfi\n", None).expect("script should parse");
    assert_eq!(program.statements.len(), 1);
    match &program.statements[0] {
        Command::If(if_cmd) => {
            assert_simple_words(&if_cmd.condition, &["[", "\"$a\"", "=", "\"b\"", "]"]);
            assert_eq!(if_cmd.then_body.len(), 1);
            assert!(if_cmd.else_body.is_some());
        }
        other => panic!("expected if, got {other:?}"),
    }
}

#[test]
fn reports_unclosed_quote() {
    let result = parse("echo \"abc\n", None);
    assert!(result.is_err());
}

#[test]
fn lists_group_to_the_left_around_pipelines() {
    let program = parse("a && b | c || d\n", None).expect("script should parse");
    assert_eq!(program.statements.len(), 1);
    let Command::Connection(or_connection) = &program.statements[0] else {
        panic!("expected OR connection, got {:?}", program.statements[0]);
    };
    assert_eq!(or_connection.op, Connector::Or);
    assert_simple_words(&or_connection.right, &["d"]);
    let Command::Connection(and_connection) = or_connection.left.as_ref() else {
        panic!("expected AND connection, got {:?}", or_connection.left);
    };
    assert_eq!(and_connection.op, Connector::And);
    assert_simple_words(&and_connection.left, &["a"]);
    let Command::Connection(pipe_connection) = and_connection.right.as_ref() else {
        panic!("expected pipeline, got {:?}", and_connection.right);
    };
    assert_eq!(pipe_connection.op, Connector::Pipe);
    assert_simple_words(&pipe_connection.left, &["b"]);
    assert_simple_words(&pipe_connection.right, &["c"]);
}

#[test]
fn blank_script_parses_to_no_statements() {
    let program = parse("\n# comment\n;\n", None).expect("script should parse");
    assert_eq!(program.statements.len(), 0);
}

#[test]
fn parses_arithmetic_command_across_tokens() {
    let program = parse("(( i = i + 1 ))\n", None).expect("script should parse");
    match &program.statements[0] {
        Command::Arithmetic(a) => assert_eq!(a.expression, "i = i + 1"),
        other => panic!("expected arithmetic command, got {other:?}"),
    }
}

#[test]
fn parses_case_patterns() {
    let program = parse("case $x in\n  (a|b) echo ab ;;\n  c ) echo c ;&\nesac\n", None).expect("script should parse");
    match &program.statements[0] {
        Command::Case(case_cmd) => {
            assert_eq!(case_cmd.word, "$x");
            assert_eq!(case_cmd.clauses.len(), 2);
            assert_eq!(case_cmd.clauses[0].patterns, vec!["a".to_string(), "b".to_string()]);
            assert_eq!(case_cmd.clauses[1].patterns, vec!["c".to_string()]);
        }
        other => panic!("expected case command, got {other:?}"),
    }
}
