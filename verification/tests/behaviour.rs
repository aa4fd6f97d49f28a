use bash2amber::amber::render::context::RenderContext;
use bash2amber::amber::render::fallback::command_literal_from_shell;
use bash2amber::amber::render::syntax::{
    normalize_identifier, sanitize_function_name, FunctionTraits, GlobalVarType,
};
use bash2amber::amber::render::word::escape_plain_text;
use bash2amber::text::is_identifier;
use bash2amber::amber::render::syntax::detect_function_traits;
use bash2amber::bash::ast::{Command, ForCommand, SimpleCommand};
use bash2amber::{convert_bash_to_amber, convert_bash_to_amber_with_warnings};

fn chars(s: &str) -> Vec<char> {
    s.chars().collect()
}

fn text(cs: &[char]) -> String {
    cs.iter().collect()
}

/// Drops each escaping backslash and keeps the character after it.
fn unescape(cs: &[char]) -> String {
    let mut out = String::new();
    let mut i = 0;
    while i < cs.len() {
        if cs[i] == '\\' && i + 1 < cs.len() {
            out.push(cs[i + 1]);
            i += 2;
        } else {
            out.push(cs[i]);
            i += 1;
        }
    }
    out
}

fn convert(source: &str) -> String {
    convert_bash_to_amber(source, None).expect("script should convert")
}

#[test]
fn blank_scripts_convert_to_nothing() {
    assert_eq!(convert(""), "");
    assert_eq!(convert("\n# just a comment\n\n"), "");
    assert_eq!(convert(";\n;\n"), "");
}

#[test]
fn converts_while_loops() {
    let out = convert("x=1\nwhile [ \"$x\" -lt 3 ]; do\n  x=$((x + 1))\ndone\n");
    assert_eq!(out, "let x = 1\nwhile x < 3 {\n    x = x + 1\n}\n");
}

#[test]
fn converts_counting_down_c_style_for() {
    let out = convert("for (( i=5; i>0; i-- )); do\n  echo \"$i\"\ndone\n");
    assert_eq!(out, "for i in 5..0 {\n    echo(i)\n}\n");
}

#[test]
fn c_style_for_with_other_step_is_trusted() {
    let out = convert("for (( i=0; i<n; i+=2 )); do\n  echo hi\ndone\n");
    assert_eq!(out, "trust $ for (( i=0; i<n; i+=2 )); do echo hi; done $\n");
}

#[test]
fn converts_printf_into_named_target() {
    let out = convert("printf -v out \"%s\" \"$HOME\"\n");
    assert_eq!(out, "trust $ printf -v {nameof out} \"%s\" \"\\$HOME\" $\n");
}

#[test]
fn converts_echo_forms() {
    assert_eq!(convert("echo\n"), "echo(\"\")\n");
    assert_eq!(convert("echo $((1 + 2))\n"), "echo(1 + 2)\n");
    assert_eq!(convert("echo 'single'\n"), "echo(\"single\")\n");
    assert_eq!(convert("echo a b c\n"), "trust $ echo a b c $\n");
}

#[test]
fn converts_increment_statement() {
    assert_eq!(convert("i=0\n((i++))\n"), "let i = 0\ni = i + 1\n");
}

#[test]
fn background_command_is_trusted() {
    assert_eq!(convert("sleep 5 &\n"), "trust $ sleep 5 & $\n");
}

#[test]
fn case_with_fallthrough_is_trusted() {
    let out = convert("case \"$x\" in\n  a) echo a ;&\n  b) echo b ;;\nesac\n");
    assert_eq!(out, "trust $ case \"\\$x\" in a) echo a ;& b) echo b ;; esac $\n");
}

#[test]
fn case_default_clause_becomes_else() {
    let out = convert("x=1\ncase \"$x\" in\n  1) echo one ;;\n  *) echo other ;;\nesac\n");
    assert_eq!(
        out,
        "let x = 1\nif {\n    x == 1 {\n        echo(\"one\")\n    }\n    else {\n        echo(\"other\")\n    }\n}\n"
    );
}

#[test]
fn untyped_function_takes_positional_parameters() {
    let out = convert("greet() {\n  echo \"hi $1\"\n}\ngreet bob\n");
    assert_eq!(out, "fun greet(arg1) {\n    echo(\"hi {arg1}\")\n}\ngreet(\"bob\")\n");
}

#[test]
fn recursive_capture_without_type_comment_is_trusted_with_a_warning() {
    let source = "fact() {\n  local n=$1\n  local r=$(fact $((n - 1)))\n  echo $r\n}\n";
    let (out, warnings) = convert_bash_to_amber_with_warnings(source, None).expect("script should convert");
    assert_eq!(out, "trust $ fact() \\{ local n=\\$1; local r=\\$(fact \\$((n - 1))); echo \\$r; } $\n");
    assert_eq!(warnings.len(), 1);
    assert_eq!(
        warnings[0].message,
        "Function 'fact' at line 1 is unsupported without explicit type comment. Falling back to trust literal."
    );
    assert_eq!(
        warnings[0].comment.as_deref(),
        Some("function captures return value from recursive call but has no type comment")
    );
}

#[test]
fn warnings_name_the_source_path() {
    let source = "fact() {\n  local r=$(fact 1)\n}\n";
    let (_, warnings) =
        convert_bash_to_amber_with_warnings(source, Some("run.sh".to_string())).expect("script should convert");
    assert_eq!(warnings.len(), 1);
    assert!(warnings[0].message.ends_with(" (run.sh)"));
}

#[test]
fn assignments_refer_to_earlier_variables() {
    let out = convert("a=1\nb=$a\nc=\"$a-$b\"\n");
    assert_eq!(out, "let a = 1\nlet b = a\nlet c = \"{a}-{b}\"\n");
}

#[test]
fn reassignment_and_local() {
    assert_eq!(convert("x=5\nx=6\n"), "let x = 5\nx = 6\n");
    assert_eq!(convert("local x=2\n"), "let x = 2\n");
}

#[test]
fn ls_substitution_uses_the_builtin() {
    assert_eq!(convert("x=$(ls)\n"), "let x = trust ls()\n");
}

#[test]
fn unsupported_condition_is_trusted() {
    assert_eq!(convert("if true; then echo y; fi\n"), "if trust $ true $ {\n    echo(\"y\")\n}\n");
}

#[test]
fn reports_lexer_errors() {
    assert_eq!(
        convert_bash_to_amber("echo \"unclosed\n", None),
        Err("Lexer error (unclosed region) at 2:1".to_string())
    );
}

#[test]
fn reports_unterminated_arithmetic() {
    assert_eq!(
        convert_bash_to_amber("(( 1 + \n", None),
        Err("Unterminated arithmetic command at 1:8".to_string())
    );
}

#[test]
fn reports_case_pattern_errors() {
    assert_eq!(
        convert_bash_to_amber("case x in\n  | ) echo a ;;\nesac\n", None),
        Err("Invalid empty case pattern at 3:5".to_string())
    );
    assert_eq!(
        convert_bash_to_amber("case x in\n", None),
        Err("Unterminated case pattern list at 1:10".to_string())
    );
}

#[test]
fn escaped_plain_text_unescapes_to_itself() {
    for s in ["plain", "quote \" and {brace}", "back\\slash", "dollar $x"] {
        let escaped = escape_plain_text(&chars(s));
        assert_eq!(unescape(&escaped), s);
    }
    assert_eq!(text(&escape_plain_text(&chars("a\"b"))), "a\\\"b");
}

#[test]
fn trust_literal_keeps_the_shell_text() {
    assert_eq!(text(&command_literal_from_shell(&chars("ls -l"))), "trust $ ls -l $");
    let literal = command_literal_from_shell(&chars("echo $x"));
    let inner = &literal[8..literal.len() - 2];
    assert_eq!(unescape(inner), "echo $x");
}

#[test]
fn normalized_names_are_identifiers() {
    for s in ["my-var", "9lives", "", "ok_name", "with space"] {
        assert!(is_identifier(&normalize_identifier(&chars(s))));
        assert!(is_identifier(&sanitize_function_name(&chars(s))));
    }
    assert_eq!(text(&sanitize_function_name(&chars("if"))), "if_fn");
}

#[test]
fn normalizing_keeps_identifiers_and_adds_at_most_one_character() {
    assert_eq!(text(&normalize_identifier(&chars("ok_name"))), "ok_name");
    assert_eq!(text(&normalize_identifier(&chars("9lives"))), "_9lives");
    assert_eq!(text(&normalize_identifier(&chars("my-var"))), "my_var");
    assert_eq!(text(&normalize_identifier(&chars(""))), "var");
}

#[test]
fn declaring_twice_gives_the_same_name() {
    let mut ctx = RenderContext::new(Vec::new(), None);
    let first = ctx.declare_var(&chars("status"));
    let second = ctx.declare_var(&chars("status"));
    assert_eq!(first, second);
    assert_eq!(first, "status_var");
    assert_eq!(ctx.resolve_var(&chars("status")), Some(first));
    let other = ctx.declare_var(&chars("my-var"));
    assert!(is_identifier(&chars(&other)));
}

#[test]
fn merging_observed_types() {
    let all = [GlobalVarType::Text, GlobalVarType::Int, GlobalVarType::Unknown];
    for a in all {
        for b in all {
            assert_eq!(a.merge(b), b.merge(a));
        }
        assert_eq!(a.merge(a), Some(a));
        assert_eq!(a.merge(GlobalVarType::Unknown), Some(a));
    }
    assert_eq!(GlobalVarType::Text.merge(GlobalVarType::Int), None);
}

#[test]
fn merging_function_traits() {
    let a = FunctionTraits { arity: 2, is_variadic: false };
    let b = FunctionTraits { arity: 1, is_variadic: true };
    let ab = a.merge(b);
    let ba = b.merge(a);
    assert_eq!((ab.arity, ab.is_variadic), (2, true));
    assert_eq!((ba.arity, ba.is_variadic), (2, true));
    let none = FunctionTraits { arity: 0, is_variadic: false };
    let an = a.merge(none);
    assert_eq!((an.arity, an.is_variadic), (2, false));
}

#[test]
fn conflicting_global_types_are_trusted_with_a_warning() {
    let source = "set_it() {\n  if [ \"$1\" = \"a\" ]; then\n    result=\"x\"\n  else\n    result=1\n  fi\n}\nset_it a\necho \"$result\"\n";
    let (out, warnings) = convert_bash_to_amber_with_warnings(source, None).expect("script should convert");
    assert_eq!(
        out,
        "trust $ set_it() \\{ if [ \"\\$1\" = \"a\" ]; then result=\"x\"; else result=1; fi; } $\ntrust $ set_it a $\ntrust $ echo \"\\$result\" $\n"
    );
    assert_eq!(warnings.len(), 1);
    assert_eq!(
        warnings[0].message,
        "Function 'set_it' at line 1 has conflicting global variable types. Falling back to trust literal."
    );
    assert_eq!(
        warnings[0].comment.as_deref(),
        Some("global output variable has conflicting types (Int vs Text) across branches")
    );
}

#[test]
fn global_output_variable_is_declared_before_the_function() {
    let out = convert("set_it() {\n  result=\"x\"\n}\nset_it\necho \"$result\"\n");
    assert_eq!(out, "let result = \"\"\nfun set_it() {\n    result = \"x\"\n}\nset_it()\necho(result)\n");
}

#[test]
fn typed_function_returns_its_output_variable() {
    let out = convert("## (n: Int): Int(total)\nadd_one() {\n  local n=$1\n  total=$((n + 1))\n}\nadd_one 4\necho \"$total\"\n");
    assert_eq!(out, "fun add_one(n: Int): Int {\n    return n + 1\n}\nlet total = add_one(4)\necho(total)\n");
}

#[test]
fn variadic_function_calls_are_trusted() {
    let out = convert("f() {\n  echo \"$@\"\n}\nf a b\n");
    assert_eq!(out, "fun f() {\n    trust $ echo \"\\$@\" $\n}\ntrust $ f a b $\n");
}

#[test]
fn arithmetic_ternary_becomes_then_else() {
    assert_eq!(convert("x=3\ny=$(( x > 2 ? 1 : 0 ))\n"), "let x = 3\nlet y = x > 2 then 1 else 0\n");
}

#[test]
fn pipelines_and_unsupported_tests_are_trusted() {
    assert_eq!(convert("[ -f a ] && echo yes || echo no\n"), "trust $ [ -f a ] && echo yes || echo no $\n");
    assert_eq!(convert("cat file | grep x\n"), "trust $ cat file | grep x $\n");
}

#[test]
fn groups_are_flattened() {
    assert_eq!(convert("{ echo a; echo b; }\n"), "echo(\"a\")\necho(\"b\")\n");
}

#[test]
fn reports_parse_errors_with_positions() {
    let cases = [
        ("if true\necho x\nfi\n", "Expected 'then' at 2:1"),
        ("{ echo a\n", "Unterminated group at 1:9"),
        ("function 9bad { echo a; }\n", "Invalid function name '9bad' at 1:26"),
        ("for\n", "Expected loop variable name at 1:4"),
        ("for (( i=0; i<3\n", "Unterminated C-style for loop at 1:16"),
        ("while true; do echo a\n", "Expected 'done' at 1:22"),
        ("case x\n", "Expected 'in' at 1:7"),
        ("f() echo\n", "Expected '{' at 1:5"),
        ("for x in a b\n", "Expected 'do' at 1:13"),
        ("echo a | \n", "Expected command at 1:10"),
    ];
    for (source, message) in cases {
        assert_eq!(convert_bash_to_amber(source, None), Err(message.to_string()), "{}", source);
    }
}

#[test]
fn end_of_input_columns_count_bytes_of_the_last_line() {
    assert_eq!(convert_bash_to_amber("{ echo \u{e9}\n", None), Err("Unterminated group at 1:10".to_string()));
    assert_eq!(convert_bash_to_amber("{ echo a\n  echo \u{e9}\n", None), Err("Unterminated group at 2:10".to_string()));
}

#[test]
fn elif_nests_in_the_else_branch() {
    let out = convert("if true; then echo a; elif false; then echo b; else echo c; fi\n");
    assert_eq!(
        out,
        "if trust $ true $ {\n    echo(\"a\")\n} else {\n    if trust $ false $ {\n        echo(\"b\")\n    } else {\n        echo(\"c\")\n    }\n}\n"
    );
}

#[test]
fn unknown_keywords_are_simple_commands() {
    assert_eq!(convert("until x\n"), "trust $ until x $\n");
}

#[test]
fn substitutions_that_do_not_parse_are_trusted_text() {
    assert_eq!(convert("x=$(if)\n"), "let x = trust $ if $\n");
    assert_eq!(convert("x=$(echo a; echo b)\n"), "let x = trust $ echo a ; echo b $\n");
}

#[test]
fn variadic_function_without_arguments_is_called() {
    assert_eq!(convert("f() { echo $@; }\nf\n"), "fun f() {\n    trust $ echo \\$@ $\n}\nf()\n");
}

#[test]
fn for_items_count_towards_variadic_use() {
    let body = vec![
        Command::Simple(SimpleCommand { words: vec!["echo".to_string(), "$2".to_string()] }),
        Command::For(ForCommand {
            variable: "a".to_string(),
            items: vec!["\"$@\"".to_string()],
            body: vec![Command::Simple(SimpleCommand { words: vec!["echo".to_string(), "$a".to_string()] })],
        }),
    ];
    let traits = detect_function_traits(&body);
    assert_eq!(traits.arity, 2);
    assert!(traits.is_variadic);
}

#[test]
fn non_ascii_script_ending_in_ampersand_is_refused() {
    assert_eq!(
        convert_bash_to_amber("echo é &", None),
        Err("Lexer error (non-ASCII text ending in '&')".to_string())
    );
    assert_eq!(convert_bash_to_amber("echo é\n", None), Ok("echo(\"é\")\n".to_string()));
}
