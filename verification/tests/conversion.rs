use bash2amber::convert_bash_to_amber;

fn convert(source: &str) -> String {
    convert_bash_to_amber(source, None).expect("script should convert")
}

#[test]
fn converts_variables_and_strings() {
    let out = convert("name=\"World\"\necho \"Hello $name\"\n");
    assert_eq!(out, "let name = \"World\"\necho(\"Hello {name}\")\n");
}

#[test]
fn converts_arrays_and_loops() {
    let out = convert("groceries=(\"apple\" \"banana\" \"cherry\")\nfor item in \"${groceries[@]}\"; do\n  echo \"$item\"\ndone\n");
    assert_eq!(
        out,
        "let groceries = [\"apple\", \"banana\", \"cherry\"]\nfor item in groceries {\n    echo(item)\n}\n"
    );
}

#[test]
fn converts_c_style_for_loops() {
    let out = convert("for (( i=0; i<=5; i++ )); do\n  echo \"$i\"\ndone\n");
    assert_eq!(out, "for i in 0..=5 {\n    echo(i)\n}\n");
}

#[test]
fn converts_conditionals() {
    let out = convert("status=\"200\"\nif [ \"$status\" == \"200\" ]; then\n  echo \"UP\"\nelse\n  echo \"DOWN\"\nfi\n");
    assert_eq!(
        out,
        "let status_var = \"200\"\nif status_var == \"200\" {\n    echo(\"UP\")\n} else {\n    echo(\"DOWN\")\n}\n"
    );
}

#[test]
fn converts_case_statements() {
    let out = convert("fruit=\"pear\"\ncase \"$fruit\" in\n  apple|banana)\n    echo \"common\"\n    ;;\n  pear)\n    echo \"pear\"\n    ;;\nesac\n");
    assert_eq!(
        out,
        "let fruit = \"pear\"\nif {\n    fruit == \"apple\" or fruit == \"banana\" {\n        echo(\"common\")\n    }\n    fruit == \"pear\" {\n        echo(\"pear\")\n    }\n}\n"
    );
}

#[test]
fn converts_arithmetic() {
    let out = convert("base=10\nresult=$((base + 4 / 2))\necho \"$result\"\n");
    assert_eq!(out, "let base = 10\nlet result = base + 4 / 2\necho(result)\n");
}

#[test]
fn converts_typed_functions() {
    let out = convert("## (msg: Text): Text(output)\nwrap() {\n  local msg=\"$1\"\n  output=\"[${msg}]\"\n}\nwrap \"hello\"\necho $output\n");
    assert_eq!(
        out,
        "fun wrap(msg: Text): Text {\n    return \"[{msg}]\"\n}\nlet output = wrap(\"hello\")\necho(output)\n"
    );
}

#[test]
fn converts_ternary_assignments() {
    let out = convert("mode=\"prod\"\nif [ \"$mode\" = \"prod\" ]; then\n  status=\"live\"\nelse\n  status=\"test\"\nfi\necho \"$status\"\n");
    assert_eq!(
        out,
        "let mode = \"prod\"\nlet status_var = mode == \"prod\" then \"live\" else \"test\"\necho(status_var)\n"
    );
}

#[test]
fn wraps_unsupported_commands_in_trust() {
    let out = convert("ls -l | grep foo\n");
    assert_eq!(out, "trust $ ls -l | grep foo $\n");
}
