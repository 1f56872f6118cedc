use alshc::control_flow::{parse_condition, ControlFlowParser};

fn parse(src: &str) -> String {
    let mut p = ControlFlowParser::new(src);
    match p.parse() {
        Ok(stmts) => format!("{:?}", stmts),
        Err(e) => format!("error: {}", e),
    }
}

fn cond(s: &str) -> String {
    format!("{:?}", parse_condition(&s.chars().collect()))
}

#[test]
fn let_and_command() {
    assert_eq!(
        parse("let x = 5\necho $x"),
        r#"[Let { name: "x", value: "5" }, Command("echo $x")]"#
    );
}

#[test]
fn braced_if_with_else() {
    assert_eq!(
        parse("if $x == 1 {\n  echo one\n} else {\n  echo other\n}"),
        r#"[If { condition: Compare("$x", Eq, "1"), then_block: [Command("echo one")], elif_blocks: [], else_block: Some([Command("echo other")]) }]"#
    );
}

#[test]
fn braced_if_with_else_if() {
    assert_eq!(
        parse("if $a {\n  x\n} else if $b {\n  y\n}\nz"),
        r#"[If { condition: Command("$a"), then_block: [Command("x")], elif_blocks: [(Command("$b"), [Command("y")])], else_block: None }, Command("z")]"#
    );
}

#[test]
fn legacy_if_elif_endif() {
    assert_eq!(
        parse("IF $a IS yes\necho a\nELIF $b IS NOT no\necho b\nENDIF"),
        r#"[If { condition: Is("$a", "yes"), then_block: [Command("echo a")], elif_blocks: [(IsNot("$b", "no"), [Command("echo b")])], else_block: None }]"#
    );
}

#[test]
fn legacy_else_consumes_endif() {
    assert_eq!(
        parse("IF $a\necho a\nELSE\necho b\nENDIF"),
        r#"[If { condition: Command("$a"), then_block: [Command("echo a")], elif_blocks: [], else_block: Some([Command("echo b")]) }]"#
    );
    assert_eq!(
        parse("IF $x == 1\necho a\nELIF $x == 2\necho b\nELSE\necho c\nENDIF\necho after"),
        r#"[If { condition: Compare("$x", Eq, "1"), then_block: [Command("echo a")], elif_blocks: [(Compare("$x", Eq, "2"), [Command("echo b")])], else_block: Some([Command("echo c")]) }, Command("echo after")]"#
    );
}

#[test]
fn braced_elif_is_a_branch() {
    assert_eq!(
        parse("if ($x == 1) {\necho a\n} elif ($x == 2) {\necho b\n} else {\necho c\n}"),
        r#"[If { condition: Compare("$x", Eq, "1"), then_block: [Command("echo a")], elif_blocks: [(Compare("$x", Eq, "2"), [Command("echo b")])], else_block: Some([Command("echo c")]) }]"#
    );
    assert_eq!(
        parse("if $a {\nx\n}\nelif $b {\ny\n}\nz"),
        r#"[If { condition: Command("$a"), then_block: [Command("x")], elif_blocks: [(Command("$b"), [Command("y")])], else_block: None }, Command("z")]"#
    );
}

#[test]
fn bare_loop_until_endloop() {
    assert_eq!(
        parse("LOOP\necho hi\nENDLOOP"),
        r#"[Loop { count: None, interval: None, body: [Command("echo hi")] }]"#
    );
    assert_eq!(
        parse("loop {\necho hi\n}"),
        r#"[Loop { count: None, interval: None, body: [Command("echo hi")] }]"#
    );
}

#[test]
fn while_and_counted_loop() {
    assert_eq!(
        parse("while $i < 3 {\n  echo $i\n}\nloop count 2 {\n  echo x\n}"),
        r#"[While { condition: Compare("$i", Lt, "3"), body: [Command("echo $i")] }, Loop { count: Some(2), interval: None, body: [Command("echo x")] }]"#
    );
}

#[test]
fn legacy_while_and_interval_loop() {
    assert_eq!(
        parse("WHILE $ok\nwork\nENDWHILE\nLOOP interval 5\ntick\nENDLOOP"),
        r#"[While { condition: Command("$ok"), body: [Command("work")] }, Loop { count: None, interval: Some(5), body: [Command("tick")] }]"#
    );
}

#[test]
fn foreach_and_for_in() {
    assert_eq!(
        parse("foreach f in $files {\n  echo $f\n}\nfor i in a b c {\n  echo $i\n}"),
        r#"[Foreach { var: "f", iterable: "$files", body: [Command("echo $f")] }, For { var: "i", items: ["a", "b", "c"], body: [Command("echo $i")] }]"#
    );
}

#[test]
fn c_style_for() {
    assert_eq!(
        parse("for (i = 0, $i < 3, $i = $i + 1) {\n  echo $i\n}"),
        r#"[ForLoop { init: Some("i = 0"), condition: Compare("$i", Lt, "3"), update: Some("$i = $i + 1"), body: [Command("echo $i")] }]"#
    );
}

#[test]
fn function_forms() {
    assert_eq!(
        parse("function greet(name, greeting) {\n  echo hi\n}\nfn add a b\nreturn $a\nendfn"),
        r#"[FunctionDef { name: "greet", params: ["name", "greeting"], body: [Command("echo hi")] }, FunctionDef { name: "add", params: ["a", "b"], body: [Return { value: Some("$a") }] }]"#
    );
}

#[test]
fn try_catch_braced_and_legacy() {
    assert_eq!(
        parse("try {\n  risky\n} catch {\n  recover\n}"),
        r#"[Try { try_block: [Command("risky")], catch_block: Some([Command("recover")]) }]"#
    );
    assert_eq!(
        parse("TRY\nrisky\nENDTRY"),
        r#"[Try { try_block: [Command("risky")], catch_block: None }]"#
    );
}

#[test]
fn struct_and_enum() {
    assert_eq!(
        parse("struct Point {\n  x: int\n  y: int\n}\nenum Color {\n  Red,\n  Green\n}"),
        r#"[StructDef { name: "Point", fields: ["x", "y"] }, EnumDef { name: "Color", variants: ["Red", "Green"] }]"#
    );
}

#[test]
fn switch_with_default() {
    assert_eq!(
        parse("switch on $c {\n  red: echo r\n  default: echo d\n}"),
        r#"[Switch { expr: "$c", branches: [("red", [Command("echo r")])], default_branch: Some([Command("echo d")]) }]"#
    );
}

#[test]
fn scan_of_enum() {
    assert_eq!(
        parse("scan $c of Color {\n  Red: echo r\n  Green:\n}"),
        r#"[Scan { expr: Some("$c"), enum_type: "Color", branches: [("Red", [Command("echo r")]), ("Green", [])] }]"#
    );
}

#[test]
fn chain_forms() {
    assert_eq!(parse("chain { a -> b }"), r#"[Chain { steps: ["a -> b"] }]"#);
    assert_eq!(
        parse("chain {\n  ls\n  std::trim()\n}"),
        r#"[Chain { steps: ["ls", "std::trim()"] }]"#
    );
    assert_eq!(
        parse("chain:\nls\nstd::trim()\nENDCHAIN"),
        r#"[Chain { steps: ["ls", "std::trim()"] }]"#
    );
}

#[test]
fn break_continue_return() {
    assert_eq!(
        parse("break $x > 2\ncontinue\nreturn"),
        r#"[Break { condition: Some(Compare("$x", Gt, "2")) }, Continue, Return { value: None }]"#
    );
}

#[test]
fn assignments() {
    assert_eq!(parse("$x = 5"), r#"[Let { name: "x", value: "5" }]"#);
    assert_eq!(parse("$x=5"), r#"[Command("$x=5")]"#);
    assert_eq!(
        parse("let m = {\n  a: 1\n}"),
        "[Let { name: \"m\", value: \"{\\na: 1\\n}\" }]"
    );
    assert_eq!(
        parse("$cfg = {\na\n}\n}"),
        "[Let { name: \"cfg\", value: \"{\\n$cfg = {\\na\\n}\\n}\" }]"
    );
}

#[test]
fn comment_and_directive_lines() {
    assert_eq!(parse("# hello"), "[]");
    assert_eq!(parse("// hello"), "[]");
    assert_eq!(parse("#!/usr/bin/alsh"), "[]");
    assert_eq!(parse("# comment\necho hi"), r#"[Command("echo hi")]"#);
    assert_eq!(parse("@main"), "[]");
    assert_eq!(parse("echo hi # note"), r#"[Command("echo hi ")]"#);
}

#[test]
fn blank_lines_parse_to_nothing() {
    assert_eq!(parse(""), "[]");
    assert_eq!(parse("\n\n   \n\t\n"), "[]");
}

#[test]
fn error_messages() {
    assert_eq!(parse("if $x == 1\necho hi"), "error: Expected one of: ELIF, ELSE, ENDIF");
    assert_eq!(parse("let = 5"), "error: LET syntax: missing variable name");
    assert_eq!(parse("let $x = 5"), "error: LET syntax: variable name must not start with '$'");
    assert_eq!(parse("let x"), "error: LET syntax: LET name = value");
    assert_eq!(parse("$x ="), "error: Assignment syntax: $var = expression");
    assert_eq!(parse("loop bogus 3 {\n}"), "error: Invalid loop specifier: bogus");
    assert_eq!(parse("switch $x {"), "error: SWITCH syntax: SWITCH ON expr {");
    assert_eq!(parse("scan $x {"), "error: SCAN syntax: SCAN [expr] OF EnumType {");
    assert_eq!(parse("while $x {\necho"), "error: Expected matching }");
    assert_eq!(parse("foreach x {"), "error: FOREACH syntax: FOREACH var IN iterable");
    assert_eq!(parse("for x {"), "error: FOR syntax: FOR var IN item1 item2 ...");
    assert_eq!(parse("for (a, b) {"), "error: FOR syntax: for(init, condition, update)");
    assert_eq!(parse("IF x\necho\nELIFX"), "error: Unexpected token in IF statement");
    assert_eq!(parse("try\nx"), "error: Expected one of: CATCH, ENDTRY");
    assert_eq!(parse("function foo(a"), "error: Invalid function parameter list");
    assert_eq!(parse("chain\nls"), "error: Expected '{' after CHAIN");
    assert_eq!(parse("chain {\nls"), "error: Expected matching '}' for CHAIN block");
    assert_eq!(parse("switch on $x\nred: a"), "error: Expected '{' after SWITCH header");
    assert_eq!(parse("if $a {\n} else x"), "error: Expected '{' after else");
}

#[test]
fn try_parse_reports_inputs_the_parser_does_not_accept() {
    let mut p = ControlFlowParser::new("loop");
    assert_eq!(format!("{:?}", p.try_parse()), r#"Some(Err("Expected one of: ENDLOOP"))"#);
    let mut p = ControlFlowParser::new("let x = {\n  a");
    assert!(p.try_parse().is_none());
    let mut p = ControlFlowParser::new("$cfg = {\na\n}");
    assert!(p.try_parse().is_none());
    let mut p = ControlFlowParser::new("echo ok");
    assert_eq!(format!("{:?}", p.try_parse()), r#"Some(Ok([Command("echo ok")]))"#);
}

#[test]
fn condition_precedence_and_quotes() {
    assert_eq!(cond("a AND b OR c"), r#"And(Command("a"), Or(Command("b"), Command("c")))"#);
    assert_eq!(cond("(x == 1)"), r#"Compare("x", Eq, "1")"#);
    assert_eq!(cond("$a && ($b || $c)"), r#"And(Command("$a"), Or(Command("$b"), Command("$c")))"#);
    assert_eq!(cond(r#"x == "a && b""#), r#"Compare("x", Eq, "\"a && b\"")"#);
    assert_eq!(cond("$x is not empty"), r#"IsNot("$x", "empty")"#);
    assert_eq!(cond("$n >= 10"), r#"Compare("$n", Ge, "10")"#);
    assert_eq!(cond("$n != 1"), r#"Compare("$n", Ne, "1")"#);
    assert_eq!(cond("$n <= 1"), r#"Compare("$n", Le, "1")"#);
    assert_eq!(cond("  test -f x  "), r#"Command("test -f x")"#);
}

#[test]
fn keywords_ignore_case_in_statements() {
    assert_eq!(parse("While $x {\n}"), r#"[While { condition: Command("$x"), body: [] }]"#);
    assert_eq!(parse("LET y = 1"), r#"[Let { name: "y", value: "1" }]"#);
}

#[test]
fn keywords_and_operators_fold_case_as_unicode_does() {
    assert_eq!(cond("$x ıs y"), r#"Is("$x", "y")"#);
    assert_eq!(cond("$é is not ü"), r#"IsNot("$é", "ü")"#);
    assert_eq!(
        parse("ıf $x == 1 {\necho a\n}"),
        r#"[If { condition: Compare("$x", Eq, "1"), then_block: [Command("echo a")], elif_blocks: [], else_block: None }]"#
    );
    assert_eq!(
        parse("foreach é ın $list {\necho $é\n}"),
        r#"[Foreach { var: "é", iterable: "$list", body: [Command("echo $é")] }]"#
    );
}

#[test]
fn reassignment_parses_as_let() {
    for rhs in ["5", "  $a + 1  ", "{ a }", "hello # note", "\"q # r\""] {
        let a = parse(&format!("$x = {}", rhs));
        let b = parse(&format!("let x = {}", rhs));
        assert_eq!(a, b);
        assert!(a.starts_with("[Let { name: \"x\""));
    }
}
