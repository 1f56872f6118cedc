use alshc::diagnostics::ParseError;
use alshc::token_parser::Parser;

fn parse(src: &str) -> Result<String, ParseError> {
    let mut p = Parser::from_source(src)?;
    p.parse().map(|stmts| format!("{:?}", stmts))
}

fn parse_ok(src: &str) -> String {
    parse(src).expect("parser should succeed")
}

fn parse_err(src: &str) -> (String, usize, usize) {
    match parse(src) {
        Ok(s) => panic!("expected an error, got {}", s),
        Err(e) => (e.message, e.line, e.col),
    }
}

#[test]
fn c_call_with_a_string_literal_parses_into_a_c_call() {
    let source = "@main\nfunction main() int {\n    c::puts(\"hello\")\n    return 0;\n}";
    let mut parser = Parser::from_source(source).expect("lexer should succeed");
    let statements = parser.parse().expect("parser should succeed");
    assert_eq!(
        format!("{:?}", statements),
        "[FunctionDef { name: \"main\", params: [], body: [Expression(CCall(\"puts\", [Literal(Text(\"hello\"))])), Return { value: Some(Literal(Number(0))) }] }]"
    );
    assert!(!parser.has_main);
    assert_eq!(parser.main_function_name, None);
}

#[test]
fn main_function_marker_records_the_name() {
    let mut parser = Parser::from_source("MAIN_FUNCTION start(int a, b) noret { return }").unwrap();
    let statements = parser.parse().unwrap();
    assert_eq!(
        format!("{:?}", statements),
        "[FunctionDef { name: \"start\", params: [\"a\", \"b\"], body: [Return { value: None }] }]"
    );
    assert!(parser.has_main);
    assert_eq!(parser.main_function_name, Some("start".to_string()));
    assert!(!parser.just_run && !parser.noffi && !parser.use_stdlib);
}

#[test]
fn multiplication_binds_tighter_than_addition() {
    assert_eq!(
        parse_ok("let x = 1 + 2 * 3"),
        "[Let { name: \"x\", value: BinaryOp(Literal(Number(1)), Add, BinaryOp(Literal(Number(2)), Mul, Literal(Number(3)))) }]"
    );
}

#[test]
fn subtraction_groups_to_the_left() {
    assert_eq!(
        parse_ok("let y = 8 - 2 - 1"),
        "[Let { name: \"y\", value: BinaryOp(BinaryOp(Literal(Number(8)), Sub, Literal(Number(2))), Sub, Literal(Number(1))) }]"
    );
}

#[test]
fn unary_operators_and_parentheses() {
    assert_eq!(
        parse_ok("let z = -$v"),
        "[Let { name: \"z\", value: UnaryOp(Neg, Variable(\"v\")) }]"
    );
    assert_eq!(
        parse_ok("let b = !(1 + 2) * 3"),
        "[Let { name: \"b\", value: BinaryOp(UnaryOp(Not, BinaryOp(Literal(Number(1)), Add, Literal(Number(2)))), Mul, Literal(Number(3))) }]"
    );
}

#[test]
fn and_binds_tighter_than_or_in_conditions() {
    assert_eq!(
        parse_ok("if $a == 1 && $b < 2 || $c { }"),
        "[If { condition: Or(And(Compare(Variable(\"a\"), Eq, Literal(Number(1))), Compare(Variable(\"b\"), Lt, Literal(Number(2)))), Command(Variable(\"c\"))), then_block: [], elif_blocks: [], else_block: None }]"
    );
}

#[test]
fn elif_else_if_and_else_branches() {
    assert_eq!(
        parse_ok("if $x { } elif $y { break } else if $z { } else { continue }"),
        "[If { condition: Command(Variable(\"x\")), then_block: [], elif_blocks: [(Command(Variable(\"y\")), [Break { condition: None }]), (Command(Variable(\"z\")), [])], else_block: Some([Continue]) }]"
    );
}

#[test]
fn bare_name_before_a_brace_is_a_struct_literal() {
    let (m, line, col) = parse_err("if x { }");
    assert_eq!(m, "expected LBrace, found Eof");
    assert_eq!((line, col), (1, 9));
}

#[test]
fn c_style_for_loop() {
    assert_eq!(
        parse_ok("for (let i = 0, $i < 3, $i = $i + 1) { }"),
        "[ForLoop { init: Some(Literal(Number(0))), condition: Compare(Variable(\"i\"), Lt, Literal(Number(3))), update: Some(BinaryOp(Variable(\"i\"), Add, Literal(Number(1)))), body: [] }]"
    );
    assert_eq!(
        parse_ok("for (, $go, ) { }"),
        "[ForLoop { init: None, condition: Command(Variable(\"go\")), update: None, body: [] }]"
    );
}

#[test]
fn for_in_and_foreach_loops() {
    assert_eq!(
        parse_ok("for x in 1 2 $y { }"),
        "[For { var: \"x\", items: [Literal(Number(1)), Literal(Number(2)), Variable(\"y\")], body: [] }]"
    );
    assert_eq!(
        parse_ok("foreach item in $list { break }"),
        "[Foreach { var: \"item\", iterable: Variable(\"list\"), body: [Break { condition: None }] }]"
    );
}

#[test]
fn loop_with_count_or_interval() {
    assert_eq!(
        parse_ok("loop count 3 { break }"),
        "[Loop { count: Some(3), interval: None, body: [Break { condition: None }] }]"
    );
    assert_eq!(
        parse_ok("loop interval 5 { }"),
        "[Loop { count: None, interval: Some(5), body: [] }]"
    );
    assert_eq!(parse_ok("loop { }"), "[Loop { count: None, interval: None, body: [] }]");
    let (m, line, col) = parse_err("loop count x { }");
    assert_eq!(m, "expected number after 'count'");
    assert_eq!((line, col), (1, 12));
}

#[test]
fn missing_identifier_is_reported_at_its_token() {
    let (m, line, col) = parse_err("let = 5");
    assert_eq!(m, "expected identifier, found Eq");
    assert_eq!((line, col), (1, 5));
    let e = parse("let = 5").unwrap_err();
    assert_eq!(e.to_text(), "parse error at 1:5: expected identifier, found Eq");
}

#[test]
fn unclosed_block_is_reported_at_the_end() {
    let (m, line, col) = parse_err("if $x {");
    assert_eq!(m, "expected matching '}'");
    assert_eq!((line, col), (1, 8));
}

#[test]
fn expected_token_messages_show_the_token_found() {
    assert_eq!(parse_err("foreach x 5 { }").0, "expected In, found Number(5)");
    assert_eq!(parse_err("switch $x { }").0, "expected On, found Dollar");
    assert_eq!(parse_err("struct P { x int }").0, "expected Colon, found Ident(\"int\")");
    assert_eq!(parse_err("foreach x 'c'").0, "expected In, found Char('c')");
    assert_eq!(
        parse_err("foreach x \"a$b\"").0,
        "expected In, found Str([Literal(\"a\"), Var(\"b\")])"
    );
    assert_eq!(parse_err("let x = )").0, "unexpected token in expression: RParen");
    assert_eq!(parse_err("let x = )").2, 9);
}

#[test]
fn struct_enum_and_array_literals() {
    assert_eq!(
        parse_ok("let p = Point { x: 1, y: 2 }"),
        "[Let { name: \"p\", value: StructLiteral(\"Point\", [(\"x\", Literal(Number(1))), (\"y\", Literal(Number(2)))]) }]"
    );
    assert_eq!(
        parse_ok("let c = Color.Red"),
        "[Let { name: \"c\", value: EnumLiteral(\"Color\", \"Red\") }]"
    );
    assert_eq!(
        parse_ok("let a = [1, 2]"),
        "[Let { name: \"a\", value: Array([Literal(Number(1)), Literal(Number(2))]) }]"
    );
}

#[test]
fn string_literals_and_interpolation() {
    assert_eq!(
        parse_ok("let s = \"hi $name!\""),
        "[Let { name: \"s\", value: StringInterpolation([Literal(\"hi \"), Interpolation(Variable(\"name\")), Literal(\"!\")]) }]"
    );
    assert_eq!(parse_ok("let t = \"plain\""), "[Let { name: \"t\", value: Literal(Text(\"plain\")) }]");
    assert_eq!(parse_ok("let u = 'c'"), "[Let { name: \"u\", value: Literal(Text(\"c\")) }]");
    assert_eq!(parse_ok("let r = 'raw text'"), "[Let { name: \"r\", value: Literal(Text(\"raw text\")) }]");
    assert_eq!(parse_ok("let f = 1.5"), "[Let { name: \"f\", value: Literal(Float(\"1.5\")) }]");
    assert_eq!(parse_ok("let b = true"), "[Let { name: \"b\", value: Literal(Bool(true)) }]");
}

#[test]
fn switch_and_scan_branches() {
    assert_eq!(
        parse_ok("switch on $x { a: break default: continue }"),
        "[Switch { expr: Variable(\"x\"), branches: [(\"a\", [Break { condition: None }])], default_branch: Some([Continue]) }]"
    );
    assert_eq!(
        parse_ok("scan $v of Color { Red: break }"),
        "[Scan { expr: Some(Variable(\"v\")), enum_type: \"Color\", branches: [(\"Red\", [Break { condition: None }])] }]"
    );
    assert_eq!(
        parse_ok("scan of Color { }"),
        "[Scan { expr: None, enum_type: \"Color\", branches: [] }]"
    );
}

#[test]
fn chain_steps_with_the_placeholder() {
    assert_eq!(
        parse_ok("chain { f(1); g(2, @) }"),
        "[Chain { steps: [FunctionCall(\"f\", [Literal(Number(1))]), FunctionCall(\"g\", [Literal(Number(2)), Variable(\"@\")])] }]"
    );
}

#[test]
fn try_struct_enum_and_assignment_statements() {
    assert_eq!(
        parse_ok("try { break } catch { continue }"),
        "[Try { try_block: [Break { condition: None }], catch_block: Some([Continue]) }]"
    );
    assert_eq!(parse_ok("try { }"), "[Try { try_block: [], catch_block: None }]");
    assert_eq!(
        parse_ok("struct P { x: int, y: str }"),
        "[StructDef { name: \"P\", fields: [\"x\", \"y\"] }]"
    );
    assert_eq!(parse_ok("enum C { A, B }"), "[EnumDef { name: \"C\", variants: [\"A\", \"B\"] }]");
    assert_eq!(parse_ok("$p.x = 3;"), "[Let { name: \"p.x\", value: Literal(Number(3)) }]");
    assert_eq!(
        parse_ok("let const k = { 1 }"),
        "[Let { name: \"k\", value: Block([Expression(Literal(Number(1)))]) }]"
    );
}

#[test]
fn directives_are_skipped_everywhere() {
    assert_eq!(parse_ok("@main\n@define X 1"), "[]");
    assert_eq!(
        parse_ok("{ @define X 1\n break }"),
        "[Expression(Block([Break { condition: None }]))]"
    );
    assert_eq!(parse_ok(""), "[]");
}

#[test]
fn lexical_errors_become_parse_errors() {
    let e = Parser::from_source("let s = \"abc").err().expect("lexer should fail");
    assert_eq!(e.message, "unterminated string literal");
    assert_eq!(e.line, 1);
}

#[test]
fn every_input_gets_an_answer() {
    assert_eq!(parse_err("}"), ("unexpected token in expression: RBrace".to_string(), 1, 1));
    assert_eq!(parse_err(")"), ("unexpected token in expression: RParen".to_string(), 1, 1));
    assert_eq!(parse_err("let"), ("expected identifier, found Eof".to_string(), 1, 4));
    assert_eq!(parse_err("$"), ("expected identifier, found Eof".to_string(), 1, 2));
    assert_eq!(parse_err("else"), ("unexpected token in expression: Else".to_string(), 1, 1));
    assert_eq!(parse_err("(("), ("unexpected token in expression: Eof".to_string(), 1, 3));
    assert_eq!(
        parse_ok("a b c"),
        "[Expression(Variable(\"a\")), Expression(Variable(\"b\")), Expression(Variable(\"c\"))]"
    );
}

#[test]
fn try_from_source_answers_for_every_input() {
    assert!(Parser::try_from_source("é").is_none());
    let mut p = Parser::try_from_source("let x = 1").unwrap().unwrap();
    assert!(p.parse().is_ok());
    assert!(!p.has_main);
}

#[test]
fn parsing_stops_at_the_final_eof() {
    let mut p = Parser::from_source("let x = 1").unwrap();
    assert_eq!(p.parse().unwrap().len(), 1);
    assert_eq!(p.pos, p.tokens.len() - 1);
    assert!(p.parse().unwrap().is_empty());
    assert_eq!(p.pos, p.tokens.len() - 1);
}
