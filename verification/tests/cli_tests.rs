use alshc::cli::{compile_only, compile_stage_args, parse_cli_args};

fn args(v: &[&str]) -> Vec<String> {
    v.iter().map(|s| s.to_string()).collect()
}

#[test]
fn options_and_forwarded_arguments() {
    let o = parse_cli_args(&args(&["-d", "file.alsh", "-o", "out", "-O2", "--", "-x", "y", "-d"]));
    assert!(o.debug);
    assert!(!o.emit_ir && !o.emit_asm && !o.just_run && !o.dump_tokens);
    assert_eq!(o.input_file.as_deref(), Some("file.alsh"));
    assert_eq!(o.output_file.as_deref(), Some("out"));
    assert_eq!(o.clang_args, args(&["-O2", "-x", "y", "-d"]));
}

#[test]
fn flags_and_last_input_wins() {
    let o = parse_cli_args(&args(&["-S", "-ir", "--dump-tokens", "-jr", "a.alsh", "b.alsh"]));
    assert!(o.emit_asm && o.emit_ir && o.dump_tokens && o.just_run);
    assert_eq!(o.clang_args, args(&["-S"]));
    assert_eq!(o.input_file.as_deref(), Some("b.alsh"));
}

#[test]
fn output_flag_without_value_ends_reading() {
    let o = parse_cli_args(&args(&["a.alsh", "-o"]));
    assert_eq!(o.input_file.as_deref(), Some("a.alsh"));
    assert_eq!(o.output_file, None);
    let o = parse_cli_args(&args(&[]));
    assert_eq!(o.input_file, None);
}

#[test]
fn compile_stage_drops_output_and_compile_only() {
    assert_eq!(compile_stage_args(&args(&["-O2", "-o", "x", "-c", "-g"])), args(&["-O2", "-g"]));
    assert_eq!(compile_stage_args(&args(&["-o"])), Vec::<String>::new());
    assert!(compile_only(&args(&["-O2", "-c"])));
    assert!(!compile_only(&args(&["-O2"])));
}
