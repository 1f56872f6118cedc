use alshc::parser::{expand_env_vars, expand_tilde, parse_line, parse_pipeline, PipelineMode};

#[test]
fn words_and_quotes() {
    assert_eq!(parse_line("echo 'a b' \"c\" d"), vec!["echo", "a b", "c", "d"]);
    assert_eq!(parse_line("echo '' x"), vec!["echo", "x"]);
    assert_eq!(parse_line("   "), Vec::<String>::new());
}

#[test]
fn shell_pipeline_with_redirect_in_background() {
    let p = parse_pipeline("ls -l | grep x > out.txt &", None);
    assert!(p.background);
    assert_eq!(p.mode, PipelineMode::Shell);
    assert_eq!(p.commands.len(), 2);
    assert_eq!(p.commands[0].argv, vec!["ls", "-l"]);
    assert_eq!(p.commands[0].raw, "ls -l");
    assert_eq!(p.commands[0].stdout_redirect, None);
    assert_eq!(p.commands[1].argv, vec!["grep", "x"]);
    assert_eq!(p.commands[1].raw, "grep x > out.txt");
    assert_eq!(p.commands[1].stdout_redirect, Some(("out.txt".to_string(), false)));
}

#[test]
fn appending_redirect() {
    let p = parse_pipeline("echo hi >> log", None);
    assert!(!p.background);
    assert_eq!(p.commands[0].argv, vec!["echo", "hi"]);
    assert_eq!(p.commands[0].stdout_redirect, Some(("log".to_string(), true)));
}

#[test]
fn stream_pipeline() {
    let p = parse_pipeline("ls -> std::trim()", None);
    assert_eq!(p.mode, PipelineMode::Stream);
    assert_eq!(p.commands.len(), 2);
    assert_eq!(p.commands[0].argv, vec!["ls"]);
    assert_eq!(p.commands[1].argv, vec!["std::trim()"]);
}

#[test]
fn quoted_separators_do_not_split() {
    let p = parse_pipeline("echo 'a | b' | wc", None);
    assert_eq!(p.commands.len(), 2);
    assert_eq!(p.commands[0].argv, vec!["echo", "a | b"]);
}

#[test]
fn tilde_expansion() {
    let p = parse_pipeline("cat ~/f", Some("/home/u"));
    assert_eq!(p.commands[0].argv, vec!["cat", "/home/u/f"]);
    let mut argv = vec!["~".to_string(), "~/a".to_string(), "b~".to_string()];
    expand_tilde(&mut argv, Some("/h"));
    assert_eq!(argv, vec!["/h", "/h/a", "b~"]);
    let mut argv = vec!["~/a".to_string()];
    expand_tilde(&mut argv, None);
    assert_eq!(argv, vec!["~/a"]);
}

#[test]
fn env_var_expansion() {
    let vars = vec![("HOME".to_string(), "/h".to_string())];
    let mut argv = vec!["echo".to_string(), "${HOME}/x".to_string(), "plain".to_string()];
    expand_env_vars(&mut argv, &vars);
    assert_eq!(argv, vec!["echo", "/h/x", "plain"]);
    let mut argv = vec!["${NOPE}".to_string(), "$HOME".to_string()];
    expand_env_vars(&mut argv, &vars);
    assert_eq!(argv, vec!["$", "$HOME"]);
}

#[test]
fn parse_line_drops_comments() {
    assert_eq!(parse_line("echo hi # note"), vec!["echo", "hi"]);
    assert_eq!(parse_line("echo hi#note"), vec!["echo", "hi"]);
    assert_eq!(parse_line("echo '#not a comment'"), vec!["echo", "#not a comment"]);
    assert_eq!(parse_line("# all comment"), Vec::<String>::new());
}

#[test]
fn parse_line_keeps_a_bar_as_a_word() {
    assert_eq!(parse_line("ls | wc"), vec!["ls", "|", "wc"]);
    assert_eq!(parse_line("a|b"), vec!["a", "|", "b"]);
}

#[test]
fn stream_pieces_with_a_bar_and_a_comment() {
    let p = parse_pipeline("ls | wc -> upper # shout", None);
    assert_eq!(p.mode, PipelineMode::Stream);
    assert_eq!(p.commands.len(), 2);
    assert_eq!(p.commands[0].argv, vec!["ls", "|", "wc"]);
    assert_eq!(p.commands[1].argv, vec!["upper"]);
}

#[test]
fn plain_lines_split_at_whitespace() {
    let line = "  ls   -l\t/tmp  ";
    let expected: Vec<String> = line.split_whitespace().map(String::from).collect();
    assert_eq!(parse_line(line), expected);
}

#[test]
fn commands_have_words_and_redirects_only_last() {
    let p = parse_pipeline("echo hi >", None);
    assert_eq!(p.commands[0].argv, vec!["echo", "hi", ">"]);
    assert!(p.commands[0].stdout_redirect.is_none());
    let p = parse_pipeline("> out | wc", None);
    assert_eq!(p.commands.len(), 1);
    assert_eq!(p.commands[0].argv, vec!["wc"]);
    let p = parse_pipeline("a > x b >> y", None);
    assert_eq!(p.commands[0].argv, vec!["a", "b"]);
    assert_eq!(p.commands[0].stdout_redirect, Some(("y".to_string(), true)));
}
