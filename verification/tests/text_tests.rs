use alshc::text::strip_inline_comment;

fn strip(s: &str) -> String {
    strip_inline_comment(&s.chars().collect()).into_iter().collect()
}

#[test]
fn inline_comments_are_stripped_outside_quotes() {
    assert_eq!(strip("echo \"a#b\" # c"), "echo \"a#b\" ");
    assert_eq!(strip("x // y"), "x ");
    assert_eq!(strip("'//' kept"), "'//' kept");
    assert_eq!(strip("# all"), "");
}

#[test]
fn stripping_gives_a_prefix_and_is_idempotent() {
    for line in ["echo hi # note", "a 'b # c' // d", "plain words", "x/y/z", "\"open # quote"] {
        let once = strip(line);
        assert!(line.starts_with(&once));
        assert_eq!(strip(&once), once);
    }
    assert_eq!(strip("x/y/z"), "x/y/z");
    assert_eq!(strip("\"open # quote"), "\"open # quote");
}
