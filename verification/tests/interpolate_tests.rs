use alshc::interpolate::{path_segments, splice_vars, var_refs};

#[test]
fn references_are_found_in_order() {
    assert_eq!(var_refs("hello $name"), vec!["name"]);
    assert_eq!(var_refs("echo $p.name and $x_1!"), vec!["p.name", "x_1"]);
    assert_eq!(var_refs("cost: 5$"), vec![""]);
    assert_eq!(var_refs("no refs"), Vec::<String>::new());
    assert_eq!(var_refs("$a$b"), vec!["a", "b"]);
    assert_eq!(var_refs("$été"), vec!["été"]);
}

#[test]
fn dotted_paths_split_like_str_split() {
    assert_eq!(path_segments("p.name"), vec!["p", "name"]);
    assert_eq!(path_segments("x"), vec!["x"]);
    assert_eq!(path_segments(""), vec![""]);
    assert_eq!(path_segments("a..b."), vec!["a", "", "b", ""]);
}

#[test]
fn values_are_spliced_in() {
    let vals = vec![Some("world".to_string())];
    assert_eq!(splice_vars("hello $name!", &vals), "hello world!");
    let vals = vec![Some("Ann".to_string()), None];
    assert_eq!(splice_vars("$p.name met $q", &vals), "Ann met $q");
}

#[test]
fn references_without_values_stay() {
    assert_eq!(splice_vars("hello $name", &vec![None]), "hello $name");
    assert_eq!(splice_vars("hello $name", &Vec::new()), "hello $name");
    assert_eq!(splice_vars("price 5$", &vec![None]), "price 5$");
    assert_eq!(splice_vars("plain text", &Vec::new()), "plain text");
}
