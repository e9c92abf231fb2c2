use tmux_notify::text::{
    count_windows, is_among, is_white_space, parse_valid_panes, split_commas, trim,
};

#[test]
fn parse_valid_panes_splits_trims_and_drops_empty_parts() {
    assert_eq!(parse_valid_panes("%1,%2,%3"), vec!["%1", "%2", "%3"]);
    assert_eq!(parse_valid_panes(" %1 , %2,,%3 ,"), vec!["%1", "%2", "%3"]);
    assert_eq!(parse_valid_panes("%1"), vec!["%1"]);
    assert_eq!(parse_valid_panes("a b , c"), vec!["a b", "c"]);
}

#[test]
fn parse_valid_panes_of_nothing_is_empty() {
    assert!(parse_valid_panes("").is_empty());
    assert!(parse_valid_panes(" , ,\t,").is_empty());
}

#[test]
fn split_commas_gives_one_part_more_than_commas() {
    assert_eq!(split_commas(""), vec![""]);
    assert_eq!(split_commas(","), vec!["", ""]);
    assert_eq!(split_commas("a,,b"), vec!["a", "", "b"]);
    assert_eq!(split_commas(" a,b "), vec![" a", "b "]);
    assert_eq!(split_commas("é,ü"), vec!["é", "ü"]);
}

#[test]
fn trim_agrees_with_the_standard_library() {
    let samples = [
        "",
        " ",
        "a",
        "  a b \n",
        "\t\r\n x",
        "x\u{a0}",
        "\u{3000}y\u{2028}",
        "é ",
        "\u{85}a\u{1680}",
    ];
    for s in samples {
        assert_eq!(trim(s), s.trim());
    }
}

#[test]
fn white_space_is_what_the_standard_library_says() {
    let mut code = 0u32;
    while code <= 0x10ffff {
        if let Some(c) = char::from_u32(code) {
            assert_eq!(is_white_space(c), c.is_whitespace());
        }
        code += 1;
    }
}

#[test]
fn count_windows_counts_each_window_once() {
    let answers = vec![
        Some("@1\n".to_string()),
        Some("@2\n".to_string()),
        Some("@1\n".to_string()),
        None,
        Some("\n".to_string()),
        Some("".to_string()),
        Some(" @2 ".to_string()),
    ];
    assert_eq!(count_windows(&answers), 2);
}

#[test]
fn count_windows_of_no_answer_is_zero() {
    assert_eq!(count_windows(&vec![]), 0);
    assert_eq!(count_windows(&vec![None, None]), 0);
}

#[test]
fn is_among_finds_a_text_in_a_list() {
    let names = vec!["%1".to_string(), "%2".to_string()];
    assert!(is_among(&names, &"%2".to_string()));
    assert!(!is_among(&names, &"%".to_string()));
    assert!(!is_among(&[], &"%1".to_string()));
}
