use compare_observer::rules::{
    add_column, broadcast_text, build_default_except, build_default_without, default_except,
    default_without, empty_row, remove_last_column, rules_from_vec,
};
use compare_observer::text::{
    chars_of, decimal_string, is_white_space_char, normalize_separators, split_lines,
    split_on_char, trim_str,
};
use compare_observer::watch::{event_for_change, is_excluded, ChangeKind, WatchEvent};

fn strings(v: &[&str]) -> Vec<String> {
    v.iter().map(|s| s.to_string()).collect()
}

#[test]
fn decimal_text_of_numbers() {
    assert_eq!(decimal_string(0), "0");
    assert_eq!(decimal_string(7), "7");
    assert_eq!(decimal_string(42), "42");
    assert_eq!(decimal_string(1000), "1000");
    assert_eq!(decimal_string(usize::MAX), usize::MAX.to_string());
}

#[test]
fn trim_removes_outer_whitespace() {
    assert_eq!(trim_str("  .git \t"), ".git");
    assert_eq!(trim_str("   "), "");
    assert_eq!(trim_str("a b"), "a b");
}

#[test]
fn trim_matches_std_on_unicode_whitespace() {
    let cases = [
        "\u{3000}x\u{a0}",
        "\u{85}\u{2028} mid dle \u{2029}\u{202f}",
        "\u{1680}\u{2000}\u{200a}\u{205f}",
        "\u{200b}zero width\u{200b}",
        "\r\n\x0b\x0cend",
        "",
        "no-space",
    ];
    for c in cases.iter() {
        assert_eq!(trim_str(c), c.trim(), "case {:?}", c);
    }
    assert_eq!(trim_str("\u{3000}x\u{a0}"), "x");
}

#[test]
fn white_space_agrees_with_char_is_whitespace() {
    for n in 0u32..0x3100 {
        if let Some(c) = char::from_u32(n) {
            assert_eq!(is_white_space_char(c), c.is_whitespace(), "U+{:04X}", n);
        }
    }
}

#[test]
fn chars_of_keeps_unicode() {
    assert_eq!(chars_of("aé🔔"), vec!['a', 'é', '🔔']);
}

#[test]
fn separators_are_normalised() {
    assert_eq!(normalize_separators("a\\b\\c.txt"), "a/b/c.txt");
    assert_eq!(normalize_separators("plain"), "plain");
    assert_eq!(normalize_separators("\\"), "/");
    assert_eq!(normalize_separators(""), "");
}

#[test]
fn lines_like_str_lines() {
    for s in ["", "a", "a\n", "a\nb", "a\r\nb\r\n", "\n\n", "x\ry", "a\n\nb", "end\r"] {
        let expected: Vec<String> = s.lines().map(|l| l.to_string()).collect();
        assert_eq!(split_lines(s), expected, "input {:?}", s);
    }
}

#[test]
fn split_like_str_split() {
    for s in ["", "a", "a\nb", "\n", "a\n\nb\n"] {
        let expected: Vec<String> = s.split('\n').map(|l| l.to_string()).collect();
        assert_eq!(split_on_char(s, '\n'), expected);
    }
}

#[test]
fn rule_matches_path_segment() {
    let rules = strings(&[".git"]);
    assert!(is_excluded("project/.git/config", &rules));
    assert!(is_excluded(".git", &rules));
    assert!(!is_excluded("project/.gitignore", &rules));
    assert!(!is_excluded("my.git/x", &rules));
}

#[test]
fn rules_are_trimmed_and_blank_rules_ignored() {
    let rules = strings(&["  ", " content "]);
    assert!(is_excluded("content/a.php", &rules));
    assert!(!is_excluded("contents/a.php", &rules));
    assert!(!is_excluded("a/ /b", &strings(&["   "])));
    assert!(!is_excluded("anything", &[]));
}

#[test]
fn default_rule_lists() {
    let w = default_without();
    assert_eq!(w.len(), 59);
    assert_eq!(w[0], "config");
    assert_eq!(w[58], "other");
    let e = default_except();
    assert_eq!(e, vec!["content", ".git", ".idea", "index.php", "test", "test_2", ".gitignore"]);
}

#[test]
fn default_tables_broadcast_across_columns() {
    let t = build_default_without(3);
    assert_eq!(t.len(), 59);
    assert!(t.iter().all(|r| r.len() == 3));
    assert_eq!(t[1], strings(&["config/include"; 3]));
    let e = build_default_except(0);
    assert_eq!(e.len(), 7);
    assert_eq!(e[1], strings(&[".git"]));
}

#[test]
fn rules_from_vec_rows_by_columns() {
    let t = rules_from_vec(&strings(&["a", "b"]), 2);
    assert_eq!(t, vec![strings(&["a", "a"]), strings(&["b", "b"])]);
    assert_eq!(rules_from_vec(&strings(&["x"]), 0), vec![strings(&["x"])]);
    assert!(rules_from_vec(&[], 4).is_empty());
    assert_eq!(broadcast_text("r", 3), strings(&["r", "r", "r"]));
}

#[test]
fn columns_are_added_and_removed() {
    let mut t = vec![strings(&["a", "b"]), strings(&[])];
    add_column(&mut t);
    assert_eq!(t, vec![strings(&["a", "b", ""]), strings(&[""])]);
    remove_last_column(&mut t);
    remove_last_column(&mut t);
    assert_eq!(t, vec![strings(&["a"]), strings(&[])]);
    assert_eq!(empty_row(2), strings(&["", ""]));
}

#[test]
fn change_kinds_become_events() {
    match event_for_change(ChangeKind::Create, 1, "a.txt".to_string()) {
        Some(WatchEvent::Created { system_index, path }) => {
            assert_eq!(system_index, 1);
            assert_eq!(path, "a.txt");
        }
        _ => panic!("expected Created"),
    }
    assert!(matches!(
        event_for_change(ChangeKind::Remove, 0, "a".to_string()),
        Some(WatchEvent::Deleted { .. })
    ));
    assert!(matches!(
        event_for_change(ChangeKind::Modify, 0, "a".to_string()),
        Some(WatchEvent::Modified { .. })
    ));
    assert!(event_for_change(ChangeKind::Other, 0, "a".to_string()).is_none());
    assert!(event_for_change(ChangeKind::Create, 0, String::new()).is_none());
}
