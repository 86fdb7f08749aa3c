use compare_observer::diff::{
    change_label, change_positions, compute_diff, next_change, previous_change, DiffKind, DiffLine,
};

fn kinds(lines: &[DiffLine]) -> Vec<DiffKind> {
    lines.iter().map(|l| l.kind).collect()
}

fn left_side(lines: &[DiffLine]) -> Vec<String> {
    lines.iter().filter(|l| l.kind != DiffKind::Added).map(|l| l.old_txt.clone()).collect()
}

fn right_side(lines: &[DiffLine]) -> Vec<String> {
    lines.iter().filter(|l| l.kind != DiffKind::Removed).map(|l| l.new_txt.clone()).collect()
}

#[test]
fn identical_texts_have_no_changes() {
    let d = compute_diff("a\nb\nc\n", "a\nb\nc");
    assert_eq!(kinds(&d), vec![DiffKind::Same; 3]);
    assert_eq!(d[2].old_no, Some(3));
    assert_eq!(d[2].new_no, Some(3));
    assert!(change_positions(&d).is_empty());
    assert_eq!(change_label(change_positions(&d).len()), "No changes");
}

#[test]
fn changed_line_is_paired() {
    let d = compute_diff("a\nb\nc", "a\nx\nc");
    assert_eq!(kinds(&d), vec![DiffKind::Same, DiffKind::Changed, DiffKind::Same]);
    assert_eq!(d[1].old_txt, "b");
    assert_eq!(d[1].new_txt, "x");
    assert_eq!(d[1].old_no, Some(2));
    assert_eq!(d[1].new_no, Some(2));
    assert_eq!(change_positions(&d), vec![1]);
}

#[test]
fn added_and_removed_lines() {
    let d = compute_diff("a\nc", "a\nb\nc");
    assert_eq!(kinds(&d), vec![DiffKind::Same, DiffKind::Added, DiffKind::Same]);
    assert_eq!(d[1].old_no, None);
    assert_eq!(d[1].new_no, Some(2));
    assert_eq!(d[2].old_no, Some(2));
    assert_eq!(d[2].new_no, Some(3));

    let d = compute_diff("a\nb\nc", "a\nc");
    assert_eq!(kinds(&d), vec![DiffKind::Same, DiffKind::Removed, DiffKind::Same]);
    assert_eq!(d[1].new_no, None);
    assert_eq!(d[1].new_txt, "");
}

#[test]
fn empty_sides() {
    let d = compute_diff("", "x\ny");
    assert_eq!(kinds(&d), vec![DiffKind::Added, DiffKind::Added]);
    let d = compute_diff("x\ny", "");
    assert_eq!(kinds(&d), vec![DiffKind::Removed, DiffKind::Removed]);
    assert!(compute_diff("", "").is_empty());
}

#[test]
fn diff_keeps_both_files() {
    let old = "one\ntwo\nthree\nfour\nfive\r\nsix";
    let new = "zero\none\n2\nthree\nfive\nsix\nseven\n";
    let d = compute_diff(old, new);
    let old_lines: Vec<String> = old.lines().map(|l| l.to_string()).collect();
    let new_lines: Vec<String> = new.lines().map(|l| l.to_string()).collect();
    assert_eq!(left_side(&d), old_lines);
    assert_eq!(right_side(&d), new_lines);
}

#[test]
fn change_groups_start_after_same_rows() {
    let d = compute_diff("a\nb\nc\nd\ne", "a\nB\nC\nd\nE");
    assert_eq!(kinds(&d)[0], DiffKind::Same);
    let pos = change_positions(&d);
    assert_eq!(pos, vec![1, 4]);
    assert_eq!(change_label(pos.len()), "2 changes");
    assert_eq!(change_label(1), "1 change");
    assert_eq!(change_label(12), "12 changes");
}

#[test]
fn change_navigation_wraps() {
    assert_eq!(next_change(0, 3), 1);
    assert_eq!(next_change(2, 3), 0);
    assert_eq!(next_change(0, 0), 0);
    assert_eq!(previous_change(0, 3), 2);
    assert_eq!(previous_change(2, 3), 1);
    assert_eq!(previous_change(0, 0), 0);
}

#[test]
fn change_navigation_round_trip() {
    for count in 1..5usize {
        for c in 0..count {
            let n = next_change(c, count);
            let p = previous_change(c, count);
            assert!(n < count && p < count);
            assert_eq!(previous_change(n, count), c);
            assert_eq!(next_change(p, count), c);
        }
    }
}

#[test]
fn panes_number_lines_in_order() {
    let old = "a\nb\nc\nd";
    let new = "x\na\nc\ne\nf";
    let d = compute_diff(old, new);
    let old_nos: Vec<usize> = d.iter().filter_map(|l| l.old_no).collect();
    let new_nos: Vec<usize> = d.iter().filter_map(|l| l.new_no).collect();
    assert_eq!(old_nos, vec![1, 2, 3, 4]);
    assert_eq!(new_nos, vec![1, 2, 3, 4, 5]);
    let old_lines: Vec<&str> = old.lines().collect();
    let new_lines: Vec<&str> = new.lines().collect();
    for l in d.iter() {
        assert_eq!(l.kind == DiffKind::Added, l.old_no.is_none());
        assert_eq!(l.kind == DiffKind::Removed, l.new_no.is_none());
        if let Some(x) = l.old_no {
            assert_eq!(l.old_txt, old_lines[x - 1]);
        }
        if let Some(y) = l.new_no {
            assert_eq!(l.new_txt, new_lines[y - 1]);
        }
    }
}

#[test]
fn same_rows_count_longest_common_lines() {
    // "a", "c" is a longest common subsequence of the two line lists.
    let d = compute_diff("a\nb\nc\nd", "x\na\nc\ne\nf");
    let same = d.iter().filter(|l| l.kind == DiffKind::Same).count();
    assert_eq!(same, 2);
    let d2 = compute_diff("1\n2\n3\n4\n5", "5\n4\n3\n2\n1");
    assert_eq!(d2.iter().filter(|l| l.kind == DiffKind::Same).count(), 1);
}
