use vstd::prelude::*;
use vstd::string::*;
use crate::text::{split_lines, lines_of, decimal_string, decimal_text};

verus! {

/// How a row of the side-by-side diff relates the two files.
#[derive(Clone, Copy, PartialEq, Eq, Structural, Debug)]
pub enum DiffKind {
    Same,
    Added,
    Removed,
    Changed,
}

/// One row of the side-by-side diff.
#[derive(Clone)]
pub struct DiffLine {
    /// Line number in the old file (1-based).
    pub old_no: Option<usize>,
    /// Line number in the new file (1-based).
    pub new_no: Option<usize>,
    pub old_txt: String,
    pub new_txt: String,
    pub kind: DiffKind,
}

/// The mathematical content of a diff row.
pub struct DiffRow {
    pub old_no: Option<nat>,
    pub new_no: Option<nat>,
    pub old_txt: Seq<char>,
    pub new_txt: Seq<char>,
    pub kind: DiffKind,
}

pub open spec fn opt_nat(o: Option<usize>) -> Option<nat> {
    match o {
        Some(n) => Some(n as nat),
        None => None,
    }
}

impl View for DiffLine {
    type V = DiffRow;

    open spec fn view(&self) -> DiffRow {
        DiffRow {
            old_no: opt_nat(self.old_no),
            new_no: opt_nat(self.new_no),
            old_txt: self.old_txt@,
            new_txt: self.new_txt@,
            kind: self.kind,
        }
    }
}

/// The rows held by a list of diff lines.
pub open spec fn rows_of(lines: Seq<DiffLine>) -> Seq<DiffRow> {
    lines.map_values(|l: DiffLine| l@)
}

/// Length of a longest common subsequence of `a[i..]` and `b[j..]`.
pub open spec fn lcs_len(a: Seq<Seq<char>>, b: Seq<Seq<char>>, i: int, j: int) -> nat
    decreases a.len() - i + b.len() - j,
{
    if i < 0 || j < 0 || i >= a.len() || j >= b.len() {
        0
    } else if a[i] == b[j] {
        lcs_len(a, b, i + 1, j + 1) + 1
    } else {
        let x = lcs_len(a, b, i + 1, j);
        let y = lcs_len(a, b, i, j + 1);
        if x >= y {
            x
        } else {
            y
        }
    }
}

/// The rows of the diff of `a[i..]` against `b[j..]`, in the order the table
/// shows them. Equal lines pair up as `Same`; where dropping the old line
/// keeps the longest common subsequence, a line that can be paired with the
/// next new line without losing common lines shows as `Changed`, otherwise as
/// `Removed`; the remaining new lines show as `Added`. Line numbers are 1-based.
pub open spec fn diff_rows(a: Seq<Seq<char>>, b: Seq<Seq<char>>, i: int, j: int) -> Seq<DiffRow>
    decreases a.len() - i + b.len() - j,
{
    let n = a.len() as int;
    let m = b.len() as int;
    if i < 0 || j < 0 || i > n || j > m || (i == n && j == m) {
        Seq::empty()
    } else if i < n && j < m && a[i] == b[j] {
        seq![
            DiffRow {
                old_no: Some((i + 1) as nat),
                new_no: Some((j + 1) as nat),
                old_txt: a[i],
                new_txt: b[j],
                kind: DiffKind::Same,
            },
        ] + diff_rows(a, b, i + 1, j + 1)
    } else if i < n && (j >= m || lcs_len(a, b, i + 1, j) >= lcs_len(a, b, i, j + 1)) {
        if j < m && lcs_len(a, b, i + 1, j + 1) == lcs_len(a, b, i + 1, j) && lcs_len(
            a,
            b,
            i + 1,
            j + 1,
        ) == lcs_len(a, b, i, j + 1) {
            seq![
                DiffRow {
                    old_no: Some((i + 1) as nat),
                    new_no: Some((j + 1) as nat),
                    old_txt: a[i],
                    new_txt: b[j],
                    kind: DiffKind::Changed,
                },
            ] + diff_rows(a, b, i + 1, j + 1)
        } else {
            seq![
                DiffRow {
                    old_no: Some((i + 1) as nat),
                    new_no: None,
                    old_txt: a[i],
                    new_txt: Seq::empty(),
                    kind: DiffKind::Removed,
                },
            ] + diff_rows(a, b, i + 1, j)
        }
    } else {
        seq![
            DiffRow {
                old_no: None,
                new_no: Some((j + 1) as nat),
                old_txt: Seq::empty(),
                new_txt: b[j],
                kind: DiffKind::Added,
            },
        ] + diff_rows(a, b, i, j + 1)
    }
}

/// The diff of two file texts, line by line.
pub open spec fn diff_of(old: Seq<char>, new: Seq<char>) -> Seq<DiffRow> {
    diff_rows(lines_of(old), lines_of(new), 0, 0)
}

pub proof fn lemma_lcs_bound(a: Seq<Seq<char>>, b: Seq<Seq<char>>, i: int, j: int)
    requires
        0 <= i <= a.len(),
        0 <= j <= b.len(),
    ensures
        lcs_len(a, b, i, j) <= a.len() - i,
    decreases a.len() - i + b.len() - j,
{
    if i < a.len() && j < b.len() {
        lemma_lcs_bound(a, b, i + 1, j + 1);
        lemma_lcs_bound(a, b, i + 1, j);
        lemma_lcs_bound(a, b, i, j + 1);
    }
}

/// A row of zeros of length `m + 1`.
fn zero_row(m: usize) -> (row: Vec<usize>)
    ensures
        row@.len() == m + 1,
        forall|l: int| 0 <= l <= m ==> row@[l] == 0,
{
    let mut row: Vec<usize> = Vec::new();
    let mut k: usize = 0;
    while k < m
        invariant
            k <= m,
            row@.len() == k,
            forall|l: int| 0 <= l < k ==> row@[l] == 0,
        decreases m - k,
    {
        row.push(0);
        k = k + 1;
    }
    row.push(0);
    row
}

/// The table of longest-common-subsequence lengths of all suffix pairs:
/// `table[i][j] == lcs_len(a, b, i, j)` for `i <= a.len()`, `j <= b.len()`.
fn lcs_table(a: &Vec<String>, b: &Vec<String>) -> (table: Vec<Vec<usize>>)
    ensures
        table@.len() == a@.len() + 1,
        forall|i: int|
            #![trigger table@[i]]
            0 <= i <= a@.len() ==> table@[i]@.len() == b@.len() + 1 && forall|j: int|
                0 <= j <= b@.len() ==> table@[i]@[j] == lcs_len(
                    a.deep_view(),
                    b.deep_view(),
                    i,
                    j,
                ),
{
    let ghost av = a.deep_view();
    let ghost bv = b.deep_view();
    let n = a.len();
    let m = b.len();
    let mut table: Vec<Vec<usize>> = Vec::new();
    let mut k: usize = 0;
    while k < n
        invariant
            k <= n,
            table@.len() == k,
        decreases n - k,
    {
        table.push(Vec::new());
        k = k + 1;
    }
    table.push(zero_row(m));
    let mut i: usize = n;
    while i > 0
        invariant
            n == a@.len(),
            m == b@.len(),
            av == a.deep_view(),
            bv == b.deep_view(),
            i <= n,
            table@.len() == n + 1,
            forall|r: int|
                #![trigger table@[r]]
                i <= r <= n ==> table@[r]@.len() == m + 1 && forall|l: int|
                    0 <= l <= m ==> table@[r]@[l] == lcs_len(av, bv, r, l),
        decreases i,
    {
        i = i - 1;
        let mut row = zero_row(m);
        let mut j: usize = m;
        let ghost nr = table@[i + 1]@;
        assert(nr.len() == m + 1);
        while j > 0
            invariant
                n == a@.len(),
                m == b@.len(),
                av == a.deep_view(),
                bv == b.deep_view(),
                i < n,
                j <= m,
                row@.len() == m + 1,
                table@.len() == n + 1,
                nr == table@[i + 1]@,
                nr.len() == m + 1,
                forall|l: int| 0 <= l <= m ==> #[trigger] nr[l] == lcs_len(av, bv, i + 1, l),
                forall|l: int| j <= l <= m ==> #[trigger] row@[l] == lcs_len(av, bv, i as int, l),
            decreases j,
        {
            j = j - 1;
            proof {
                lemma_lcs_bound(av, bv, i + 1, j + 1);
                assert(av[i as int] == a@[i as int]@);
                assert(bv[j as int] == b@[j as int]@);
            }
            let v = if a[i] == b[j] {
                table[i + 1][j + 1] + 1
            } else {
                let x = table[i + 1][j];
                let y = row[j + 1];
                if x >= y {
                    x
                } else {
                    y
                }
            };
            row.set(j, v);
        }
        proof {
            assert(row@[m as int] == 0);
            assert(lcs_len(av, bv, i as int, m as int) == 0);
        }
        table.set(i, row);
    }
    table
}

/// Side-by-side line diff of `old` against `new`, built from a table of
/// longest-common-subsequence lengths.
pub fn compute_diff(old: &str, new: &str) -> (result: Vec<DiffLine>)
    ensures
        rows_of(result@) == diff_of(old@, new@),
{
    let old_lines = split_lines(old);
    let new_lines = split_lines(new);
    let ghost a = old_lines.deep_view();
    let ghost b = new_lines.deep_view();
    let n = old_lines.len();
    let m = new_lines.len();
    let dp = lcs_table(&old_lines, &new_lines);
    let mut result: Vec<DiffLine> = Vec::new();
    let mut i: usize = 0;
    let mut j: usize = 0;
    while i < n || j < m
        invariant
            n == old_lines@.len(),
            m == new_lines@.len(),
            a == old_lines.deep_view(),
            b == new_lines.deep_view(),
            i <= n,
            j <= m,
            dp@.len() == n + 1,
            forall|r: int|
                #![trigger dp@[r]]
                0 <= r <= n ==> dp@[r]@.len() == m + 1 && forall|l: int|
                    0 <= l <= m ==> dp@[r]@[l] == lcs_len(a, b, r, l),
            rows_of(result@) + diff_rows(a, b, i as int, j as int) == diff_rows(a, b, 0, 0),
        decreases n - i + m - j,
    {
        let ghost before = rows_of(result@);
        let ghost ii = i as int;
        let ghost jj = j as int;
        if i < n && j < m && old_lines[i] == new_lines[j] {
            proof {
                assert(a[ii] == old_lines@[ii]@);
                assert(b[jj] == new_lines@[jj]@);
            }
            let line = DiffLine {
                old_no: Some(i + 1),
                new_no: Some(j + 1),
                old_txt: old_lines[i].clone(),
                new_txt: new_lines[j].clone(),
                kind: DiffKind::Same,
            };
            result.push(line);
            i = i + 1;
            j = j + 1;
        } else if i < n && (j >= m || dp[i + 1][j] >= dp[i][j + 1]) {
            proof {
                assert(a[ii] == old_lines@[ii]@);
                if jj < m {
                    assert(b[jj] == new_lines@[jj]@);
                }
            }
            if j < m && dp[i + 1][j + 1] == dp[i + 1][j] && dp[i + 1][j + 1] == dp[i][j + 1] {
                let line = DiffLine {
                    old_no: Some(i + 1),
                    new_no: Some(j + 1),
                    old_txt: old_lines[i].clone(),
                    new_txt: new_lines[j].clone(),
                    kind: DiffKind::Changed,
                };
                result.push(line);
                i = i + 1;
                j = j + 1;
            } else {
                let line = DiffLine {
                    old_no: Some(i + 1),
                    new_no: None,
                    old_txt: old_lines[i].clone(),
                    new_txt: String::new(),
                    kind: DiffKind::Removed,
                };
                result.push(line);
                i = i + 1;
            }
        } else {
            proof {
                assert(b[jj] == new_lines@[jj]@);
                if ii < n {
                    assert(a[ii] == old_lines@[ii]@);
                }
            }
            let line = DiffLine {
                old_no: None,
                new_no: Some(j + 1),
                old_txt: String::new(),
                new_txt: new_lines[j].clone(),
                kind: DiffKind::Added,
            };
            result.push(line);
            j = j + 1;
        }
        proof {
            let step = diff_rows(a, b, ii, jj);
            let rest = diff_rows(a, b, i as int, j as int);
            assert(step == seq![result@.last()@] + rest);
            assert(rows_of(result@) =~= before.push(result@.last()@));
            assert(rows_of(result@) + rest =~= before + step);
        }
    }
    proof {
        assert(diff_rows(a, b, n as int, m as int) =~= Seq::<DiffRow>::empty());
        assert(rows_of(result@) =~= rows_of(result@) + diff_rows(a, b, n as int, m as int));
    }
    result
}


/// The old file's lines as the left pane shows them (rows of `Added` lines
/// leave the left pane empty).
pub open spec fn old_side(rows: Seq<DiffRow>) -> Seq<Seq<char>>
    decreases rows.len(),
{
    if rows.len() == 0 {
        Seq::empty()
    } else {
        let rest = old_side(rows.drop_first());
        if rows[0].kind == DiffKind::Added {
            rest
        } else {
            seq![rows[0].old_txt] + rest
        }
    }
}

/// The new file's lines as the right pane shows them (rows of `Removed` lines
/// leave the right pane empty).
pub open spec fn new_side(rows: Seq<DiffRow>) -> Seq<Seq<char>>
    decreases rows.len(),
{
    if rows.len() == 0 {
        Seq::empty()
    } else {
        let rest = new_side(rows.drop_first());
        if rows[0].kind == DiffKind::Removed {
            rest
        } else {
            seq![rows[0].new_txt] + rest
        }
    }
}

proof fn lemma_diff_sides(a: Seq<Seq<char>>, b: Seq<Seq<char>>, i: int, j: int)
    requires
        0 <= i <= a.len(),
        0 <= j <= b.len(),
    ensures
        old_side(diff_rows(a, b, i, j)) == a.subrange(i, a.len() as int),
        new_side(diff_rows(a, b, i, j)) == b.subrange(j, b.len() as int),
    decreases a.len() - i + b.len() - j,
{
    let n = a.len() as int;
    let m = b.len() as int;
    let d = diff_rows(a, b, i, j);
    if i == n && j == m {
        assert(a.subrange(i, n) =~= Seq::<Seq<char>>::empty());
        assert(b.subrange(j, m) =~= Seq::<Seq<char>>::empty());
    } else {
        if i < n {
            assert(a.subrange(i, n) =~= seq![a[i]] + a.subrange(i + 1, n));
        }
        if j < m {
            assert(b.subrange(j, m) =~= seq![b[j]] + b.subrange(j + 1, m));
        }
        if i < n && j < m && a[i] == b[j] {
            lemma_diff_sides(a, b, i + 1, j + 1);
            assert(d.drop_first() =~= diff_rows(a, b, i + 1, j + 1));
        } else if i < n && (j >= m || lcs_len(a, b, i + 1, j) >= lcs_len(a, b, i, j + 1)) {
            if j < m && lcs_len(a, b, i + 1, j + 1) == lcs_len(a, b, i + 1, j) && lcs_len(
                a,
                b,
                i + 1,
                j + 1,
            ) == lcs_len(a, b, i, j + 1) {
                lemma_diff_sides(a, b, i + 1, j + 1);
                assert(d.drop_first() =~= diff_rows(a, b, i + 1, j + 1));
            } else {
                lemma_diff_sides(a, b, i + 1, j);
                assert(d.drop_first() =~= diff_rows(a, b, i + 1, j));
            }
        } else {
            lemma_diff_sides(a, b, i, j + 1);
            assert(d.drop_first() =~= diff_rows(a, b, i, j + 1));
        }
    }
}

/// The diff loses no line and invents none: reading the left pane top to
/// bottom, skipping blank `Added` rows, gives exactly the old file's lines,
/// and reading the right pane, skipping blank `Removed` rows, gives exactly
/// the new file's lines.
pub proof fn law_diff_keeps_both_files(old: Seq<char>, new: Seq<char>)
    ensures
        old_side(diff_of(old, new)) == lines_of(old),
        new_side(diff_of(old, new)) == lines_of(new),
{
    let a = lines_of(old);
    let b = lines_of(new);
    lemma_diff_sides(a, b, 0, 0);
    assert(a.subrange(0, a.len() as int) =~= a);
    assert(b.subrange(0, b.len() as int) =~= b);
}

proof fn lemma_diff_of_equal(a: Seq<Seq<char>>, i: int)
    requires
        0 <= i <= a.len(),
    ensures
        forall|k: int|
            0 <= k < diff_rows(a, a, i, i).len() ==> (#[trigger] diff_rows(a, a, i, i)[k]).kind
                == DiffKind::Same,
        diff_rows(a, a, i, i).len() == a.len() - i,
    decreases a.len() - i,
{
    if i < a.len() {
        lemma_diff_of_equal(a, i + 1);
        let d = diff_rows(a, a, i, i);
        let rest = diff_rows(a, a, i + 1, i + 1);
        assert forall|k: int| 0 <= k < d.len() implies (#[trigger] d[k]).kind == DiffKind::Same by {
            if k > 0 {
                assert(d[k] == rest[k - 1]);
            }
        }
    }
}

/// Comparing a text with itself shows every line as `Same`, one row per line.
pub proof fn law_diff_of_identical_texts(text: Seq<char>)
    ensures
        diff_of(text, text).len() == lines_of(text).len(),
        forall|k: int|
            0 <= k < diff_of(text, text).len() ==> (#[trigger] diff_of(text, text)[k]).kind
                == DiffKind::Same,
{
    lemma_diff_of_equal(lines_of(text), 0);
}

/// The old-file line numbers shown in the left pane, top to bottom.
pub open spec fn old_numbers(rows: Seq<DiffRow>) -> Seq<nat>
    decreases rows.len(),
{
    if rows.len() == 0 {
        Seq::empty()
    } else {
        let rest = old_numbers(rows.drop_first());
        match rows[0].old_no {
            Some(x) => seq![x] + rest,
            None => rest,
        }
    }
}

/// The new-file line numbers shown in the right pane, top to bottom.
pub open spec fn new_numbers(rows: Seq<DiffRow>) -> Seq<nat>
    decreases rows.len(),
{
    if rows.len() == 0 {
        Seq::empty()
    } else {
        let rest = new_numbers(rows.drop_first());
        match rows[0].new_no {
            Some(y) => seq![y] + rest,
            None => rest,
        }
    }
}

/// The numbers `from, from + 1, ..., to` (empty when `to < from`).
pub open spec fn numbers_from(from: int, to: int) -> Seq<nat> {
    Seq::new(if to < from { 0 } else { (to - from + 1) as nat }, |k: int| (from + k) as nat)
}

/// A row of the diff of line lists `a` and `b` shows a number on a side
/// exactly when it shows a line there (the left pane is blank for `Added`
/// rows, the right pane for `Removed` rows), and a shown number `x` labels
/// line `x` of that file; a `Same` row shows the same text on both sides.
pub open spec fn row_agrees(a: Seq<Seq<char>>, b: Seq<Seq<char>>, r: DiffRow) -> bool {
    &&& (r.kind == DiffKind::Added) == (r.old_no is None)
    &&& (r.kind == DiffKind::Removed) == (r.new_no is None)
    &&& (r.old_no matches Some(x) ==> 1 <= x <= a.len() && r.old_txt == a[x - 1])
    &&& (r.new_no matches Some(y) ==> 1 <= y <= b.len() && r.new_txt == b[y - 1])
    &&& (r.kind == DiffKind::Same ==> r.old_txt == r.new_txt)
}

proof fn lemma_diff_numbering(a: Seq<Seq<char>>, b: Seq<Seq<char>>, i: int, j: int)
    requires
        0 <= i <= a.len(),
        0 <= j <= b.len(),
    ensures
        old_numbers(diff_rows(a, b, i, j)) == numbers_from(i + 1, a.len() as int),
        new_numbers(diff_rows(a, b, i, j)) == numbers_from(j + 1, b.len() as int),
        forall|k: int|
            0 <= k < diff_rows(a, b, i, j).len() ==> row_agrees(a, b, #[trigger] diff_rows(a, b, i, j)[k]),
    decreases a.len() - i + b.len() - j,
{
    let n = a.len() as int;
    let m = b.len() as int;
    let d = diff_rows(a, b, i, j);
    if i == n && j == m {
        assert(numbers_from(i + 1, n) =~= Seq::<nat>::empty());
        assert(numbers_from(j + 1, m) =~= Seq::<nat>::empty());
    } else {
        let (ni, nj) = if i < n && j < m && a[i] == b[j] {
            (i + 1, j + 1)
        } else if i < n && (j >= m || lcs_len(a, b, i + 1, j) >= lcs_len(a, b, i, j + 1)) {
            if j < m && lcs_len(a, b, i + 1, j + 1) == lcs_len(a, b, i + 1, j) && lcs_len(
                a,
                b,
                i + 1,
                j + 1,
            ) == lcs_len(a, b, i, j + 1) {
                (i + 1, j + 1)
            } else {
                (i + 1, j)
            }
        } else {
            (i, j + 1)
        };
        lemma_diff_numbering(a, b, ni, nj);
        let rest = diff_rows(a, b, ni, nj);
        assert(d.drop_first() =~= rest);
        if ni == i + 1 {
            assert(numbers_from(i + 1, n) =~= seq![(i + 1) as nat] + numbers_from(i + 2, n));
        } else {
            assert(ni == i);
        }
        if nj == j + 1 {
            assert(numbers_from(j + 1, m) =~= seq![(j + 1) as nat] + numbers_from(j + 2, m));
        } else {
            assert(nj == j);
        }
        assert forall|k: int| 0 <= k < d.len() implies row_agrees(a, b, #[trigger] d[k]) by {
            if k > 0 {
                assert(d[k] == rest[k - 1]);
            }
        }
    }
}

/// Line numbering of the two panes: the left pane numbers the old file's
/// lines 1, 2, ... and the right pane the new file's, each in order with
/// none skipped or repeated; a row is blank on the left exactly when it is
/// `Added` and blank on the right exactly when it is `Removed`, and each
/// shown number labels that line of its file.
pub proof fn law_diff_line_numbers(old: Seq<char>, new: Seq<char>)
    ensures
        old_numbers(diff_of(old, new)) == numbers_from(1, lines_of(old).len() as int),
        new_numbers(diff_of(old, new)) == numbers_from(1, lines_of(new).len() as int),
        forall|k: int|
            0 <= k < diff_of(old, new).len() ==> row_agrees(
                lines_of(old),
                lines_of(new),
                #[trigger] diff_of(old, new)[k],
            ),
{
    lemma_diff_numbering(lines_of(old), lines_of(new), 0, 0);
}

/// Row `r` is the row that the diff shows after `i` old lines and `j` new
/// lines have been shown above it.
spec fn row_at(a: Seq<Seq<char>>, b: Seq<Seq<char>>, i: int, j: int, r: DiffRow) -> bool {
    let n = a.len() as int;
    let m = b.len() as int;
    &&& 0 <= i <= n && 0 <= j <= m && (i < n || j < m)
    &&& (r.old_no is Some ==> r.old_no == Some((i + 1) as nat))
    &&& (r.new_no is Some ==> r.new_no == Some((j + 1) as nat))
    &&& (i < n && j < m && a[i] == b[j] ==> r.kind == DiffKind::Same)
    &&& (i < n && j < m && a[i] != b[j] && lcs_len(a, b, i + 1, j + 1) == lcs_len(a, b, i + 1, j)
        && lcs_len(a, b, i + 1, j + 1) == lcs_len(a, b, i, j + 1) ==> r.kind == DiffKind::Changed)
    &&& (i < n && j < m && a[i] != b[j] && lcs_len(a, b, i + 1, j) < lcs_len(a, b, i, j + 1)
        ==> r.kind == DiffKind::Added)
    &&& (i < n && j < m && a[i] != b[j] && lcs_len(a, b, i + 1, j) >= lcs_len(a, b, i, j + 1)
        && !(lcs_len(a, b, i + 1, j + 1) == lcs_len(a, b, i + 1, j) && lcs_len(a, b, i + 1, j + 1)
        == lcs_len(a, b, i, j + 1)) ==> r.kind == DiffKind::Removed)
    &&& (i < n && j == m ==> r.kind == DiffKind::Removed)
    &&& (i == n && j < m ==> r.kind == DiffKind::Added)
}

proof fn lemma_rows_at(a: Seq<Seq<char>>, b: Seq<Seq<char>>, i0: int, j0: int)
    requires
        0 <= i0 <= a.len(),
        0 <= j0 <= b.len(),
    ensures
        forall|k: int|
            0 <= k < diff_rows(a, b, i0, j0).len() ==> row_at(
                a,
                b,
                i0 + old_numbers(diff_rows(a, b, i0, j0).take(k)).len(),
                j0 + new_numbers(diff_rows(a, b, i0, j0).take(k)).len(),
                #[trigger] diff_rows(a, b, i0, j0)[k],
            ),
    decreases a.len() - i0 + b.len() - j0,
{
    let n = a.len() as int;
    let m = b.len() as int;
    let d = diff_rows(a, b, i0, j0);
    if !(i0 == n && j0 == m) {
        let i = i0;
        let j = j0;
        let (ni, nj) = if i < n && j < m && a[i] == b[j] {
            (i + 1, j + 1)
        } else if i < n && (j >= m || lcs_len(a, b, i + 1, j) >= lcs_len(a, b, i, j + 1)) {
            if j < m && lcs_len(a, b, i + 1, j + 1) == lcs_len(a, b, i + 1, j) && lcs_len(
                a,
                b,
                i + 1,
                j + 1,
            ) == lcs_len(a, b, i, j + 1) {
                (i + 1, j + 1)
            } else {
                (i + 1, j)
            }
        } else {
            (i, j + 1)
        };
        lemma_rows_at(a, b, ni, nj);
        let rest = diff_rows(a, b, ni, nj);
        assert(d.drop_first() =~= rest);
        let r0 = d[0];
        assert(ni == i0 + (if r0.old_no is Some { 1int } else { 0int }));
        assert(nj == j0 + (if r0.new_no is Some { 1int } else { 0int }));
        assert(d.take(0) =~= Seq::<DiffRow>::empty());
        assert(row_at(a, b, i0, j0, r0));
        assert forall|k: int| 0 <= k < d.len() implies row_at(
            a,
            b,
            i0 + old_numbers(d.take(k)).len(),
            j0 + new_numbers(d.take(k)).len(),
            #[trigger] d[k],
        ) by {
            if k > 0 {
                let t = d.take(k);
                assert(t.drop_first() =~= rest.take(k - 1));
                assert(t[0] == r0);
                assert(d[k] == rest[k - 1]);
                assert(old_numbers(t).len() == (if r0.old_no is Some { 1int } else { 0int })
                    + old_numbers(rest.take(k - 1)).len());
                assert(new_numbers(t).len() == (if r0.new_no is Some { 1int } else { 0int })
                    + new_numbers(rest.take(k - 1)).len());
            }
        }
    }
}

/// How each row of the diff is chosen. Let `i` and `j` be the numbers of
/// old and new lines shown in the rows above a row. The row shows old line
/// `i + 1` (if any) and new line `j + 1` (if any), and it is:
/// `Same` when those two lines are equal; `Changed` when they differ and
/// skipping both loses no common line (`lcs(i+1, j+1) == lcs(i+1, j) ==
/// lcs(i, j+1)`), however far apart `i` and `j` are, so an edited line
/// stays paired after lines were inserted or removed above it; otherwise
/// `Removed` when skipping the old line keeps at least as many common lines
/// as skipping the new one (or no new line is left), and `Added` when
/// skipping the new line keeps more (or no old line is left).
pub proof fn law_diff_rows_follow_lcs(old: Seq<char>, new: Seq<char>)
    ensures
        forall|k: int|
            0 <= k < diff_of(old, new).len() ==> ({
                let a = lines_of(old);
                let b = lines_of(new);
                let r = #[trigger] diff_of(old, new)[k];
                let i = old_numbers(diff_of(old, new).take(k)).len() as int;
                let j = new_numbers(diff_of(old, new).take(k)).len() as int;
                let n = a.len() as int;
                let m = b.len() as int;
                let skip_both_ok = lcs_len(a, b, i + 1, j + 1) == lcs_len(a, b, i + 1, j)
                    && lcs_len(a, b, i + 1, j + 1) == lcs_len(a, b, i, j + 1);
                &&& i <= n && j <= m && (i < n || j < m)
                &&& (r.old_no is Some ==> r.old_no == Some((i + 1) as nat))
                &&& (r.new_no is Some ==> r.new_no == Some((j + 1) as nat))
                &&& (i < n && j < m && a[i] == b[j] ==> r.kind == DiffKind::Same)
                &&& (i < n && j < m && a[i] != b[j] && skip_both_ok ==> r.kind == DiffKind::Changed)
                &&& (i < n && j < m && a[i] != b[j] && lcs_len(a, b, i + 1, j) < lcs_len(
                    a,
                    b,
                    i,
                    j + 1,
                ) ==> r.kind == DiffKind::Added)
                &&& (i < n && j < m && a[i] != b[j] && lcs_len(a, b, i + 1, j) >= lcs_len(
                    a,
                    b,
                    i,
                    j + 1,
                ) && !skip_both_ok ==> r.kind == DiffKind::Removed)
                &&& (i < n && j == m ==> r.kind == DiffKind::Removed)
                &&& (i == n && j < m ==> r.kind == DiffKind::Added)
            }),
{
    lemma_rows_at(lines_of(old), lines_of(new), 0, 0);
}

/// The number of `Same` rows.
pub open spec fn same_count(rows: Seq<DiffRow>) -> nat
    decreases rows.len(),
{
    if rows.len() == 0 {
        0
    } else {
        (if rows[0].kind == DiffKind::Same {
            1nat
        } else {
            0nat
        }) + same_count(rows.drop_first())
    }
}

proof fn lemma_same_count(a: Seq<Seq<char>>, b: Seq<Seq<char>>, i: int, j: int)
    requires
        0 <= i <= a.len(),
        0 <= j <= b.len(),
    ensures
        same_count(diff_rows(a, b, i, j)) == lcs_len(a, b, i, j),
    decreases a.len() - i + b.len() - j,
{
    let n = a.len() as int;
    let m = b.len() as int;
    let d = diff_rows(a, b, i, j);
    if i < n && j < m && a[i] == b[j] {
        lemma_same_count(a, b, i + 1, j + 1);
        assert(d.drop_first() =~= diff_rows(a, b, i + 1, j + 1));
    } else if i < n && (j >= m || lcs_len(a, b, i + 1, j) >= lcs_len(a, b, i, j + 1)) {
        if j < m && lcs_len(a, b, i + 1, j + 1) == lcs_len(a, b, i + 1, j) && lcs_len(
            a,
            b,
            i + 1,
            j + 1,
        ) == lcs_len(a, b, i, j + 1) {
            lemma_same_count(a, b, i + 1, j + 1);
            assert(d.drop_first() =~= diff_rows(a, b, i + 1, j + 1));
        } else {
            lemma_same_count(a, b, i + 1, j);
            assert(d.drop_first() =~= diff_rows(a, b, i + 1, j));
            if j >= m {
                assert(lcs_len(a, b, i + 1, j) == 0);
            }
        }
    } else if !(i == n && j == m) {
        lemma_same_count(a, b, i, j + 1);
        assert(d.drop_first() =~= diff_rows(a, b, i, j + 1));
        if i >= n {
            assert(lcs_len(a, b, i, j + 1) == 0);
        }
    }
}

/// The diff pairs up as many equal lines as possible: the number of `Same`
/// rows is the length of a longest common subsequence of the two files'
/// lines.
pub proof fn law_diff_keeps_longest_common_lines(old: Seq<char>, new: Seq<char>)
    ensures
        same_count(diff_of(old, new)) == lcs_len(lines_of(old), lines_of(new), 0, 0),
{
    lemma_same_count(lines_of(old), lines_of(new), 0, 0);
}

// ---------------------------------------------------------------------------
// Change navigation
// ---------------------------------------------------------------------------

/// The kinds of a list of diff rows.
pub open spec fn kinds_of(lines: Seq<DiffLine>) -> Seq<DiffKind> {
    lines.map_values(|l: DiffLine| l.kind)
}

/// Row `k` starts a run of changed rows.
pub open spec fn is_change_start(ks: Seq<DiffKind>, k: int) -> bool {
    ks[k] != DiffKind::Same && (k == 0 || ks[k - 1] == DiffKind::Same)
}

/// Indices of the first row of each run of `Added`/`Removed`/`Changed` rows.
pub open spec fn change_starts(ks: Seq<DiffKind>) -> Seq<int>
    decreases ks.len(),
{
    if ks.len() == 0 {
        Seq::empty()
    } else {
        let init = change_starts(ks.drop_last());
        if is_change_start(ks, ks.len() - 1) {
            init.push(ks.len() - 1)
        } else {
            init
        }
    }
}

/// The listed change positions are exactly the rows that start a run of
/// changed rows, in increasing order.
pub proof fn law_change_starts_are_run_starts(ks: Seq<DiffKind>)
    ensures
        forall|p: int| 0 <= p < ks.len() && is_change_start(ks, p) <==> change_starts(ks).contains(p),
        forall|a: int, b: int|
            0 <= a < b < change_starts(ks).len() ==> change_starts(ks)[a] < change_starts(ks)[b],
        forall|a: int| 0 <= a < change_starts(ks).len() ==> 0 <= #[trigger] change_starts(ks)[a] < ks.len(),
    decreases ks.len(),
{
    if ks.len() > 0 {
        let init = ks.drop_last();
        law_change_starts_are_run_starts(init);
        let last = ks.len() - 1;
        assert forall|p: int| 0 <= p < init.len() implies is_change_start(init, p) == is_change_start(ks, p) by {
            assert(init[p] == ks[p]);
            if p > 0 {
                assert(init[p - 1] == ks[p - 1]);
            }
        }
        let ci = change_starts(init);
        let c = change_starts(ks);
        if is_change_start(ks, last) {
            assert(c == ci.push(last));
            assert forall|p: int| 0 <= p < ks.len() && is_change_start(ks, p) implies c.contains(p) by {
                if p < last {
                    assert(is_change_start(init, p));
                    assert(ci.contains(p));
                    let x = choose|x: int| 0 <= x < ci.len() && ci[x] == p;
                    assert(c[x] == p);
                } else {
                    assert(c[ci.len() as int] == last);
                }
            }
            assert forall|p: int| c.contains(p) implies 0 <= p < ks.len() && is_change_start(ks, p) by {
                let x = choose|x: int| 0 <= x < c.len() && c[x] == p;
                if x < ci.len() {
                    assert(ci[x] == p);
                    assert(ci.contains(p));
                }
            }
        } else {
            assert forall|p: int| 0 <= p < ks.len() && is_change_start(ks, p) implies c.contains(p) by {
                assert(p < last);
                assert(is_change_start(init, p));
            }
            assert forall|p: int| c.contains(p) implies 0 <= p < ks.len() && is_change_start(ks, p) by {
                assert(ci.contains(p));
            }
        }
    }
}

/// A change group is a maximal run of rows that are not `Same`: row `p` is
/// listed exactly when it is not `Same` and is the first row or follows a
/// `Same` row, so neighbouring rows of different changed kinds belong to one
/// group.
pub proof fn law_change_groups_are_maximal_runs(ks: Seq<DiffKind>)
    ensures
        forall|p: int|
            #[trigger] change_starts(ks).contains(p) <==> (0 <= p < ks.len() && ks[p]
                != DiffKind::Same && (p == 0 || ks[p - 1] == DiffKind::Same)),
{
    law_change_starts_are_run_starts(ks);
    assert forall|p: int|
        #[trigger] change_starts(ks).contains(p) <==> (0 <= p < ks.len() && ks[p]
            != DiffKind::Same && (p == 0 || ks[p - 1] == DiffKind::Same)) by {
        if 0 <= p < ks.len() {
            assert(is_change_start(ks, p) == (ks[p] != DiffKind::Same && (p == 0 || ks[p - 1]
                == DiffKind::Same)));
        }
    }
}

/// Indices of change-group starts (first line of each Added/Removed/Changed run).
pub fn change_positions(lines: &[DiffLine]) -> (pos: Vec<usize>)
    ensures
        pos@.map_values(|p: usize| p as int) == change_starts(kinds_of(lines@)),
{
    let ghost ks = kinds_of(lines@);
    let mut pos: Vec<usize> = Vec::new();
    let mut in_change = false;
    let mut i: usize = 0;
    while i < lines.len()
        invariant
            ks == kinds_of(lines@),
            i <= lines@.len(),
            in_change == (i > 0 && ks[i - 1] != DiffKind::Same),
            pos@.map_values(|p: usize| p as int) == change_starts(ks.take(i as int)),
        decreases lines@.len() - i,
    {
        let ghost old_pos = pos@;
        proof {
            let t = ks.take(i as int + 1);
            assert(t.drop_last() =~= ks.take(i as int));
            assert(is_change_start(t, i as int) == is_change_start(ks, i as int));
        }
        if lines[i].kind != DiffKind::Same {
            if !in_change {
                pos.push(i);
                assert(pos@.map_values(|p: usize| p as int) =~= old_pos.map_values(
                    |p: usize| p as int,
                ).push(i as int));
                in_change = true;
            }
        } else {
            in_change = false;
        }
        i = i + 1;
    }
    assert(ks.take(lines@.len() as int) =~= ks);
    pos
}

/// The change counter shown in the diff header.
pub open spec fn change_label_text(count: nat) -> Seq<char> {
    if count == 0 {
        "No changes"@
    } else if count == 1 {
        "1 change"@
    } else {
        decimal_text(count) + " changes"@
    }
}

/// "No changes", "1 change" or "<n> changes".
pub fn change_label(count: usize) -> (label: String)
    ensures
        label@ == change_label_text(count as nat),
{
    if count == 0 {
        "No changes".to_owned()
    } else if count == 1 {
        "1 change".to_owned()
    } else {
        let mut s = decimal_string(count);
        s.append(" changes");
        s
    }
}

/// The index one up from `current` among `count` changes, wrapping from the
/// first to the last.
pub open spec fn previous_index(current: int, count: int) -> int {
    if current == 0 {
        if count == 0 {
            0
        } else {
            count - 1
        }
    } else {
        current - 1
    }
}

/// The index one down from `current` among `count` changes, wrapping from
/// the last to the first.
pub open spec fn next_index(current: int, count: int) -> int {
    (current + 1) % (if count == 0 {
        1
    } else {
        count
    })
}

/// Moving to the next change and then to the previous one (or the other way
/// round) comes back to the same change, and both moves stay among the
/// changes.
pub proof fn law_change_navigation_round_trip(current: int, count: int)
    requires
        0 <= current < count,
    ensures
        0 <= next_index(current, count) < count,
        0 <= previous_index(current, count) < count,
        previous_index(next_index(current, count), count) == current,
        next_index(previous_index(current, count), count) == current,
{
    if current + 1 < count {
        assert((current + 1) % count == current + 1) by (nonlinear_arith)
            requires
                0 <= current + 1 < count,
        ;
    } else {
        assert((current + 1) % count == 0) by (nonlinear_arith)
            requires
                current + 1 == count,
                count > 0,
        ;
    }
    if current == 0 {
        assert((count - 1 + 1) % count == 0) by (nonlinear_arith)
            requires
                count > 0,
        ;
    } else {
        assert((current - 1 + 1) % count == current) by (nonlinear_arith)
            requires
                0 <= current < count,
        ;
    }
}

/// The change that the "previous" button moves to from `current`: one up,
/// wrapping from the first to the last.
pub fn previous_change(current: usize, count: usize) -> (r: usize)
    ensures
        r == previous_index(current as int, count as int),
{
    if current == 0 {
        count.saturating_sub(1)
    } else {
        current - 1
    }
}

/// The change that the "next" button moves to from `current`: one down,
/// wrapping from the last to the first.
pub fn next_change(current: usize, count: usize) -> (r: usize)
    requires
        current < usize::MAX,
    ensures
        r == next_index(current as int, count as int),
{
    let d = if count == 0 { 1 } else { count };
    (current + 1) % d
}

} // verus!
