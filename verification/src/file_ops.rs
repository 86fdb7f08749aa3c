use vstd::prelude::*;
use crate::file_entry::{FileEntry, CheckState, check_state_of, local_timestamp, all_checked, none_checked};

verus! {

// ---------------------------------------------------------------------------
// Model of the watched-files table
// ---------------------------------------------------------------------------

/// The entries of `s` that satisfy `pred`, in their order.
pub open spec fn keep_where(s: Seq<FileEntry>, pred: spec_fn(FileEntry) -> bool) -> Seq<FileEntry>
    decreases s.len(),
{
    if s.len() == 0 {
        Seq::empty()
    } else {
        let init = keep_where(s.drop_last(), pred);
        if pred(s.last()) {
            init.push(s.last())
        } else {
            init
        }
    }
}

/// The paths of the entries of `s` that satisfy `pred`, in their order.
pub open spec fn paths_where(s: Seq<FileEntry>, pred: spec_fn(FileEntry) -> bool) -> Seq<Seq<char>>
    decreases s.len(),
{
    if s.len() == 0 {
        Seq::empty()
    } else {
        let init = paths_where(s.drop_last(), pred);
        if pred(s.last()) {
            init.push(s.last().path@)
        } else {
            init
        }
    }
}

pub open spec fn is_checked() -> spec_fn(FileEntry) -> bool {
    |e: FileEntry| e.checked
}

pub open spec fn is_unchecked() -> spec_fn(FileEntry) -> bool {
    |e: FileEntry| !e.checked
}

pub open spec fn path_is_not(p: Seq<char>) -> spec_fn(FileEntry) -> bool {
    |e: FileEntry| e.path@ != p
}

pub open spec fn path_not_in(ps: Seq<Seq<char>>) -> spec_fn(FileEntry) -> bool {
    |e: FileEntry| !ps.contains(e.path@)
}

/// No two entries share a path.
pub open spec fn unique_paths(s: Seq<FileEntry>) -> bool {
    forall|i: int, j: int| 0 <= i < j < s.len() ==> s[i].path@ != s[j].path@
}

/// Some entry of `s` has path `p`.
pub open spec fn has_path(s: Seq<FileEntry>, p: Seq<char>) -> bool {
    exists|k: int| 0 <= k < s.len() && #[trigger] s[k].path@ == p
}

/// `k` is the first entry of `s` with path `p`.
pub open spec fn first_with_path(s: Seq<FileEntry>, p: Seq<char>, k: int) -> bool {
    &&& 0 <= k < s.len()
    &&& s[k].path@ == p
    &&& forall|j: int| 0 <= j < k ==> s[j].path@ != p
}

/// `f` is `e` with its checkbox set to `checked`.
pub open spec fn with_checked(e: FileEntry, f: FileEntry, checked: bool) -> bool {
    &&& f.path == e.path
    &&& f.status == e.status
    &&& f.modified == e.modified
    &&& f.content == e.content
    &&& f.checked == checked
}

/// `new` is `old` with entry `k` refreshed: status text `status`, new
/// timestamp, everything else kept.
pub open spec fn refreshed_at(old: Seq<FileEntry>, new: Seq<FileEntry>, k: int, status: Seq<char>) -> bool {
    &&& new.len() == old.len()
    &&& forall|j: int| 0 <= j < old.len() && j != k ==> new[j] == old[j]
    &&& new[k].path == old[k].path
    &&& new[k].status@ == status
    &&& new[k].checked == old[k].checked
    &&& new[k].content == old[k].content
}

/// `new` is `old` with a fresh checked entry for `path` appended.
pub open spec fn appended(
    old: Seq<FileEntry>,
    new: Seq<FileEntry>,
    path: Seq<char>,
    status: Seq<char>,
    content: Option<String>,
) -> bool {
    &&& new.len() == old.len() + 1
    &&& forall|j: int| 0 <= j < old.len() ==> new[j] == old[j]
    &&& new.last().path@ == path
    &&& new.last().status@ == status
    &&& new.last().checked
    &&& new.last().content == content
}

pub proof fn lemma_keep_step(s: Seq<FileEntry>, pred: spec_fn(FileEntry) -> bool, j: int)
    requires
        0 <= j < s.len(),
    ensures
        keep_where(s.take(j + 1), pred) == (if pred(s[j]) {
            keep_where(s.take(j), pred).push(s[j])
        } else {
            keep_where(s.take(j), pred)
        }),
        paths_where(s.take(j + 1), pred) == (if pred(s[j]) {
            paths_where(s.take(j), pred).push(s[j].path@)
        } else {
            paths_where(s.take(j), pred)
        }),
{
    assert(s.take(j + 1).drop_last() =~= s.take(j));
    assert(s.take(j + 1).last() == s[j]);
}

/// Every kept entry satisfies the predicate and comes from `s`; the kept
/// entries' paths are the listed paths.
pub proof fn lemma_keep_where(s: Seq<FileEntry>, pred: spec_fn(FileEntry) -> bool)
    ensures
        keep_where(s, pred).len() <= s.len(),
        forall|k: int| 0 <= k < keep_where(s, pred).len() ==> pred(#[trigger] keep_where(s, pred)[k]),
        forall|k: int|
            0 <= k < keep_where(s, pred).len() ==> s.contains(#[trigger] keep_where(s, pred)[k]),
        paths_where(s, pred) == keep_where(s, pred).map_values(|e: FileEntry| e.path@),
        unique_paths(s) ==> unique_paths(keep_where(s, pred)),
    decreases s.len(),
{
    if s.len() > 0 {
        let init = s.drop_last();
        lemma_keep_where(init, pred);
        let ki = keep_where(init, pred);
        let k = keep_where(s, pred);
        assert forall|x: int| 0 <= x < ki.len() implies s.contains(#[trigger] ki[x]) by {
            let y = choose|y: int| 0 <= y < init.len() && init[y] == ki[x];
            assert(s[y] == init[y]);
        }
        assert(s.contains(s.last())) by {
            assert(s[s.len() - 1] == s.last());
        }
        if pred(s.last()) {
            assert(k.map_values(|e: FileEntry| e.path@) =~= ki.map_values(|e: FileEntry| e.path@).push(
                s.last().path@,
            ));
        } else {
            assert(k.map_values(|e: FileEntry| e.path@) =~= ki.map_values(|e: FileEntry| e.path@));
        }
        if unique_paths(s) {
            assert(unique_paths(init)) by {
                assert forall|i: int, j: int| 0 <= i < j < init.len() implies init[i].path@
                    != init[j].path@ by {
                    assert(init[i] == s[i]);
                    assert(init[j] == s[j]);
                }
            }
            if pred(s.last()) {
                assert forall|i: int, j: int| 0 <= i < j < k.len() implies k[i].path@
                    != k[j].path@ by {
                    if j == k.len() - 1 {
                        assert(k[i] == ki[i]);
                        assert(init.contains(ki[i]));
                        let y = choose|y: int| 0 <= y < init.len() && init[y] == ki[i];
                        assert(s[y] == init[y]);
                        assert(k[j] == s[s.len() - 1]);
                    } else {
                        assert(k[i] == ki[i]);
                        assert(k[j] == ki[j]);
                    }
                }
            }
        }
    }
}

// ---------------------------------------------------------------------------
// Lookups
// ---------------------------------------------------------------------------

/// Whether `list` holds a string with the same text as `s`.
pub fn contains_text(list: &[String], s: &String) -> (r: bool)
    ensures
        r == list.deep_view().contains(s@),
{
    let ghost dv = list.deep_view();
    let mut i: usize = 0;
    while i < list.len()
        invariant
            dv == list.deep_view(),
            i <= list@.len(),
            forall|k: int| 0 <= k < i ==> dv[k] != s@,
        decreases list@.len() - i,
    {
        if list[i] == *s {
            assert(dv[i as int] == s@);
            return true;
        }
        i = i + 1;
    }
    proof {
        if dv.contains(s@) {
            let k = choose|k: int| 0 <= k < dv.len() && dv[k] == s@;
            assert(dv[k] != s@);
        }
    }
    false
}

/// The index of the first entry whose path is `p`.
pub fn find_path(entries: &Vec<FileEntry>, p: &String) -> (r: Option<usize>)
    ensures
        match r {
            Some(k) => first_with_path(entries@, p@, k as int),
            None => !has_path(entries@, p@),
        },
{
    let mut i: usize = 0;
    while i < entries.len()
        invariant
            i <= entries@.len(),
            forall|j: int| 0 <= j < i ==> entries@[j].path@ != p@,
        decreases entries@.len() - i,
    {
        if entries[i].path == *p {
            return Some(i);
        }
        i = i + 1;
    }
    None
}

// ---------------------------------------------------------------------------
// Table operations
// ---------------------------------------------------------------------------

/// Add a new entry or refresh the status/timestamp of an existing one.
/// Only the first entry with `path` is refreshed.
pub fn upsert_entry(entries: &mut Vec<FileEntry>, path: &str, status: &str)
    ensures
        forall|k: int|
            first_with_path(old(entries)@, path@, k) ==> refreshed_at(
                old(entries)@,
                final(entries)@,
                k,
                status@,
            ),
        !has_path(old(entries)@, path@) ==> appended(
            old(entries)@,
            final(entries)@,
            path@,
            status@,
            None,
        ),
        unique_paths(old(entries)@) ==> unique_paths(final(entries)@),
        exists|k: int| first_with_path(final(entries)@, path@, k) && #[trigger] final(entries)@[k].status@ == status@,
{
    let p = path.to_owned();
    match find_path(entries, &p) {
        Some(k) => {
            entries[k].status = status.to_owned();
            entries[k].modified = local_timestamp();
            proof {
                assert forall|x: int| first_with_path(old(entries)@, path@, x) implies x == k by {}
                assert(first_with_path(entries@, path@, k as int));
                assert(entries@[k as int].status@ == status@);
            }
        },
        None => {
            entries.push(FileEntry::new(path, status));
            proof {
                let k = entries@.len() - 1;
                assert(entries@[k] == entries@.last());
                assert(first_with_path(entries@, path@, k));
                assert(entries@[k].status@ == status@);
            }
        },
    }
}

/// What `upsert_watch_event` does to a table: the first entry with `path`
/// is refreshed (keeping a "Created" status), or a fresh entry with the
/// baseline `content` is appended; paths stay unique.
pub open spec fn watch_upserted(
    old: Seq<FileEntry>,
    new: Seq<FileEntry>,
    path: Seq<char>,
    status: Seq<char>,
    content: Option<String>,
) -> bool {
    &&& forall|k: int|
        first_with_path(old, path, k) ==> refreshed_at(
            old,
            new,
            k,
            if old[k].status@ == "Created"@ {
                old[k].status@
            } else {
                status
            },
        )
    &&& !has_path(old, path) ==> appended(old, new, path, status, content)
    &&& unique_paths(old) ==> unique_paths(new)
}

/// Like `upsert_entry`, but a new entry gets the baseline `content`, and an
/// entry whose status is "Created" keeps that status.
pub fn upsert_watch_event(
    entries: &mut Vec<FileEntry>,
    path: &str,
    status: &str,
    baseline_content: Option<String>,
)
    ensures
        watch_upserted(old(entries)@, final(entries)@, path@, status@, baseline_content),
{
    let p = path.to_owned();
    let created = "Created".to_owned();
    match find_path(entries, &p) {
        Some(k) => {
            if !(entries[k].status == created) {
                entries[k].status = status.to_owned();
            }
            entries[k].modified = local_timestamp();
            proof {
                assert forall|x: int| first_with_path(old(entries)@, path@, x) implies x == k by {}
            }
        },
        None => {
            let mut e = FileEntry::new(path, status);
            e.content = baseline_content;
            entries.push(e);
        },
    }
}

/// Remove every entry whose path is `path`.
pub fn remove_entry(entries: &mut Vec<FileEntry>, path: &str)
    ensures
        final(entries)@ == keep_where(old(entries)@, path_is_not(path@)),
        unique_paths(old(entries)@) ==> unique_paths(final(entries)@),
{
    let p = path.to_owned();
    let ghost s = entries@;
    let ghost pred = path_is_not(path@);
    let mut i: usize = 0;
    let ghost mut j: int = 0;
    assert(s.take(0) =~= Seq::<FileEntry>::empty());
    assert(s.skip(0) =~= s);
    while i < entries.len()
        invariant
            s == old(entries)@,
            pred == path_is_not(path@),
            p@ == path@,
            0 <= j <= s.len(),
            entries@ == keep_where(s.take(j), pred) + s.skip(j),
            i == keep_where(s.take(j), pred).len(),
        decreases entries@.len() - i,
    {
        let ghost kept = keep_where(s.take(j), pred);
        assert(entries@[i as int] == s[j]);
        proof { lemma_keep_step(s, pred, j); }
        if entries[i].path == p {
            entries.remove(i);
            assert(entries@ =~= kept + s.skip(j + 1));
        } else {
            assert(entries@ =~= kept.push(s[j]) + s.skip(j + 1));
            i = i + 1;
        }
        proof { j = j + 1; }
    }
    proof {
        assert(s.skip(j).len() == 0);
        assert(j == s.len());
        assert(s.take(j) =~= s);
        assert(entries@ =~= keep_where(s, pred));
        lemma_keep_where(s, pred);
    }
}

/// The paths of all checked entries, in table order.
pub fn checked_paths(entries: &[FileEntry]) -> (paths: Vec<String>)
    ensures
        paths.deep_view() == paths_where(entries@, is_checked()),
{
    let ghost s = entries@;
    let mut paths: Vec<String> = Vec::new();
    let mut i: usize = 0;
    assert(s.take(0) =~= Seq::<FileEntry>::empty());
    while i < entries.len()
        invariant
            s == entries@,
            i <= s.len(),
            paths.deep_view() == paths_where(s.take(i as int), is_checked()),
        decreases s.len() - i,
    {
        proof { lemma_keep_step(s, is_checked(), i as int); }
        if entries[i].checked {
            let ghost before = paths.deep_view();
            paths.push(entries[i].path.clone());
            assert(paths.deep_view() =~= before.push(s[i as int].path@));
        }
        i = i + 1;
    }
    assert(s.take(s.len() as int) =~= s);
    paths
}

/// Uncheck all entries whose paths are in `paths`.
pub fn uncheck_paths(entries: &mut Vec<FileEntry>, paths: &[String])
    ensures
        final(entries)@.len() == old(entries)@.len(),
        forall|k: int|
            0 <= k < old(entries)@.len() ==> with_checked(
                old(entries)@[k],
                #[trigger] final(entries)@[k],
                old(entries)@[k].checked && !paths.deep_view().contains(old(entries)@[k].path@),
            ),
{
    let mut i: usize = 0;
    while i < entries.len()
        invariant
            entries@.len() == old(entries)@.len(),
            i <= entries@.len(),
            forall|k: int|
                0 <= k < i ==> with_checked(
                    old(entries)@[k],
                    #[trigger] entries@[k],
                    old(entries)@[k].checked && !paths.deep_view().contains(
                        old(entries)@[k].path@,
                    ),
                ),
            forall|k: int| i <= k < entries@.len() ==> #[trigger] entries@[k] == old(entries)@[k],
        decreases entries@.len() - i,
    {
        if contains_text(paths, &entries[i].path) {
            entries[i].checked = false;
        }
        i = i + 1;
    }
}

/// Remove all unchecked entries and return their paths, in table order.
pub fn remove_unchecked(entries: &mut Vec<FileEntry>) -> (removed: Vec<String>)
    ensures
        final(entries)@ == keep_where(old(entries)@, is_checked()),
        removed.deep_view() == paths_where(old(entries)@, is_unchecked()),
        unique_paths(old(entries)@) ==> unique_paths(final(entries)@),
{
    let ghost s = entries@;
    let mut removed: Vec<String> = Vec::new();
    let mut i: usize = 0;
    let ghost mut j: int = 0;
    assert(s.take(0) =~= Seq::<FileEntry>::empty());
    assert(s.skip(0) =~= s);
    while i < entries.len()
        invariant
            s == old(entries)@,
            0 <= j <= s.len(),
            entries@ == keep_where(s.take(j), is_checked()) + s.skip(j),
            i == keep_where(s.take(j), is_checked()).len(),
            removed.deep_view() == paths_where(s.take(j), is_unchecked()),
        decreases entries@.len() - i,
    {
        let ghost kept = keep_where(s.take(j), is_checked());
        let ghost before = removed.deep_view();
        assert(entries@[i as int] == s[j]);
        proof {
            lemma_keep_step(s, is_checked(), j);
            lemma_keep_step(s, is_unchecked(), j);
        }
        if entries[i].checked {
            assert(entries@ =~= kept.push(s[j]) + s.skip(j + 1));
            i = i + 1;
        } else {
            removed.push(entries[i].path.clone());
            assert(removed.deep_view() =~= before.push(s[j].path@));
            entries.remove(i);
            assert(entries@ =~= kept + s.skip(j + 1));
        }
        proof { j = j + 1; }
    }
    proof {
        assert(s.skip(j).len() == 0);
        assert(j == s.len());
        assert(s.take(j) =~= s);
        lemma_keep_where(s, is_checked());
    }
    removed
}

/// Remove every entry whose path is in `paths` (the entries handed over by
/// "Assign To").
pub fn remove_paths(entries: &mut Vec<FileEntry>, paths: &[String])
    ensures
        final(entries)@ == keep_where(old(entries)@, path_not_in(paths.deep_view())),
        unique_paths(old(entries)@) ==> unique_paths(final(entries)@),
{
    let ghost s = entries@;
    let ghost pred = path_not_in(paths.deep_view());
    let mut i: usize = 0;
    let ghost mut j: int = 0;
    assert(s.take(0) =~= Seq::<FileEntry>::empty());
    assert(s.skip(0) =~= s);
    while i < entries.len()
        invariant
            s == old(entries)@,
            pred == path_not_in(paths.deep_view()),
            0 <= j <= s.len(),
            entries@ == keep_where(s.take(j), pred) + s.skip(j),
            i == keep_where(s.take(j), pred).len(),
        decreases entries@.len() - i,
    {
        let ghost kept = keep_where(s.take(j), pred);
        assert(entries@[i as int] == s[j]);
        proof { lemma_keep_step(s, pred, j); }
        if contains_text(paths, &entries[i].path) {
            entries.remove(i);
            assert(entries@ =~= kept + s.skip(j + 1));
        } else {
            assert(entries@ =~= kept.push(s[j]) + s.skip(j + 1));
            i = i + 1;
        }
        proof { j = j + 1; }
    }
    proof {
        assert(s.skip(j).len() == 0);
        assert(j == s.len());
        assert(s.take(j) =~= s);
        lemma_keep_where(s, pred);
    }
}

/// The header checkbox click: check every entry unless all are already
/// checked, in which case uncheck every entry.
pub fn toggle_all(entries: &mut Vec<FileEntry>)
    ensures
        final(entries)@.len() == old(entries)@.len(),
        forall|k: int|
            0 <= k < old(entries)@.len() ==> with_checked(
                old(entries)@[k],
                #[trigger] final(entries)@[k],
                check_state_of(old(entries)@) != CheckState::Checked,
            ),
{
    let next = CheckState::from_entries(entries.as_slice()) != CheckState::Checked;
    let mut i: usize = 0;
    while i < entries.len()
        invariant
            entries@.len() == old(entries)@.len(),
            next == (check_state_of(old(entries)@) != CheckState::Checked),
            i <= entries@.len(),
            forall|k: int|
                0 <= k < i ==> with_checked(old(entries)@[k], #[trigger] entries@[k], next),
            forall|k: int| i <= k < entries@.len() ==> #[trigger] entries@[k] == old(entries)@[k],
        decreases entries@.len() - i,
    {
        entries[i].checked = next;
        i = i + 1;
    }
}


// ---------------------------------------------------------------------------
// Laws of the table operations
// ---------------------------------------------------------------------------

proof fn lemma_paths_where_member(s: Seq<FileEntry>, pred: spec_fn(FileEntry) -> bool, q: Seq<char>)
    requires
        paths_where(s, pred).contains(q),
    ensures
        exists|k: int| 0 <= k < s.len() && pred(s[k]) && #[trigger] s[k].path@ == q,
{
    lemma_keep_where(s, pred);
    let kept = keep_where(s, pred);
    let x = choose|x: int| 0 <= x < paths_where(s, pred).len() && paths_where(s, pred)[x] == q;
    assert(kept.map_values(|e: FileEntry| e.path@)[x] == kept[x].path@);
    assert(pred(kept[x]));
    assert(s.contains(kept[x]));
    let k = choose|k: int| 0 <= k < s.len() && s[k] == kept[x];
    assert(pred(s[k]) && s[k].path@ == q);
}

/// Removing a path leaves no entry with that path; entries with other paths
/// stay, in order, and paths stay unique.
pub proof fn law_remove_entry_drops_path(s: Seq<FileEntry>, p: Seq<char>)
    ensures
        !has_path(keep_where(s, path_is_not(p)), p),
        unique_paths(s) ==> unique_paths(keep_where(s, path_is_not(p))),
{
    lemma_keep_where(s, path_is_not(p));
    let kept = keep_where(s, path_is_not(p));
    if has_path(kept, p) {
        let k = choose|k: int| 0 <= k < kept.len() && #[trigger] kept[k].path@ == p;
        assert(path_is_not(p)(kept[k]));
    }
}

/// After removing the unchecked entries, every remaining entry is checked,
/// the header shows "checked" (or "unchecked" for an empty table), the
/// checked paths are exactly those before, and the removed paths together
/// with the remaining entries account for every entry.
pub proof fn law_remove_unchecked_keeps_checked(s: Seq<FileEntry>)
    ensures
        all_checked(keep_where(s, is_checked())),
        check_state_of(keep_where(s, is_checked())) == if keep_where(s, is_checked()).len() == 0 {
            CheckState::Unchecked
        } else {
            CheckState::Checked
        },
        paths_where(keep_where(s, is_checked()), is_checked()) == paths_where(s, is_checked()),
        keep_where(s, is_checked()).len() + paths_where(s, is_unchecked()).len() == s.len(),
{
    lemma_keep_where(s, is_checked());
    let kept = keep_where(s, is_checked());
    assert(all_checked(kept)) by {
        assert forall|k: int| 0 <= k < kept.len() implies #[trigger] kept[k].checked by {
            assert(is_checked()(kept[k]));
        }
    }
    if kept.len() > 0 {
        assert(!none_checked(kept)) by {
            assert(kept[0].checked);
        }
    }
    lemma_paths_of_kept(s, is_checked());
    lemma_checked_split_count(s);
}

proof fn lemma_paths_of_kept(s: Seq<FileEntry>, pred: spec_fn(FileEntry) -> bool)
    ensures
        paths_where(keep_where(s, pred), pred) == paths_where(s, pred),
    decreases s.len(),
{
    if s.len() > 0 {
        let init = s.drop_last();
        lemma_paths_of_kept(init, pred);
        if pred(s.last()) {
            let k = keep_where(init, pred).push(s.last());
            assert(k.drop_last() =~= keep_where(init, pred));
            assert(k.last() == s.last());
        }
    }
}

proof fn lemma_checked_split_count(s: Seq<FileEntry>)
    ensures
        keep_where(s, is_checked()).len() + paths_where(s, is_unchecked()).len() == s.len(),
    decreases s.len(),
{
    if s.len() > 0 {
        lemma_checked_split_count(s.drop_last());
    }
}

/// Once `uncheck_paths` has run with `paths`, `checked_paths` returns none of
/// those paths.
pub proof fn law_unchecked_paths_are_not_checked(
    before: Seq<FileEntry>,
    after: Seq<FileEntry>,
    paths: Seq<Seq<char>>,
)
    requires
        after.len() == before.len(),
        forall|k: int|
            0 <= k < before.len() ==> with_checked(
                before[k],
                #[trigger] after[k],
                before[k].checked && !paths.contains(before[k].path@),
            ),
    ensures
        forall|q: Seq<char>| paths.contains(q) ==> !#[trigger] paths_where(after, is_checked()).contains(q),
{
    assert forall|q: Seq<char>| paths.contains(q) implies !#[trigger] paths_where(
        after,
        is_checked(),
    ).contains(q) by {
        if paths_where(after, is_checked()).contains(q) {
            lemma_paths_where_member(after, is_checked(), q);
            let k = choose|k: int| 0 <= k < after.len() && is_checked()(after[k]) && #[trigger] after[k].path@ == q;
            assert(with_checked(before[k], after[k], before[k].checked && !paths.contains(before[k].path@)));
        }
    }
}

/// Clicking the header checkbox of a non-empty table checks every entry when
/// the header did not read "checked", and unchecks every entry when it did.
pub proof fn law_toggle_all_flips_header(before: Seq<FileEntry>, after: Seq<FileEntry>)
    requires
        before.len() > 0,
        after.len() == before.len(),
        forall|k: int|
            0 <= k < before.len() ==> with_checked(
                before[k],
                #[trigger] after[k],
                check_state_of(before) != CheckState::Checked,
            ),
    ensures
        check_state_of(after) == if check_state_of(before) != CheckState::Checked {
            CheckState::Checked
        } else {
            CheckState::Unchecked
        },
{
    let next = check_state_of(before) != CheckState::Checked;
    assert(after[0].checked == next);
    if next {
        assert(all_checked(after)) by {
            assert forall|k: int| 0 <= k < after.len() implies #[trigger] after[k].checked by {
                assert(with_checked(before[k], after[k], next));
            }
        }
    } else {
        assert(none_checked(after)) by {
            assert forall|k: int| 0 <= k < after.len() implies !#[trigger] after[k].checked by {
                assert(with_checked(before[k], after[k], next));
            }
        }
    }
}

/// The baseline captured when a file first shows up is the one its diff
/// uses from then on: a second change event for the same file keeps the
/// content that the first one attached.
pub proof fn law_watch_baseline_is_kept(
    t0: Seq<FileEntry>,
    t1: Seq<FileEntry>,
    t2: Seq<FileEntry>,
    path: Seq<char>,
    s1: Seq<char>,
    s2: Seq<char>,
    b1: Option<String>,
    b2: Option<String>,
)
    requires
        !has_path(t0, path),
        watch_upserted(t0, t1, path, s1, b1),
        watch_upserted(t1, t2, path, s2, b2),
    ensures
        exists|k: int| first_with_path(t2, path, k) && (#[trigger] t2[k]).content == b1,
{
    let k = t1.len() - 1;
    assert(t1[k] == t1.last());
    assert forall|j: int| 0 <= j < k implies t1[j].path@ != path by {
        assert(t1[j] == t0[j]);
        if t1[j].path@ == path {
            assert(t0[j].path@ == path);
        }
    }
    assert(first_with_path(t1, path, k));
    assert(refreshed_at(t1, t2, k, if t1[k].status@ == "Created"@ { t1[k].status@ } else { s2 }));
    assert(first_with_path(t2, path, k));
}

/// A file reported as created keeps showing "Created" when a modification
/// of it follows: the status is never downgraded to "Modified".
pub proof fn law_created_is_not_downgraded(
    t0: Seq<FileEntry>,
    t1: Seq<FileEntry>,
    t2: Seq<FileEntry>,
    path: Seq<char>,
    b: Option<String>,
)
    requires
        watch_upserted(t0, t1, path, "Created"@, None),
        watch_upserted(t1, t2, path, "Modified"@, b),
    ensures
        exists|k: int| first_with_path(t2, path, k) && (#[trigger] t2[k]).status@ == "Created"@,
{
    let k: int = if has_path(t0, path) {
        choose|k: int| first_with_path(t0, path, k)
    } else {
        t1.len() - 1
    };
    if has_path(t0, path) {
        lemma_first_exists(t0, path);
        assert(first_with_path(t0, path, k));
        assert(refreshed_at(t0, t1, k, if t0[k].status@ == "Created"@ { t0[k].status@ } else { "Created"@ }));
        assert forall|j: int| 0 <= j < k implies t1[j].path@ != path by {
            assert(t1[j] == t0[j]);
        }
        assert(first_with_path(t1, path, k));
    } else {
        assert(t1[k] == t1.last());
        assert forall|j: int| 0 <= j < k implies t1[j].path@ != path by {
            assert(t1[j] == t0[j]);
            if t1[j].path@ == path {
                assert(t0[j].path@ == path);
            }
        }
        assert(first_with_path(t1, path, k));
    }
    assert(t1[k].status@ == "Created"@);
    assert(refreshed_at(t1, t2, k, t1[k].status@));
    assert(first_with_path(t2, path, k));
}

/// A file first reported by the watcher joins the table checked: it is
/// appended with its path, and the checked paths that Copy takes are the
/// earlier checked paths followed by this one.
pub proof fn law_new_watched_file_is_checked(
    old: Seq<FileEntry>,
    new: Seq<FileEntry>,
    path: Seq<char>,
    status: Seq<char>,
    content: Option<String>,
)
    requires
        !has_path(old, path),
        watch_upserted(old, new, path, status, content),
    ensures
        new.len() == old.len() + 1,
        new.last().path@ == path,
        new.last().checked,
        paths_where(new, is_checked()) == paths_where(old, is_checked()).push(path),
{
    assert(new.drop_last() =~= old);
}

/// A watch event for a file not yet in the table adds the same row as
/// adding the file by hand: same path, status and checkbox, in the same
/// place, the rest of the table untouched; only the baseline differs.
pub proof fn law_watch_add_matches_manual_add(
    old: Seq<FileEntry>,
    by_watch: Seq<FileEntry>,
    by_hand: Seq<FileEntry>,
    path: Seq<char>,
    status: Seq<char>,
    content: Option<String>,
)
    requires
        !has_path(old, path),
        watch_upserted(old, by_watch, path, status, content),
        appended(old, by_hand, path, status, None),
    ensures
        by_watch.len() == by_hand.len(),
        forall|j: int|
            0 <= j < by_watch.len() ==> {
                &&& (#[trigger] by_watch[j]).path@ == by_hand[j].path@
                &&& by_watch[j].status@ == by_hand[j].status@
                &&& by_watch[j].checked == by_hand[j].checked
            },
{
    assert forall|j: int| 0 <= j < by_watch.len() implies {
        &&& (#[trigger] by_watch[j]).path@ == by_hand[j].path@
        &&& by_watch[j].status@ == by_hand[j].status@
        &&& by_watch[j].checked == by_hand[j].checked
    } by {
        if j == by_watch.len() - 1 {
            assert(by_watch[j] == by_watch.last());
            assert(by_hand[j] == by_hand.last());
        }
    }
}

/// When some entry has path `p`, a first one exists.
pub proof fn lemma_first_exists(s: Seq<FileEntry>, p: Seq<char>)
    requires
        has_path(s, p),
    ensures
        exists|k: int| first_with_path(s, p, k),
    decreases s.len(),
{
    let init = s.drop_last();
    if has_path(init, p) {
        lemma_first_exists(init, p);
        let k = choose|k: int| first_with_path(init, p, k);
        assert(init[k] == s[k]);
        assert forall|j: int| 0 <= j < k implies s[j].path@ != p by {
            assert(init[j] == s[j]);
        }
        assert(first_with_path(s, p, k));
    } else {
        let k = s.len() - 1;
        assert forall|j: int| 0 <= j < k implies s[j].path@ != p by {
            assert(init[j] == s[j]);
            if s[j].path@ == p {
                assert(init[j].path@ == p);
            }
        }
        let w = choose|w: int| 0 <= w < s.len() && #[trigger] s[w].path@ == p;
        if w < k {
            assert(init[w] == s[w]);
        }
        assert(first_with_path(s, p, k));
    }
}

} // verus!
