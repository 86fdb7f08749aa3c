use vstd::prelude::*;
use vstd::string::*;
use crate::text::{chars_of, has_segment, split_on, trimmed, trim_str};
use crate::file_entry::FileEntry;
use crate::file_ops::{upsert_watch_event, remove_entry, watch_upserted, keep_where, path_is_not};

verus! {

/// Events emitted by the file watcher.
#[derive(Debug, Clone)]
pub enum WatchEvent {
    Created { system_index: usize, path: String },
    Modified { system_index: usize, path: String },
    Deleted { system_index: usize, path: String },
}

impl WatchEvent {
    pub open spec fn system(self) -> usize {
        match self {
            WatchEvent::Created { system_index, .. } => system_index,
            WatchEvent::Modified { system_index, .. } => system_index,
            WatchEvent::Deleted { system_index, .. } => system_index,
        }
    }

    pub open spec fn file(self) -> Seq<char> {
        match self {
            WatchEvent::Created { path, .. } => path@,
            WatchEvent::Modified { path, .. } => path@,
            WatchEvent::Deleted { path, .. } => path@,
        }
    }
}

/// Files larger than this (10 MB) are recorded in the baseline with empty
/// content, so the path still appears.
pub const MAX_BASELINE_BYTES: u64 = 10 * 1024 * 1024;

/// Whether a file of `size` bytes has its content read into the baseline.
pub fn reads_baseline_content(size: u64) -> (r: bool)
    ensures
        r == (size <= MAX_BASELINE_BYTES),
{
    size <= MAX_BASELINE_BYTES
}

/// The kind of a file-system notification.
#[derive(Clone, Copy, PartialEq, Eq, Structural, Debug)]
pub enum ChangeKind {
    Create,
    Remove,
    Modify,
    Other,
}

/// The event to emit for a change of kind `kind` to the file at relative
/// path `rel` of system `system_index`: none for other kinds of change or an
/// empty path.
pub fn event_for_change(kind: ChangeKind, system_index: usize, rel: String) -> (ev: Option<WatchEvent>)
    ensures
        (kind == ChangeKind::Other || rel@.len() == 0) ==> ev is None,
        (kind == ChangeKind::Create && rel@.len() > 0) ==> ev == Some(
            WatchEvent::Created { system_index, path: rel },
        ),
        (kind == ChangeKind::Remove && rel@.len() > 0) ==> ev == Some(
            WatchEvent::Deleted { system_index, path: rel },
        ),
        (kind == ChangeKind::Modify && rel@.len() > 0) ==> ev == Some(
            WatchEvent::Modified { system_index, path: rel },
        ),
{
    if rel.as_str().is_empty() {
        return None;
    }
    match kind {
        ChangeKind::Create => Some(WatchEvent::Created { system_index, path: rel }),
        ChangeKind::Remove => Some(WatchEvent::Deleted { system_index, path: rel }),
        ChangeKind::Modify => Some(WatchEvent::Modified { system_index, path: rel }),
        ChangeKind::Other => None,
    }
}

/// `path` falls under one of `rules`: some rule, trimmed and non-empty,
/// equals one of the path's `/`-separated segments.
pub open spec fn excluded_by(path: Seq<char>, rules: Seq<Seq<char>>) -> bool {
    exists|k: int|
        0 <= k < rules.len() && trimmed(#[trigger] rules[k]).len() > 0 && split_on(path, '/').contains(
            trimmed(rules[k]),
        )
}

/// Returns `true` if `rel_path` matches any rule in `except_rules`: a rule
/// matches when any path segment equals the trimmed rule, so ".git" matches
/// "project/.git/config" and ".git". Blank rules match nothing.
pub fn is_excluded(rel_path: &str, except_rules: &[String]) -> (r: bool)
    ensures
        r == excluded_by(rel_path@, except_rules.deep_view()),
{
    let ghost rules = except_rules.deep_view();
    let p = chars_of(rel_path);
    let mut i: usize = 0;
    while i < except_rules.len()
        invariant
            rules == except_rules.deep_view(),
            p@ == rel_path@,
            i <= rules.len(),
            forall|k: int|
                0 <= k < i ==> !(trimmed(#[trigger] rules[k]).len() > 0 && split_on(
                    rel_path@,
                    '/',
                ).contains(trimmed(rules[k]))),
        decreases rules.len() - i,
    {
        let t = trim_str(except_rules[i].as_str());
        assert(rules[i as int] == except_rules@[i as int]@);
        if !t.is_empty() {
            let tc = chars_of(t);
            if has_segment(&p, &tc) {
                return true;
            }
        }
        i = i + 1;
    }
    false
}

/// Any rule of the list can exclude a path, wherever it stands in the list:
/// when rule `k`, trimmed, is non-blank and equals one of the path's
/// `/`-separated segments, the path is excluded.
pub proof fn law_any_matching_rule_excludes(path: Seq<char>, rules: Seq<Seq<char>>, k: int)
    requires
        0 <= k < rules.len(),
        trimmed(rules[k]).len() > 0,
        split_on(path, '/').contains(trimmed(rules[k])),
    ensures
        excluded_by(path, rules),
{
}

/// A path is excluded only because of some rule: an excluded path has a
/// non-blank trimmed rule equal to one of its segments.
pub proof fn law_exclusion_has_a_matching_rule(path: Seq<char>, rules: Seq<Seq<char>>)
    requires
        excluded_by(path, rules),
    ensures
        exists|k: int|
            0 <= k < rules.len() && trimmed(#[trigger] rules[k]).len() > 0 && split_on(
                path,
                '/',
            ).contains(trimmed(rules[k])),
{
}

/// Adding rules, before or after the others, never un-excludes a path, and
/// with no rules nothing is excluded.
pub proof fn law_more_rules_keep_exclusion(
    path: Seq<char>,
    before: Seq<Seq<char>>,
    rules: Seq<Seq<char>>,
    after: Seq<Seq<char>>,
)
    requires
        excluded_by(path, rules),
    ensures
        excluded_by(path, before + rules + after),
        !excluded_by(path, Seq::<Seq<char>>::empty()),
{
    let k = choose|k: int|
        0 <= k < rules.len() && trimmed(#[trigger] rules[k]).len() > 0 && split_on(
            path,
            '/',
        ).contains(trimmed(rules[k]));
    let all = before + rules + after;
    assert(all[before.len() + k] == rules[k]);
    law_any_matching_rule_excludes(path, all, before.len() + k);
}

/// What applying a watch event does to the per-system tables.
pub open spec fn event_applied(
    old: Seq<Vec<FileEntry>>,
    new: Seq<Vec<FileEntry>>,
    event: WatchEvent,
    baseline: Option<String>,
) -> bool {
    let idx = event.system() as int;
    if idx >= old.len() {
        new == old
    } else {
        &&& new.len() == old.len()
        &&& forall|j: int| 0 <= j < old.len() && j != idx ==> #[trigger] new[j] == old[j]
        &&& match event {
            WatchEvent::Created { path, .. } => watch_upserted(
                old[idx]@,
                new[idx]@,
                path@,
                "Created"@,
                None,
            ),
            WatchEvent::Modified { path, .. } => watch_upserted(
                old[idx]@,
                new[idx]@,
                path@,
                "Modified"@,
                baseline,
            ),
            WatchEvent::Deleted { path, .. } => new[idx]@ == keep_where(
                old[idx]@,
                path_is_not(path@),
            ),
        }
    }
}

/// Applies a watch event to the tables of changed files, unless the event's
/// path is excluded by its system's except rules (`rules[system]`, none when
/// missing). A created file is added as "Created"; a modified file is added
/// as "Modified" with its `baseline` content, or refreshed; a deleted file is
/// removed. Returns whether the event was applied (not excluded).
pub fn apply_watch_event(
    tables: &mut Vec<Vec<FileEntry>>,
    rules: &Vec<Vec<String>>,
    event: &WatchEvent,
    baseline: Option<String>,
) -> (applied: bool)
    ensures
        applied == !excluded_by(
            event.file(),
            if (event.system() as int) < rules@.len() {
                rules@[event.system() as int].deep_view()
            } else {
                Seq::empty()
            },
        ),
        !applied ==> final(tables)@ == old(tables)@,
        applied ==> event_applied(old(tables)@, final(tables)@, *event, baseline),
{
    let (idx, path) = match event {
        WatchEvent::Created { system_index, path } => (*system_index, path),
        WatchEvent::Modified { system_index, path } => (*system_index, path),
        WatchEvent::Deleted { system_index, path } => (*system_index, path),
    };
    let excluded = if idx < rules.len() {
        is_excluded(path.as_str(), rules[idx].as_slice())
    } else {
        let none: Vec<String> = Vec::new();
        let r = is_excluded(path.as_str(), none.as_slice());
        assert(none.deep_view() =~= Seq::<Seq<char>>::empty());
        r
    };
    if excluded {
        return false;
    }
    if idx < tables.len() {
        match event {
            WatchEvent::Created { .. } => {
                upsert_watch_event(&mut tables[idx], path.as_str(), "Created", None);
            },
            WatchEvent::Modified { .. } => {
                upsert_watch_event(&mut tables[idx], path.as_str(), "Modified", baseline);
            },
            WatchEvent::Deleted { .. } => {
                remove_entry(&mut tables[idx], path.as_str());
            },
        }
    }
    true
}

} // verus!
