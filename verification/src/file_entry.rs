use vstd::prelude::*;

verus! {

/// The current local time as `YYYY-MM-DD HH:MM:SS`.
///
/// Calls `chrono::Local::now()` and formats it with `"%Y-%m-%d %H:%M:%S"`.
/// Nothing is claimed of the text: it depends on the clock and the time zone.
#[verifier::external_body]
pub fn local_timestamp() -> String {
    chrono::Local::now().format("%Y-%m-%d %H:%M:%S").to_string()
}

/// A single entry in the watched-files table.
#[derive(Clone, PartialEq)]
pub struct FileEntry {
    pub path: String,
    pub status: String,
    pub modified: String,
    pub checked: bool,
    /// Baseline content for diff viewing (`None` = no baseline captured yet).
    pub content: Option<String>,
}

impl FileEntry {
    /// A fresh, checked entry without baseline content, stamped with the
    /// current local time.
    pub fn new(path: &str, status: &str) -> (e: FileEntry)
        ensures
            e.path@ == path@,
            e.status@ == status@,
            e.checked,
            e.content is None,
    {
        FileEntry {
            path: path.to_owned(),
            status: status.to_owned(),
            modified: local_timestamp(),
            checked: true,
            content: None,
        }
    }
}

/// Tri-state for the header checkbox in the file-watcher table.
#[derive(Clone, Copy, PartialEq, Eq, Structural, Debug)]
pub enum CheckState {
    Unchecked,
    Checked,
    Indeterminate,
}

/// Number of checked entries in `s`.
pub open spec fn count_checked(s: Seq<FileEntry>) -> nat
    decreases s.len(),
{
    if s.len() == 0 {
        0
    } else {
        count_checked(s.drop_last()) + if s.last().checked { 1nat } else { 0nat }
    }
}

/// Every entry of `s` is checked.
pub open spec fn all_checked(s: Seq<FileEntry>) -> bool {
    forall|i: int| 0 <= i < s.len() ==> #[trigger] s[i].checked
}

/// No entry of `s` is checked (true of the empty table).
pub open spec fn none_checked(s: Seq<FileEntry>) -> bool {
    forall|i: int| 0 <= i < s.len() ==> !#[trigger] s[i].checked
}

/// The header checkbox state for a table holding `s`.
pub open spec fn check_state_of(s: Seq<FileEntry>) -> CheckState {
    if none_checked(s) {
        CheckState::Unchecked
    } else if all_checked(s) {
        CheckState::Checked
    } else {
        CheckState::Indeterminate
    }
}

pub proof fn lemma_count_checked_bounds(s: Seq<FileEntry>)
    ensures
        count_checked(s) <= s.len(),
        count_checked(s) == 0 <==> none_checked(s),
        count_checked(s) == s.len() <==> all_checked(s),
    decreases s.len(),
{
    if s.len() > 0 {
        let t = s.drop_last();
        lemma_count_checked_bounds(t);
        assert forall|i: int| 0 <= i < t.len() implies t[i] == s[i] by {}
        if none_checked(s) {
            assert(none_checked(t));
            assert(!s[s.len() - 1].checked);
        }
        if all_checked(s) {
            assert(all_checked(t));
            assert(s[s.len() - 1].checked);
        }
        if count_checked(s) == 0 {
            assert forall|i: int| 0 <= i < s.len() implies !#[trigger] s[i].checked by {
                if i < s.len() - 1 {
                    assert(!t[i].checked);
                }
            }
        }
        if count_checked(s) == s.len() {
            assert forall|i: int| 0 <= i < s.len() implies #[trigger] s[i].checked by {
                if i < s.len() - 1 {
                    assert(t[i].checked);
                }
            }
        }
    }
}

impl CheckState {
    /// The header state for `entries`: `Unchecked` when none is checked (or the
    /// table is empty), `Checked` when all are, `Indeterminate` otherwise.
    pub fn from_entries(entries: &[FileEntry]) -> (state: CheckState)
        ensures
            state == check_state_of(entries@),
    {
        if entries.len() == 0 {
            return CheckState::Unchecked;
        }
        let mut checked_count: usize = 0;
        let mut i: usize = 0;
        while i < entries.len()
            invariant
                i <= entries@.len(),
                checked_count == count_checked(entries@.take(i as int)),
            decreases entries@.len() - i,
        {
            proof {
                lemma_count_checked_bounds(entries@.take(i as int));
                assert(entries@.take(i as int + 1).drop_last() == entries@.take(i as int));
            }
            if entries[i].checked {
                checked_count = checked_count + 1;
            }
            i = i + 1;
        }
        proof {
            assert(entries@.take(entries@.len() as int) == entries@);
            lemma_count_checked_bounds(entries@);
        }
        if checked_count == 0 {
            CheckState::Unchecked
        } else if checked_count == entries.len() {
            CheckState::Checked
        } else {
            CheckState::Indeterminate
        }
    }
}

} // verus!
