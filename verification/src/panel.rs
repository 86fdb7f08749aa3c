use vstd::prelude::*;
use crate::text::{trimmed, trim_str};

verus! {

/// Why "Assign To" cannot go ahead.
#[derive(Clone, Copy, PartialEq, Eq, Structural, Debug)]
pub enum AssignProblem {
    /// The folder name is blank.
    NoFolderName,
    /// The system has no assign path.
    NoAssignPath,
}

/// The checks made before assigning files: the folder name, trimmed, must
/// not be blank, and the system must have an assign path. On success gives
/// the trimmed folder name.
pub fn assign_check(folder_name: &str, assign_path: &str) -> (r: Result<String, AssignProblem>)
    ensures
        trimmed(folder_name@).len() == 0 ==> r == Err::<String, AssignProblem>(
            AssignProblem::NoFolderName,
        ),
        (trimmed(folder_name@).len() > 0 && assign_path@.len() == 0) ==> r == Err::<
            String,
            AssignProblem,
        >(AssignProblem::NoAssignPath),
        (trimmed(folder_name@).len() > 0 && assign_path@.len() > 0) ==> (r matches Ok(name)
            && name@ == trimmed(folder_name@)),
{
    let t = trim_str(folder_name);
    if t.is_empty() {
        return Err(AssignProblem::NoFolderName);
    }
    if assign_path.is_empty() {
        return Err(AssignProblem::NoAssignPath);
    }
    Ok(t.to_owned())
}

/// Whether a Copy / Copy Send can go ahead.
#[derive(Clone, Copy, PartialEq, Eq, Structural, Debug)]
pub enum CopyReadiness {
    /// No file of the table is checked.
    NoFiles,
    /// The system has no copy destination.
    NoDestination,
    Ready,
}

/// The check made before copying the checked `files` to `destination`.
pub fn copy_readiness(files: &[String], destination: &str) -> (r: CopyReadiness)
    ensures
        r == if files@.len() == 0 {
            CopyReadiness::NoFiles
        } else if destination@.len() == 0 {
            CopyReadiness::NoDestination
        } else {
            CopyReadiness::Ready
        },
{
    if files.len() == 0 {
        CopyReadiness::NoFiles
    } else if destination.is_empty() {
        CopyReadiness::NoDestination
    } else {
        CopyReadiness::Ready
    }
}

/// Counts of copied and failed files of a copy run.
pub struct CopyTally {
    pub ok: usize,
    pub fail: usize,
}

impl CopyTally {
    pub fn new() -> (t: Self)
        ensures
            t.ok == 0,
            t.fail == 0,
    {
        CopyTally { ok: 0, fail: 0 }
    }

    /// Records one file: it counts as copied when its source exists and the
    /// copy to the destination succeeded, and as failed otherwise.
    pub fn record(&mut self, source_exists: bool, copied_to_destination: bool)
        requires
            old(self).ok + old(self).fail < usize::MAX,
        ensures
            (source_exists && copied_to_destination) ==> (final(self).ok == old(self).ok + 1
                && final(self).fail == old(self).fail),
            !(source_exists && copied_to_destination) ==> (final(self).ok == old(self).ok
                && final(self).fail == old(self).fail + 1),
    {
        if source_exists && copied_to_destination {
            self.ok = self.ok + 1;
        } else {
            self.fail = self.fail + 1;
        }
    }
}

/// The percentage shown by the progress overlay: none while the total is
/// unknown (zero), otherwise `current * 100 / total`, capped at 100.
pub fn progress_percent(current: usize, total: usize) -> (pct: Option<usize>)
    requires
        current * 100 <= usize::MAX,
    ensures
        total == 0 ==> pct is None,
        total > 0 ==> pct == Some(
            if (current * 100) / (total as int) <= 100 {
                ((current * 100) / (total as int)) as usize
            } else {
                100usize
            },
        ),
{
    if total > 0 {
        let p = current * 100 / total;
        Some(if p <= 100 { p } else { 100 })
    } else {
        None
    }
}

} // verus!
