//! Version-control status: the closed status enumeration, its severity order,
//! and the one-shot cache queried by path.

use vstd::prelude::*;
use crate::text::{is_prefix, str_eq};

verus! {

/// One version-control status kind; the declared order is the severity order.
#[derive(Copy, Clone, Debug, PartialEq, Eq, Structural, Hash, PartialOrd, Ord)]
pub enum GitStatus {
    /// No status information.
    Default,
    /// No changes.
    Unmodified,
    /// Ignored item in the working tree.
    Ignored,
    /// New, staged.
    NewInIndex,
    /// New, not staged.
    NewInWorkdir,
    /// The kind of the entry changed.
    Typechange,
    /// Removed.
    Deleted,
    /// Renamed.
    Renamed,
    /// Content changed.
    Modified,
    /// Conflicted in the index.
    Conflicted,
    /// Conflicted.
    GitConflicted,
}

/// Severity of a status: its position in the declared order.
pub open spec fn severity(s: GitStatus) -> nat {
    match s {
        GitStatus::Default => 0,
        GitStatus::Unmodified => 1,
        GitStatus::Ignored => 2,
        GitStatus::NewInIndex => 3,
        GitStatus::NewInWorkdir => 4,
        GitStatus::Typechange => 5,
        GitStatus::Deleted => 6,
        GitStatus::Renamed => 7,
        GitStatus::Modified => 8,
        GitStatus::Conflicted => 9,
        GitStatus::GitConflicted => 10,
    }
}

/// The more severe of two statuses (the second one on a tie, as `max` does).
pub open spec fn worse(a: GitStatus, b: GitStatus) -> GitStatus {
    if severity(a) <= severity(b) { b } else { a }
}

impl Default for GitStatus {
    fn default() -> (r: Self)
        ensures
            r == GitStatus::Default,
    {
        GitStatus::Default
    }
}

impl GitStatus {
    /// Severity of this status.
    pub fn rank(&self) -> (r: u8)
        ensures
            r as nat == severity(*self),
    {
        match self {
            GitStatus::Default => 0,
            GitStatus::Unmodified => 1,
            GitStatus::Ignored => 2,
            GitStatus::NewInIndex => 3,
            GitStatus::NewInWorkdir => 4,
            GitStatus::Typechange => 5,
            GitStatus::Deleted => 6,
            GitStatus::Renamed => 7,
            GitStatus::Modified => 8,
            GitStatus::Conflicted => 9,
            GitStatus::GitConflicted => 10,
        }
    }

    /// The more severe of `self` and `other`.
    pub fn worse_of(self, other: GitStatus) -> (r: GitStatus)
        ensures
            r == worse(self, other),
    {
        if self.rank() <= other.rank() {
            other
        } else {
            self
        }
    }
}

/// What the version-control backend reported for one path: an index-side and a
/// working-tree-side status, each possibly absent.
#[derive(Copy, Clone, Debug, PartialEq, Eq, Structural)]
pub struct GitStatusInfo {
    pub index_status: Option<GitStatus>,
    pub workdir_status: Option<GitStatus>,
}

/// The index / working-tree status pair shown for one entry.
#[derive(Copy, Clone, Debug, PartialEq, Eq, Structural, Hash, PartialOrd, Ord)]
pub struct GitFileStatus {
    pub index: GitStatus,
    pub workdir: GitStatus,
}

/// A status pair read from a backend report: an absent side counts as unmodified.
pub open spec fn status_of_info(info: GitStatusInfo) -> GitFileStatus {
    GitFileStatus {
        index: match info.index_status {
            Some(s) => s,
            None => GitStatus::Unmodified,
        },
        workdir: match info.workdir_status {
            Some(s) => s,
            None => GitStatus::Unmodified,
        },
    }
}

/// The pair with no status on either side.
pub open spec fn no_status() -> GitFileStatus {
    GitFileStatus { index: GitStatus::Default, workdir: GitStatus::Default }
}

/// Component-wise maximum severity of two pairs.
pub open spec fn worse_pair(a: GitFileStatus, b: GitFileStatus) -> GitFileStatus {
    GitFileStatus { index: worse(a.index, b.index), workdir: worse(a.workdir, b.workdir) }
}

impl Default for GitFileStatus {
    fn default() -> (r: Self)
        ensures
            r == no_status(),
    {
        GitFileStatus { index: GitStatus::Default, workdir: GitStatus::Default }
    }
}

impl GitFileStatus {
    /// The pair for a backend report; an absent side is unmodified.
    pub fn from_gix_status(status_info: &GitStatusInfo) -> (r: Self)
        ensures
            r == status_of_info(*status_info),
    {
        let index = match status_info.index_status {
            Some(s) => s,
            None => GitStatus::Unmodified,
        };
        let workdir = match status_info.workdir_status {
            Some(s) => s,
            None => GitStatus::Unmodified,
        };
        GitFileStatus { index, workdir }
    }

    /// The entry is new, in the index or in the working tree.
    pub fn is_new(&self) -> (r: bool)
        ensures
            r == (self.workdir == GitStatus::NewInWorkdir || self.index == GitStatus::NewInIndex),
    {
        self.workdir == GitStatus::NewInWorkdir || self.index == GitStatus::NewInIndex
    }

    /// The entry's content changed, in the index or in the working tree.
    pub fn is_modified(&self) -> (r: bool)
        ensures
            r == (self.workdir == GitStatus::Modified || self.index == GitStatus::Modified),
    {
        self.workdir == GitStatus::Modified || self.index == GitStatus::Modified
    }
}

/// A kind of change as the version-control backend classifies it, one variant
/// for each case the backend distinguishes.
#[derive(Copy, Clone, Debug, PartialEq, Eq, Structural)]
pub enum ChangeKind {
    /// Working tree: the entry is conflicted.
    Conflict,
    /// Working tree: the file was removed.
    Removed,
    /// Working tree: the kind of the file changed.
    TypeChange,
    /// Working tree: the content changed.
    Modification,
    /// Working tree: a submodule changed.
    SubmoduleModification,
    /// Working tree: only the cached stat data is stale.
    NeedsUpdate,
    /// Working tree: marked with intent to add.
    IntentToAdd,
    /// Directory walk: untracked.
    Untracked,
    /// Directory walk: ignored.
    IgnoredEntry,
    /// Directory walk: any other state.
    OtherDirectoryEntry,
    /// Working tree: a rewrite that is a copy.
    RewriteCopy,
    /// Working tree: a rewrite that is a rename.
    RewriteRename,
    /// Tree against index: added.
    IndexAddition,
    /// Tree against index: deleted.
    IndexDeletion,
    /// Tree against index: modified.
    IndexModification,
    /// Tree against index: rewritten.
    IndexRewrite,
}

/// The report recorded for each kind of change.
pub open spec fn info_for_change(kind: ChangeKind) -> GitStatusInfo {
    match kind {
        ChangeKind::Conflict => GitStatusInfo {
            index_status: Some(GitStatus::Conflicted),
            workdir_status: Some(GitStatus::Conflicted),
        },
        ChangeKind::Removed => GitStatusInfo {
            index_status: None,
            workdir_status: Some(GitStatus::Deleted),
        },
        ChangeKind::TypeChange => GitStatusInfo {
            index_status: None,
            workdir_status: Some(GitStatus::Typechange),
        },
        ChangeKind::Modification | ChangeKind::SubmoduleModification | ChangeKind::RewriteCopy =>
            GitStatusInfo { index_status: None, workdir_status: Some(GitStatus::Modified) },
        ChangeKind::NeedsUpdate | ChangeKind::OtherDirectoryEntry => GitStatusInfo {
            index_status: None,
            workdir_status: None,
        },
        ChangeKind::IntentToAdd => GitStatusInfo {
            index_status: Some(GitStatus::NewInIndex),
            workdir_status: None,
        },
        ChangeKind::Untracked => GitStatusInfo {
            index_status: None,
            workdir_status: Some(GitStatus::NewInWorkdir),
        },
        ChangeKind::IgnoredEntry => GitStatusInfo {
            index_status: None,
            workdir_status: Some(GitStatus::Ignored),
        },
        ChangeKind::RewriteRename => GitStatusInfo {
            index_status: None,
            workdir_status: Some(GitStatus::Renamed),
        },
        ChangeKind::IndexAddition => GitStatusInfo {
            index_status: Some(GitStatus::NewInIndex),
            workdir_status: Some(GitStatus::Unmodified),
        },
        ChangeKind::IndexDeletion => GitStatusInfo {
            index_status: Some(GitStatus::Deleted),
            workdir_status: Some(GitStatus::Unmodified),
        },
        ChangeKind::IndexModification => GitStatusInfo {
            index_status: Some(GitStatus::Modified),
            workdir_status: Some(GitStatus::Unmodified),
        },
        ChangeKind::IndexRewrite => GitStatusInfo {
            index_status: Some(GitStatus::Renamed),
            workdir_status: Some(GitStatus::Unmodified),
        },
    }
}

/// The report recorded for one kind of change.
pub fn convert_change(kind: ChangeKind) -> (r: GitStatusInfo)
    ensures
        r == info_for_change(kind),
{
    match kind {
        ChangeKind::Conflict => GitStatusInfo {
            index_status: Some(GitStatus::Conflicted),
            workdir_status: Some(GitStatus::Conflicted),
        },
        ChangeKind::Removed => GitStatusInfo {
            index_status: None,
            workdir_status: Some(GitStatus::Deleted),
        },
        ChangeKind::TypeChange => GitStatusInfo {
            index_status: None,
            workdir_status: Some(GitStatus::Typechange),
        },
        ChangeKind::Modification | ChangeKind::SubmoduleModification | ChangeKind::RewriteCopy =>
            GitStatusInfo { index_status: None, workdir_status: Some(GitStatus::Modified) },
        ChangeKind::NeedsUpdate | ChangeKind::OtherDirectoryEntry => GitStatusInfo {
            index_status: None,
            workdir_status: None,
        },
        ChangeKind::IntentToAdd => GitStatusInfo {
            index_status: Some(GitStatus::NewInIndex),
            workdir_status: None,
        },
        ChangeKind::Untracked => GitStatusInfo {
            index_status: None,
            workdir_status: Some(GitStatus::NewInWorkdir),
        },
        ChangeKind::IgnoredEntry => GitStatusInfo {
            index_status: None,
            workdir_status: Some(GitStatus::Ignored),
        },
        ChangeKind::RewriteRename => GitStatusInfo {
            index_status: None,
            workdir_status: Some(GitStatus::Renamed),
        },
        ChangeKind::IndexAddition => GitStatusInfo {
            index_status: Some(GitStatus::NewInIndex),
            workdir_status: Some(GitStatus::Unmodified),
        },
        ChangeKind::IndexDeletion => GitStatusInfo {
            index_status: Some(GitStatus::Deleted),
            workdir_status: Some(GitStatus::Unmodified),
        },
        ChangeKind::IndexModification => GitStatusInfo {
            index_status: Some(GitStatus::Modified),
            workdir_status: Some(GitStatus::Unmodified),
        },
        ChangeKind::IndexRewrite => GitStatusInfo {
            index_status: Some(GitStatus::Renamed),
            workdir_status: Some(GitStatus::Unmodified),
        },
    }
}

/// `p` lies at or below directory `d`, component-wise, for canonical paths
/// written with `/` separators.
pub open spec fn path_under(p: Seq<char>, d: Seq<char>) -> bool {
    p == d || (is_prefix(d, p) && ((d.len() > 0 && d.last() == '/') || (p.len() > d.len()
        && p[d.len() as int] == '/')))
}

/// `p` lies at or below directory `d`.
pub fn is_under(p: &str, d: &str) -> (r: bool)
    ensures
        r == path_under(p@, d@),
{
    let n = p.unicode_len();
    let m = d.unicode_len();
    if str_eq(p, d) {
        return true;
    }
    if m > n {
        return false;
    }
    let head = p.substring_char(0, m);
    if !str_eq(head, d) {
        return false;
    }
    if m > 0 && d.get_char(m - 1) == '/' {
        return true;
    }
    n > m && p.get_char(m) == '/'
}

/// One cached record: a canonical path and what the backend reported for it.
#[derive(Clone, Debug)]
pub struct StatusRecord {
    pub path: String,
    pub info: GitStatusInfo,
}

/// Fold of the status pairs of every record at or below `d`, in record order.
pub open spec fn directory_status(recs: Seq<StatusRecord>, d: Seq<char>) -> GitFileStatus
    decreases recs.len(),
{
    if recs.len() == 0 {
        no_status()
    } else {
        let acc = directory_status(recs.drop_last(), d);
        if path_under(recs.last().path@, d) {
            worse_pair(acc, status_of_info(recs.last().info))
        } else {
            acc
        }
    }
}

/// Status pair of the first record whose path is exactly `p`, or no status.
pub open spec fn file_status(recs: Seq<StatusRecord>, p: Seq<char>) -> GitFileStatus
    decreases recs.len(),
{
    if recs.len() == 0 {
        no_status()
    } else if recs[0].path@ == p {
        status_of_info(recs[0].info)
    } else {
        file_status(recs.drop_first(), p)
    }
}

/// A snapshot of the repository's status, taken once, queried by canonical path.
pub struct GitCache {
    statuses: Vec<StatusRecord>,
}

impl GitCache {
    /// The records of the snapshot, in the order they were reported.
    pub closed spec fn records(&self) -> Seq<StatusRecord> {
        self.statuses@
    }

    /// A cache holding the given records.
    pub fn new(statuses: Vec<StatusRecord>) -> (r: GitCache)
        ensures
            r.records() == statuses@,
    {
        GitCache { statuses }
    }

    /// A cache that knows of no path: every lookup gives no status.
    pub fn empty() -> (r: GitCache)
        ensures
            r.records() == Seq::<StatusRecord>::empty(),
    {
        GitCache { statuses: Vec::new() }
    }

    /// Status of a canonical path. A file gets the pair of its own record; a
    /// directory the component-wise worst pair over every record at or below it.
    pub fn get(&self, filepath: &str, is_directory: bool) -> (r: GitFileStatus)
        ensures
            is_directory ==> r == directory_status(self.records(), filepath@),
            !is_directory ==> r == file_status(self.records(), filepath@),
    {
        if is_directory {
            let mut acc = GitFileStatus::default();
            let mut i: usize = 0;
            while i < self.statuses.len()
                invariant
                    i <= self.statuses@.len(),
                    acc == directory_status(self.statuses@.subrange(0, i as int), filepath@),
                decreases self.statuses@.len() - i,
            {
                let rec = &self.statuses[i];
                assert(self.statuses@.subrange(0, i + 1).drop_last() == self.statuses@.subrange(
                    0,
                    i as int,
                ));
                if is_under(rec.path.as_str(), filepath) {
                    let s = GitFileStatus::from_gix_status(&rec.info);
                    acc = GitFileStatus {
                        index: acc.index.worse_of(s.index),
                        workdir: acc.workdir.worse_of(s.workdir),
                    };
                }
                i = i + 1;
            }
            assert(self.statuses@.subrange(0, self.statuses@.len() as int) == self.statuses@);
            acc
        } else {
            let mut i: usize = 0;
            assert(self.statuses@.subrange(0, self.statuses@.len() as int) == self.statuses@);
            while i < self.statuses.len()
                invariant
                    !is_directory,
                    i <= self.statuses@.len(),
                    file_status(self.statuses@, filepath@) == file_status(
                        self.statuses@.subrange(i as int, self.statuses@.len() as int),
                        filepath@,
                    ),
                decreases self.statuses@.len() - i,
            {
                let rec = &self.statuses[i];
                let ghost tail = self.statuses@.subrange(i as int, self.statuses@.len() as int);
                assert(tail[0] == self.statuses@[i as int]);
                assert(tail.drop_first() == self.statuses@.subrange(
                    i + 1,
                    self.statuses@.len() as int,
                ));
                if str_eq(rec.path.as_str(), filepath) {
                    return GitFileStatus::from_gix_status(&rec.info);
                }
                i = i + 1;
            }
            GitFileStatus::default()
        }
    }
}

/// A directory's status is at least as severe, on each side, as that of every
/// record at or below it.
pub proof fn lemma_directory_status_dominates(recs: Seq<StatusRecord>, d: Seq<char>, i: int)
    requires
        0 <= i < recs.len(),
        path_under(recs[i].path@, d),
    ensures
        severity(directory_status(recs, d).index) >= severity(status_of_info(recs[i].info).index),
        severity(directory_status(recs, d).workdir) >= severity(
            status_of_info(recs[i].info).workdir,
        ),
    decreases recs.len(),
{
    if i < recs.len() - 1 {
        lemma_directory_status_dominates(recs.drop_last(), d, i);
    }
}

/// A directory holding a modified entry and an ignored one reports, on the
/// working-tree side, a status at least as severe as modified: never ignored
/// nor unmodified.
pub proof fn lemma_modified_outranks_ignored(
    recs: Seq<StatusRecord>,
    d: Seq<char>,
    a: int,
    b: int,
)
    requires
        0 <= a < recs.len(),
        0 <= b < recs.len(),
        path_under(recs[a].path@, d),
        path_under(recs[b].path@, d),
        recs[a].info.workdir_status == Some(GitStatus::Modified),
        recs[b].info.workdir_status == Some(GitStatus::Ignored),
    ensures
        severity(directory_status(recs, d).workdir) >= severity(GitStatus::Modified),
        directory_status(recs, d).workdir != GitStatus::Ignored,
        directory_status(recs, d).workdir != GitStatus::Unmodified,
{
    lemma_directory_status_dominates(recs, d, a);
    lemma_directory_status_dominates(recs, d, b);
}

} // verus!
