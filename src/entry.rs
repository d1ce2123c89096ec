//! Entries discovered by a traversal, and the per-entry decisions of the walk.

use vstd::prelude::*;
use crate::meta::{has_bit, Permissions, GROUP_EXECUTE, OTHER_EXECUTE, SETUID, USER_EXECUTE};
use crate::status::{GitFileStatus, GitStatusInfo};

verus! {

/// Structural kind of a filesystem object.
#[derive(Copy, Clone, Debug, PartialEq, Eq, Structural)]
pub enum FileType {
    BlockDevice,
    CharDevice,
    Directory { uid: bool },
    File { uid: bool, executable: bool },
    SymLink { is_dir: bool },
    Pipe,
    Socket,
    Special,
}

/// A directory, or a symbolic link to one.
pub open spec fn dirlike(t: FileType) -> bool {
    match t {
        FileType::Directory { .. } => true,
        FileType::SymLink { is_dir } => is_dir,
        _ => false,
    }
}

/// A directory proper (not a link to one).
pub open spec fn is_directory_kind(t: FileType) -> bool {
    t is Directory
}

/// Format bits of a mode: regular file, directory, pipe, link, devices, socket.
pub const S_IFMT: u32 = 0o170000;
pub const S_IFREG: u32 = 0o100000;
pub const S_IFDIR: u32 = 0o040000;
pub const S_IFIFO: u32 = 0o010000;
pub const S_IFLNK: u32 = 0o120000;
pub const S_IFCHR: u32 = 0o020000;
pub const S_IFBLK: u32 = 0o060000;
pub const S_IFSOCK: u32 = 0o140000;

/// The kind of an object with mode `mode`; for a link, whether its target is
/// a directory (false when the target cannot be read).
pub open spec fn kind_of_mode(mode: u32, target_is_dir: Option<bool>) -> FileType {
    let fmt = mode & S_IFMT;
    if fmt == S_IFREG {
        FileType::File {
            uid: has_bit(mode, SETUID),
            executable: has_bit(mode, USER_EXECUTE) || has_bit(mode, GROUP_EXECUTE) || has_bit(mode, OTHER_EXECUTE),
        }
    } else if fmt == S_IFDIR {
        FileType::Directory { uid: has_bit(mode, SETUID) }
    } else if fmt == S_IFIFO {
        FileType::Pipe
    } else if fmt == S_IFLNK {
        FileType::SymLink { is_dir: target_is_dir == Some(true) }
    } else if fmt == S_IFCHR {
        FileType::CharDevice
    } else if fmt == S_IFBLK {
        FileType::BlockDevice
    } else if fmt == S_IFSOCK {
        FileType::Socket
    } else {
        FileType::Special
    }
}

impl FileType {
    /// The kind of an object from its mode (see `kind_of_mode`).
    pub fn new(mode: u32, target_is_dir: Option<bool>) -> (r: FileType)
        ensures
            r == kind_of_mode(mode, target_is_dir),
    {
        let fmt = mode & S_IFMT;
        if fmt == S_IFREG {
            let permissions = Permissions::from_mode(mode);
            FileType::File { uid: permissions.setuid, executable: permissions.is_executable() }
        } else if fmt == S_IFDIR {
            let permissions = Permissions::from_mode(mode);
            FileType::Directory { uid: permissions.setuid }
        } else if fmt == S_IFIFO {
            FileType::Pipe
        } else if fmt == S_IFLNK {
            FileType::SymLink {
                is_dir: match target_is_dir {
                    Some(d) => d,
                    None => false,
                },
            }
        } else if fmt == S_IFCHR {
            FileType::CharDevice
        } else if fmt == S_IFBLK {
            FileType::BlockDevice
        } else if fmt == S_IFSOCK {
            FileType::Socket
        } else {
            FileType::Special
        }
    }

    /// A directory, or a symbolic link to one.
    pub fn is_dirlike(self) -> (r: bool)
        ensures
            r == dirlike(self),
    {
        match self {
            FileType::Directory { .. } => true,
            FileType::SymLink { is_dir } => is_dir,
            _ => false,
        }
    }

    /// A directory proper.
    pub fn is_directory(self) -> (r: bool)
        ensures
            r == is_directory_kind(self),
    {
        match self {
            FileType::Directory { .. } => true,
            _ => false,
        }
    }
}

/// One filesystem object found by a traversal, with its metadata snapshot.
#[derive(Clone, Debug)]
pub struct FileEntry {
    /// Path of the object, `/`-separated.
    pub path: String,
    /// Its file name (the last component of the path).
    pub name: String,
    pub file_type: FileType,
    /// Size in bytes; absent when the metadata could not be read.
    pub size: Option<u64>,
    /// Modification time in nanoseconds since the epoch; absent when unknown.
    pub modified: Option<i128>,
    /// Mode bits.
    pub mode: u32,
    pub uid: u32,
    pub gid: u32,
    pub inode: u64,
    pub links: u64,
    /// Depth relative to the traversal root (the root's children have depth 1).
    pub depth: usize,
    pub is_symlink: bool,
    /// A symbolic link whose target cannot be resolved.
    pub broken_link: bool,
    /// Version-control report attached to the entry, if any.
    pub git_status: Option<GitStatusInfo>,
}

/// Index of the last occurrence of `c` in `s`, or -1.
pub open spec fn last_index_of(s: Seq<char>, c: char) -> int
    decreases s.len(),
{
    if s.len() == 0 {
        -1
    } else if s.last() == c {
        s.len() - 1
    } else {
        last_index_of(s.drop_last(), c)
    }
}

pub proof fn lemma_last_index_bounds(s: Seq<char>, c: char)
    ensures
        -1 <= last_index_of(s, c) < s.len(),
        last_index_of(s, c) >= 0 ==> s[last_index_of(s, c)] == c,
    decreases s.len(),
{
    if s.len() > 0 && s.last() != c {
        lemma_last_index_bounds(s.drop_last(), c);
    }
}

/// The name `.`.
pub open spec fn is_dot(name: Seq<char>) -> bool {
    name.len() == 1 && name[0] == '.'
}

/// The name `..`.
pub open spec fn is_dot_dot(name: Seq<char>) -> bool {
    name.len() == 2 && name[0] == '.' && name[1] == '.'
}

/// Whether `name` is `.` (when `two` is false) or `..` (when it is true).
fn is_dot_name(name: &str, two: bool) -> (r: bool)
    ensures
        r == if two { is_dot_dot(name@) } else { is_dot(name@) },
{
    let n = name.unicode_len();
    if two {
        n == 2 && name.get_char(0) == '.' && name.get_char(1) == '.'
    } else {
        n == 1 && name.get_char(0) == '.'
    }
}

/// Extension of a file name: what follows its last dot, when something
/// precedes that dot; `..` has none.
pub open spec fn extension_of(name: Seq<char>) -> Option<Seq<char>> {
    let k = last_index_of(name, '.');
    if is_dot_dot(name) || k < 1 {
        None
    } else {
        Some(name.subrange(k + 1, name.len() as int))
    }
}

/// Extension of a file name (see `extension_of`).
pub fn extension(name: &str) -> (r: Option<String>)
    ensures
        match r {
            Some(e) => extension_of(name@) == Some(e@),
            None => extension_of(name@) is None,
        },
{
    let n = name.unicode_len();
    if is_dot_name(name, true) {
        return None;
    }
    let mut i: usize = n;
    assert(name@.subrange(0, n as int) == name@);
    while i > 0 && name.get_char(i - 1) != '.'
        invariant
            n == name@.len(),
            i <= n,
            last_index_of(name@, '.') == last_index_of(name@.subrange(0, i as int), '.'),
        decreases i,
    {
        assert(name@.subrange(0, i as int).drop_last() == name@.subrange(0, i - 1));
        i = i - 1;
    }
    proof {
        assert(name@.subrange(0, n as int) == name@);
        if i > 0 {
            assert(name@.subrange(0, i as int).last() == '.');
        }
    }
    if i <= 1 {
        None
    } else {
        Some(String::from_str(name.substring_char(i, n)))
    }
}

/// A failure met while producing the entry sequence.
#[derive(Clone, Debug, PartialEq, Eq)]
pub enum StreamError {
    /// Reading an entry's metadata failed.
    Io(String),
    /// The version-control backend failed.
    Git(String),
    /// The walk itself failed.
    Traversal(String),
}

/// Which entries a listing shows.
#[derive(Copy, Clone, Debug, PartialEq, Eq, Structural)]
pub enum Display {
    /// Everything, including the `.` and `..` pseudo-entries.
    All,
    /// Everything but the `.` and `..` pseudo-entries.
    AlmostAll,
    /// Directories only.
    DirectoryOnly,
    /// Everything, system-protected entries included.
    SystemProtected,
    /// No dot-prefixed names.
    VisibleOnly,
}

/// The layout a listing is rendered in.
#[derive(Copy, Clone, Debug, PartialEq, Eq, Structural)]
pub enum Layout {
    Grid,
    Tree,
    OneLine,
}

/// An entry survives the display-mode filter.
pub open spec fn display_keeps(display: Display, name: Seq<char>, is_dir: bool) -> bool {
    match display {
        Display::VisibleOnly => !(name.len() > 0 && name[0] == '.'),
        Display::AlmostAll => !is_dot(name) && !is_dot_dot(name),
        Display::DirectoryOnly => is_dir,
        Display::All | Display::SystemProtected => true,
    }
}

/// Whether an entry with this name survives the display-mode filter.
pub fn passes_display(display: Display, name: &str, is_dir: bool) -> (r: bool)
    ensures
        r == display_keeps(display, name@, is_dir),
{
    match display {
        Display::VisibleOnly => !(name.unicode_len() > 0 && name.get_char(0) == '.'),
        Display::AlmostAll => !is_dot_name(name, false) && !is_dot_name(name, true),
        Display::DirectoryOnly => is_dir,
        Display::All | Display::SystemProtected => true,
    }
}

/// The depth a walk descends to: one level for a plain listing, the recursion
/// depth when recursing or laying out a tree.
pub open spec fn walk_depth(layout: Layout, recursive: bool, depth: usize) -> usize {
    if layout == Layout::Tree || recursive {
        depth
    } else {
        1
    }
}

/// The depth a walk descends to.
pub fn traversal_depth(layout: Layout, recursive: bool, depth: usize) -> (r: usize)
    ensures
        r == walk_depth(layout, recursive, depth),
{
    if layout == Layout::Tree || recursive {
        depth
    } else {
        1
    }
}

/// Whether a listing descends into an entry: never for a directory-only
/// listing that is not a tree; always into a directory; into a link to a
/// directory only when no more than one column is shown.
pub open spec fn descends_into(t: FileType, display: Display, layout: Layout, columns: usize) -> bool {
    if display == Display::DirectoryOnly && layout != Layout::Tree {
        false
    } else {
        match t {
            FileType::Directory { .. } => true,
            FileType::SymLink { is_dir } => is_dir && columns <= 1,
            _ => false,
        }
    }
}

/// Whether a listing descends into an entry (see `descends_into`).
pub fn should_recurse(t: FileType, display: Display, layout: Layout, columns: usize) -> (r: bool)
    ensures
        r == descends_into(t, display, layout, columns),
{
    if display == Display::DirectoryOnly && layout != Layout::Tree {
        return false;
    }
    match t {
        FileType::Directory { .. } => true,
        FileType::SymLink { is_dir } => is_dir && columns <= 1,
        _ => false,
    }
}

/// The status pair shown for an entry, if the entry carries a report.
pub fn entry_status(entry: &FileEntry) -> (r: Option<GitFileStatus>)
    ensures
        match entry.git_status {
            Some(info) => r == Some(crate::status::status_of_info(info)),
            None => r is None,
        },
{
    match &entry.git_status {
        Some(info) => Some(GitFileStatus::from_gix_status(info)),
        None => None,
    }
}

} // verus!
