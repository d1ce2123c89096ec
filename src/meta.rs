//! Per-entry metadata decoded from plain values: permission bits, link
//! targets, access-control data and the type indicator.

use vstd::prelude::*;
use crate::entry::FileType;

verus! {

/// The twelve permission bits of a mode.
#[derive(Debug, PartialEq, Eq, Copy, Clone, Structural)]
pub struct Permissions {
    pub user_read: bool,
    pub user_write: bool,
    pub user_execute: bool,
    pub group_read: bool,
    pub group_write: bool,
    pub group_execute: bool,
    pub other_read: bool,
    pub other_write: bool,
    pub other_execute: bool,
    pub sticky: bool,
    pub setgid: bool,
    pub setuid: bool,
}

pub const USER_READ: u32 = 0o400;
pub const USER_WRITE: u32 = 0o200;
pub const USER_EXECUTE: u32 = 0o100;
pub const GROUP_READ: u32 = 0o40;
pub const GROUP_WRITE: u32 = 0o20;
pub const GROUP_EXECUTE: u32 = 0o10;
pub const OTHER_READ: u32 = 0o4;
pub const OTHER_WRITE: u32 = 0o2;
pub const OTHER_EXECUTE: u32 = 0o1;
pub const STICKY: u32 = 0o1000;
pub const SETGID: u32 = 0o2000;
pub const SETUID: u32 = 0o4000;

/// The bit `bit` is set in `mode`.
pub open spec fn has_bit(mode: u32, bit: u32) -> bool {
    mode & bit == bit
}

/// Value of three flags read as an octal digit.
pub open spec fn octal_digit(r: bool, w: bool, x: bool) -> nat {
    (if r { 4nat } else { 0nat }) + (if w { 2nat } else { 0nat }) + (if x { 1nat } else { 0nat })
}

impl Permissions {
    /// Decodes the permission bits of a mode.
    pub fn from_mode(mode: u32) -> (r: Permissions)
        ensures
            r.user_read == has_bit(mode, USER_READ),
            r.user_write == has_bit(mode, USER_WRITE),
            r.user_execute == has_bit(mode, USER_EXECUTE),
            r.group_read == has_bit(mode, GROUP_READ),
            r.group_write == has_bit(mode, GROUP_WRITE),
            r.group_execute == has_bit(mode, GROUP_EXECUTE),
            r.other_read == has_bit(mode, OTHER_READ),
            r.other_write == has_bit(mode, OTHER_WRITE),
            r.other_execute == has_bit(mode, OTHER_EXECUTE),
            r.sticky == has_bit(mode, STICKY),
            r.setgid == has_bit(mode, SETGID),
            r.setuid == has_bit(mode, SETUID),
    {
        Permissions {
            user_read: mode & USER_READ == USER_READ,
            user_write: mode & USER_WRITE == USER_WRITE,
            user_execute: mode & USER_EXECUTE == USER_EXECUTE,
            group_read: mode & GROUP_READ == GROUP_READ,
            group_write: mode & GROUP_WRITE == GROUP_WRITE,
            group_execute: mode & GROUP_EXECUTE == GROUP_EXECUTE,
            other_read: mode & OTHER_READ == OTHER_READ,
            other_write: mode & OTHER_WRITE == OTHER_WRITE,
            other_execute: mode & OTHER_EXECUTE == OTHER_EXECUTE,
            sticky: mode & STICKY == STICKY,
            setgid: mode & SETGID == SETGID,
            setuid: mode & SETUID == SETUID,
        }
    }

    /// Three flags read as an octal digit.
    pub fn bits_to_octal(r: bool, w: bool, x: bool) -> (d: u8)
        ensures
            d as nat == octal_digit(r, w, x),
    {
        (if r { 4u8 } else { 0u8 }) + (if w { 2u8 } else { 0u8 }) + (if x { 1u8 } else { 0u8 })
    }

    /// The mode these bits make up: special bits, then user, group, other.
    pub fn _mode(&self) -> (m: u32)
        ensures
            m as nat == octal_digit(self.setuid, self.setgid, self.sticky) * 512 + octal_digit(
                self.user_read,
                self.user_write,
                self.user_execute,
            ) * 64 + octal_digit(self.group_read, self.group_write, self.group_execute) * 8
                + octal_digit(self.other_read, self.other_write, self.other_execute),
    {
        let user = Self::bits_to_octal(self.user_read, self.user_write, self.user_execute) as u32;
        let group = Self::bits_to_octal(self.group_read, self.group_write, self.group_execute) as u32;
        let other = Self::bits_to_octal(self.other_read, self.other_write, self.other_execute) as u32;
        let special = Self::bits_to_octal(self.setuid, self.setgid, self.sticky) as u32;
        special * 512 + user * 64 + group * 8 + other
    }

    /// Whether anyone may execute.
    pub fn is_executable(&self) -> (r: bool)
        ensures
            r == (self.user_execute || self.group_execute || self.other_execute),
    {
        self.user_execute || self.group_execute || self.other_execute
    }
}

/// Windows file attributes.
#[derive(Debug, Clone, Copy, PartialEq, Eq, Structural)]
pub struct WindowsAttributes {
    pub archive: bool,
    pub readonly: bool,
    pub hidden: bool,
    pub system: bool,
}

/// Unix permissions or Windows attributes.
#[derive(Clone, Debug)]
pub enum PermissionsOrAttributes {
    Permissions(Permissions),
    WindowsAttributes(WindowsAttributes),
}

/// Size units.
#[derive(Clone, Debug, PartialEq, Eq, Structural)]
pub enum Unit {
    Byte,
    Kilo,
    Mega,
    Giga,
    Tera,
}

/// How a name is shown.
#[derive(Clone, Debug)]
pub enum DisplayOption {
    /// The file name only.
    FileName,
    /// The path relative to a base path.
    Relative { base_path: String },
}

/// Whether an entry is in error, for highlighting.
#[derive(Debug, Clone, Copy, PartialEq, Eq, Structural)]
pub enum ErrorStatus {
    HasError,
    NoError,
}

/// How strongly an entry is highlighted.
#[derive(Debug, Clone, Copy, PartialEq, Eq, Structural)]
pub enum Highlight {
    Plain,
    Subtle,
    MaxAttention,
}

/// A symbolic link's target, and whether the target exists.
#[derive(Clone, Debug)]
pub struct SymLink {
    target: Option<String>,
    valid: bool,
}

impl SymLink {
    /// A link to `target` (absent when the path is no link or its target is
    /// not valid UTF-8).
    pub fn new(target: Option<String>, valid: bool) -> (r: SymLink)
        ensures
            r.target_view() == (match target {
                Some(t) => Some(t@),
                None => None,
            }),
            r.is_valid() == valid,
    {
        SymLink { target, valid }
    }

    pub closed spec fn target_view(&self) -> Option<Seq<char>> {
        match self.target {
            Some(t) => Some(t@),
            None => None,
        }
    }

    pub closed spec fn is_valid(&self) -> bool {
        self.valid
    }

    /// Whether the target exists.
    pub fn valid(&self) -> (r: bool)
        ensures
            r == self.is_valid(),
    {
        self.valid
    }

    /// The target, as text.
    pub fn symlink_string(&self) -> (r: Option<String>)
        ensures
            match r {
                Some(s) => self.target_view() == Some(s@),
                None => self.target_view() is None,
            },
    {
        match &self.target {
            Some(t) => Some(t.clone()),
            None => None,
        }
    }
}

/// The extended attributes that carry access-control data.
#[derive(Clone, Copy, Debug, PartialEq, Eq, Structural)]
pub enum Method {
    Acl,
    Selinux,
    Smack,
}

/// The attribute name of each method.
pub open spec fn method_name(m: Method) -> Seq<char> {
    match m {
        Method::Acl => "system.posix_acl_access"@,
        Method::Selinux => "security.selinux"@,
        Method::Smack => "security.SMACK64"@,
    }
}

impl Method {
    /// The extended-attribute name read for this method.
    pub fn name(&self) -> (r: &'static str)
        ensures
            r@ == method_name(*self),
    {
        match self {
            Method::Acl => "system.posix_acl_access",
            Method::Selinux => "security.selinux",
            Method::Smack => "security.SMACK64",
        }
    }
}

/// What `String::from_utf8_lossy` makes of some bytes.
pub uninterp spec fn lossy_text(b: Seq<u8>) -> Seq<char>;

/// Relies on `String::from_utf8_lossy`: the text depends on the bytes alone,
/// and no bytes give no text.
#[verifier::external_body]
fn from_utf8_lossy(b: &[u8]) -> (r: String)
    ensures
        r@ == lossy_text(b@),
        b@.len() == 0 ==> r@.len() == 0,
{
    String::from_utf8_lossy(b).into_owned()
}

/// Access-control list presence and security contexts of a path.
#[derive(Clone, Debug)]
pub struct AccessControl {
    has_acl: bool,
    selinux_context: String,
    smack_context: String,
}

impl AccessControl {
    pub closed spec fn acl(&self) -> bool {
        self.has_acl
    }

    pub closed spec fn selinux(&self) -> Seq<char> {
        self.selinux_context@
    }

    pub closed spec fn smack(&self) -> Seq<char> {
        self.smack_context@
    }

    /// Access-control data for a path whose extended attributes cannot be
    /// read: no list and no context. Where they can be read, `from_data`
    /// builds the data from their raw values.
    pub fn for_path(_path: &str) -> (r: AccessControl)
        ensures
            !r.acl(),
            r.selinux().len() == 0,
            r.smack().len() == 0,
    {
        AccessControl { has_acl: false, selinux_context: String::new(), smack_context: String::new() }
    }

    /// Access-control data from the raw extended-attribute values.
    pub fn from_data(has_acl: bool, selinux_context: &[u8], smack_context: &[u8]) -> (r: AccessControl)
        ensures
            r.acl() == has_acl,
            r.selinux() == lossy_text(selinux_context@),
            r.smack() == lossy_text(smack_context@),
            selinux_context@.len() == 0 ==> r.selinux().len() == 0,
            smack_context@.len() == 0 ==> r.smack().len() == 0,
    {
        AccessControl {
            has_acl,
            selinux_context: from_utf8_lossy(selinux_context),
            smack_context: from_utf8_lossy(smack_context),
        }
    }

    /// Whether an access-control list is present.
    pub fn has_acl(&self) -> (r: bool)
        ensures
            r == self.acl(),
    {
        self.has_acl
    }

    /// Whether either security context is set.
    pub fn has_context(&self) -> (r: bool)
        ensures
            r == (self.selinux().len() > 0 || self.smack().len() > 0),
    {
        self.selinux_context.as_str().unicode_len() > 0 || self.smack_context.as_str().unicode_len() > 0
    }
}

/// The indicator glyph for a kind of entry.
pub open spec fn indicator_of(t: FileType) -> Seq<char> {
    match t {
        FileType::Directory { .. } => "\u{f024b} "@,
        FileType::File { executable: true, .. } => "\u{f0a0a} "@,
        FileType::Pipe => "\u{f0232} "@,
        FileType::Socket => "\u{f01a8} "@,
        FileType::SymLink { .. } => "\u{f0339} "@,
        _ => ""@,
    }
}

/// A glyph that marks the kind of an entry.
#[derive(Clone, Debug)]
pub struct Indicator(pub &'static str);

impl Indicator {
    /// The indicator for a kind of entry.
    pub fn from_file_type(file_type: FileType) -> (r: Indicator)
        ensures
            r.0@ == indicator_of(file_type),
    {
        let res = match file_type {
            FileType::Directory { .. } => "\u{f024b} ",
            FileType::File { executable: true, .. } => "\u{f0a0a} ",
            FileType::Pipe => "\u{f0232} ",
            FileType::Socket => "\u{f01a8} ",
            FileType::SymLink { .. } => "\u{f0339} ",
            _ => "",
        };
        Indicator(res)
    }
}

} // verus!
