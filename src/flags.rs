//! Listing settings: which columns to show, colour and date options, and the
//! optional settings a configuration file may hold.

use vstd::prelude::*;
use crate::entry::{Display, Layout};
use crate::pattern::views;
use crate::sort::{DirGrouping, SortColumn};
use crate::text::str_eq;

verus! {

/// One column of a long listing.
#[derive(Clone, Debug, Copy, PartialEq, Eq, Structural, Hash)]
pub enum Block {
    Permission,
    User,
    Group,
    Context,
    Size,
    SizeValue,
    Date,
    Name,
    INode,
    Links,
    GitStatus,
}

/// The header shown above a column.
pub open spec fn header_of(b: Block) -> Seq<char> {
    match b {
        Block::INode => "INode"@,
        Block::Links => "Links"@,
        Block::Permission => "Permissions"@,
        Block::User => "User"@,
        Block::Group => "Group"@,
        Block::Context => "Context"@,
        Block::Size => "Size"@,
        Block::SizeValue => "SizeValue"@,
        Block::Date => "Date Modified"@,
        Block::Name => "Name"@,
        Block::GitStatus => "Git"@,
    }
}

impl Block {
    /// The header shown above this column.
    pub fn get_header(&self) -> (r: &'static str)
        ensures
            r@ == header_of(*self),
    {
        match self {
            Block::INode => "INode",
            Block::Links => "Links",
            Block::Permission => "Permissions",
            Block::User => "User",
            Block::Group => "Group",
            Block::Context => "Context",
            Block::Size => "Size",
            Block::SizeValue => "SizeValue",
            Block::Date => "Date Modified",
            Block::Name => "Name",
            Block::GitStatus => "Git",
        }
    }
}

/// The column a name stands for.
pub open spec fn block_named(s: Seq<char>) -> Option<Block> {
    if s == "permission"@ {
        Some(Block::Permission)
    } else if s == "user"@ {
        Some(Block::User)
    } else if s == "group"@ {
        Some(Block::Group)
    } else if s == "context"@ {
        Some(Block::Context)
    } else if s == "size"@ {
        Some(Block::Size)
    } else if s == "size_value"@ {
        Some(Block::SizeValue)
    } else if s == "date"@ {
        Some(Block::Date)
    } else if s == "name"@ {
        Some(Block::Name)
    } else if s == "inode"@ {
        Some(Block::INode)
    } else if s == "links"@ {
        Some(Block::Links)
    } else if s == "git"@ {
        Some(Block::GitStatus)
    } else {
        None
    }
}

impl Block {
    /// The column a name stands for; an unknown name is an error that quotes
    /// it.
    pub fn parse(string: &str) -> (r: Result<Block, String>)
        ensures
            match r {
                Ok(b) => block_named(string@) == Some(b),
                Err(e) => block_named(string@) is None && e@ == "Not a valid block name: "@ + string@,
            },
    {
        if str_eq(string, "permission") {
            Ok(Block::Permission)
        } else if str_eq(string, "user") {
            Ok(Block::User)
        } else if str_eq(string, "group") {
            Ok(Block::Group)
        } else if str_eq(string, "context") {
            Ok(Block::Context)
        } else if str_eq(string, "size") {
            Ok(Block::Size)
        } else if str_eq(string, "size_value") {
            Ok(Block::SizeValue)
        } else if str_eq(string, "date") {
            Ok(Block::Date)
        } else if str_eq(string, "name") {
            Ok(Block::Name)
        } else if str_eq(string, "inode") {
            Ok(Block::INode)
        } else if str_eq(string, "links") {
            Ok(Block::Links)
        } else if str_eq(string, "git") {
            Ok(Block::GitStatus)
        } else {
            let mut e = String::from_str("Not a valid block name: ");
            e.append(string);
            Err(e)
        }
    }
}

/// The columns named in `names`, in order, unknown names left out.
pub open spec fn blocks_named(names: Seq<Seq<char>>) -> Seq<Block>
    decreases names.len(),
{
    if names.len() == 0 {
        Seq::empty()
    } else {
        let rest = blocks_named(names.drop_last());
        match block_named(names.last()) {
            Some(b) => rest.push(b),
            None => rest,
        }
    }
}

/// The columns named in `names`, unknown names left out.
fn parse_blocks(names: &Vec<String>) -> (r: Vec<Block>)
    ensures
        r@ == blocks_named(views(names@)),
{
    let mut out: Vec<Block> = Vec::new();
    let mut i: usize = 0;
    while i < names.len()
        invariant
            i <= names@.len(),
            out@ == blocks_named(views(names@).subrange(0, i as int)),
        decreases names@.len() - i,
    {
        let ghost pre = views(names@).subrange(0, i as int);
        let ghost post = views(names@).subrange(0, i + 1);
        assert(post.drop_last() == pre);
        assert(post.last() == names@[i as int]@);
        match Block::parse(names[i].as_str()) {
            Ok(b) => out.push(b),
            Err(_) => {},
        }
        i = i + 1;
    }
    assert(views(names@).subrange(0, names@.len() as int) == views(names@));
    out
}

/// The column choices given on the command line.
#[derive(Clone, Debug)]
pub struct BlockArgs {
    /// The long format was asked for.
    pub long: bool,
    /// A security-context column was asked for.
    pub context: bool,
    /// An inode column was asked for.
    pub inode: bool,
    /// A git column was asked for.
    pub git: bool,
    /// Column names given explicitly.
    pub blocks: Vec<String>,
}

/// The columns of a listing, in order.
#[derive(Clone, Debug, PartialEq, Eq)]
pub struct Blocks(pub Vec<Block>);

/// Index of the first occurrence of `b` in `s`, or -1.
pub open spec fn position_of(s: Seq<Block>, b: Block) -> int
    decreases s.len(),
{
    if s.len() == 0 {
        -1
    } else if s[0] == b {
        0
    } else if position_of(s.drop_first(), b) < 0 {
        -1
    } else {
        1 + position_of(s.drop_first(), b)
    }
}

proof fn lemma_position(s: Seq<Block>, b: Block)
    ensures
        -1 <= position_of(s, b) < s.len(),
        position_of(s, b) >= 0 ==> s[position_of(s, b)] == b,
        position_of(s, b) < 0 <==> !s.contains(b),
        forall|j: int| 0 <= j < position_of(s, b) ==> s[j] != b,
    decreases s.len(),
{
    if s.len() > 0 && s[0] != b {
        lemma_position(s.drop_first(), b);
        if s.contains(b) {
            let k = choose|k: int| 0 <= k < s.len() && s[k] == b;
            assert(s.drop_first()[k - 1] == b);
        }
        if s.drop_first().contains(b) {
            let k = choose|k: int| 0 <= k < s.drop_first().len() && s.drop_first()[k] == b;
            assert(s[k + 1] == b);
        }
        assert forall|j: int| 0 <= j < position_of(s, b) implies s[j] != b by {
            if j > 0 {
                assert(s[j] == s.drop_first()[j - 1]);
            }
        }
    } else if s.len() > 0 {
        assert(s.contains(b)) by {
            assert(s[0] == b);
        }
    }
}

/// Position of the first occurrence of `b`.
fn find_block(v: &Vec<Block>, b: Block) -> (r: Option<usize>)
    ensures
        match r {
            Some(k) => k as int == position_of(v@, b) && k < v@.len(),
            None => position_of(v@, b) < 0,
        },
{
    proof {
        lemma_position(v@, b);
    }
    let mut k: usize = 0;
    while k < v.len()
        invariant
            k <= v@.len(),
            forall|j: int| 0 <= j < k ==> v@[j] != b,
        decreases v@.len() - k,
    {
        if v[k] == b {
            proof {
                lemma_first_at(v@, b, k as int);
            }
            return Some(k);
        }
        k = k + 1;
    }
    proof {
        assert(!v@.contains(b));
    }
    None
}

proof fn lemma_first_at(s: Seq<Block>, b: Block, k: int)
    requires
        0 <= k < s.len(),
        s[k] == b,
        forall|j: int| 0 <= j < k ==> s[j] != b,
    ensures
        position_of(s, b) == k,
    decreases s.len(),
{
    if k > 0 {
        assert forall|j: int| 0 <= j < k - 1 implies s.drop_first()[j] != b by {
            assert(s.drop_first()[j] == s[j + 1]);
        }
        lemma_first_at(s.drop_first(), b, k - 1);
    }
}

/// The columns of the long format.
pub open spec fn long_blocks() -> Seq<Block> {
    seq![Block::Permission, Block::User, Block::Group, Block::Size, Block::Date, Block::Name]
}

/// Where a context column goes: after the group column, else after the user
/// column, else first.
pub open spec fn context_position(s: Seq<Block>) -> int {
    if position_of(s, Block::Group) >= 0 {
        position_of(s, Block::Group) + 1
    } else if position_of(s, Block::User) >= 0 {
        position_of(s, Block::User) + 1
    } else {
        0
    }
}

/// Where a git column goes: before the name column, else last.
pub open spec fn git_position(s: Seq<Block>) -> int {
    if position_of(s, Block::Name) >= 0 {
        position_of(s, Block::Name)
    } else {
        s.len() as int
    }
}

impl Blocks {
    /// The columns of the long format: permission, user, group, size, date
    /// and name.
    pub fn long() -> (r: Blocks)
        ensures
            r.0@ == long_blocks(),
    {
        let r = Blocks(vec![Block::Permission, Block::User, Block::Group, Block::Size, Block::Date, Block::Name]);
        assert(r.0@ =~= long_blocks());
        r
    }

    /// Whether an inode column is present.
    pub fn contains_inode(&self) -> (r: bool)
        ensures
            r == self.0@.contains(Block::INode),
    {
        proof {
            lemma_position(self.0@, Block::INode);
        }
        find_block(&self.0, Block::INode).is_some()
    }

    /// Puts an inode column first.
    pub fn prepend_inode(&mut self)
        ensures
            final(self).0@ == old(self).0@.insert(0, Block::INode),
    {
        self.0.insert(0, Block::INode);
    }

    /// Puts an inode column first, unless one is present.
    pub fn optional_prepend_inode(&mut self)
        ensures
            old(self).0@.contains(Block::INode) ==> final(self).0@ == old(self).0@,
            !old(self).0@.contains(Block::INode) ==> final(self).0@ == old(self).0@.insert(0, Block::INode),
    {
        if !self.contains_inode() {
            self.prepend_inode()
        }
    }

    /// Whether a size column is present.
    pub fn displays_size(&self) -> (r: bool)
        ensures
            r == self.0@.contains(Block::Size),
    {
        proof {
            lemma_position(self.0@, Block::Size);
        }
        find_block(&self.0, Block::Size).is_some()
    }

    /// Adds a context column after the group column (or the user column, or
    /// first), unless one is present.
    pub fn optional_insert_context(&mut self)
        ensures
            old(self).0@.contains(Block::Context) ==> final(self).0@ == old(self).0@,
            !old(self).0@.contains(Block::Context) ==> final(self).0@ == old(self).0@.insert(
                context_position(old(self).0@),
                Block::Context,
            ),
    {
        proof {
            lemma_position(self.0@, Block::Context);
            lemma_position(self.0@, Block::Group);
            lemma_position(self.0@, Block::User);
        }
        if find_block(&self.0, Block::Context).is_some() {
            return;
        }
        let len = self.0.len();
        match find_block(&self.0, Block::Group) {
            Some(pos) => {
                assert(pos < len);
                self.0.insert(pos + 1, Block::Context)
            },
            None => match find_block(&self.0, Block::User) {
                Some(pos) => {
                    assert(pos < len);
                    self.0.insert(pos + 1, Block::Context)
                },
                None => self.0.insert(0, Block::Context),
            },
        }
    }

    /// Whether a git column is present.
    pub fn contains_git_status(&self) -> (r: bool)
        ensures
            r == self.0@.contains(Block::GitStatus),
    {
        proof {
            lemma_position(self.0@, Block::GitStatus);
        }
        find_block(&self.0, Block::GitStatus).is_some()
    }

    /// Adds a git column before the name column, or last.
    pub fn add_git_status(&mut self)
        ensures
            final(self).0@ == old(self).0@.insert(git_position(old(self).0@), Block::GitStatus),
    {
        proof {
            lemma_position(self.0@, Block::Name);
        }
        match find_block(&self.0, Block::Name) {
            Some(position) => self.0.insert(position, Block::GitStatus),
            None => {
                let ghost before = self.0@;
                self.0.push(Block::GitStatus);
                assert(self.0@ =~= before.insert(before.len() as int, Block::GitStatus));
            },
        }
    }

    /// Adds a git column before the name column, or last, unless one is
    /// present.
    pub fn optional_add_git_status(&mut self)
        ensures
            old(self).0@.contains(Block::GitStatus) ==> final(self).0@ == old(self).0@,
            !old(self).0@.contains(Block::GitStatus) ==> final(self).0@ == old(self).0@.insert(
                git_position(old(self).0@),
                Block::GitStatus,
            ),
    {
        if !self.contains_git_status() {
            self.add_git_status()
        }
    }
}

/// The columns named by a list, unless none of its names is known.
pub open spec fn named_columns(names: Seq<Seq<char>>) -> Option<Seq<Block>> {
    if blocks_named(names).len() == 0 {
        None
    } else {
        Some(blocks_named(names))
    }
}

/// The columns a listing shows: the long format's (or those its
/// configuration names, in the long format), replaced by those named on the
/// command line; then a context column, an inode column and, in the long
/// format, a git column when asked for and not present.
pub open spec fn configured_blocks(cli: BlockArgs, config: Config) -> Seq<Block> {
    let base = if cli.long { long_blocks() } else { seq![Block::Name] };
    let from_config = match config.blocks {
        Some(c) => named_columns(views(c@)),
        None => None,
    };
    let b1 = if cli.long && from_config is Some { from_config->Some_0 } else { base };
    let b2 = if cli.blocks@.len() > 0 && named_columns(views(cli.blocks@)) is Some {
        named_columns(views(cli.blocks@))->Some_0
    } else {
        b1
    };
    let b3 = if cli.context && !b2.contains(Block::Context) { b2.insert(context_position(b2), Block::Context) } else { b2 };
    let b4 = if cli.inode && !b3.contains(Block::INode) { b3.insert(0, Block::INode) } else { b3 };
    if cli.git && cli.long && !b4.contains(Block::GitStatus) { b4.insert(git_position(b4), Block::GitStatus) } else { b4 }
}

impl Blocks {
    /// The columns named on the command line, unless none is known.
    pub fn from_cli(cli: &BlockArgs) -> (r: Option<Blocks>)
        ensures
            match r {
                Some(b) => cli.blocks@.len() > 0 && named_columns(views(cli.blocks@)) == Some(b.0@),
                None => cli.blocks@.len() == 0 || named_columns(views(cli.blocks@)) is None,
            },
    {
        if cli.blocks.len() == 0 {
            return None;
        }
        let blocks = parse_blocks(&cli.blocks);
        if blocks.len() == 0 {
            None
        } else {
            Some(Blocks(blocks))
        }
    }

    /// The columns a configuration names, unless it names none that is known.
    pub fn from_config(config: &Config) -> (r: Option<Blocks>)
        ensures
            match config.blocks {
                Some(c) => match r {
                    Some(b) => named_columns(views(c@)) == Some(b.0@),
                    None => named_columns(views(c@)) is None,
                },
                None => r is None,
            },
    {
        match &config.blocks {
            Some(c) => {
                let blocks = parse_blocks(c);
                if blocks.len() == 0 {
                    None
                } else {
                    Some(Blocks(blocks))
                }
            },
            None => None,
        }
    }

    /// The columns a listing shows (see `configured_blocks`).
    pub fn configure_from(cli: &BlockArgs, config: &Config) -> (r: Blocks)
        ensures
            r.0@ == configured_blocks(*cli, *config),
    {
        let mut blocks = if cli.long {
            Blocks::long()
        } else {
            Blocks::default()
        };
        if cli.long {
            if let Some(value) = Self::from_config(config) {
                blocks = value;
            }
        }
        if let Some(value) = Self::from_cli(cli) {
            blocks = value;
        }
        if cli.context {
            blocks.optional_insert_context();
        }
        if cli.inode {
            blocks.optional_prepend_inode();
        }
        if cli.git && cli.long {
            blocks.optional_add_git_status();
        }
        blocks
    }
}

impl Default for Blocks {
    /// The name column alone.
    fn default() -> (r: Blocks)
        ensures
            r.0@ == seq![Block::Name],
    {
        let r = Blocks(vec![Block::Name]);
        assert(r.0@ =~= seq![Block::Name]);
        r
    }
}

/// When to use colour.
#[derive(Clone, Debug, Copy, PartialEq, Eq, Structural)]
pub enum ColorOption {
    Always,
    Auto,
    Never,
}

impl ColorOption {
    /// The option a configuration sets: never in classic mode, else its
    /// colour setting, if any.
    pub fn from_config(config: &Config) -> (r: Option<ColorOption>)
        ensures
            config.classic == Some(true) ==> r == Some(ColorOption::Never),
            config.classic != Some(true) ==> r == match config.color {
                Some(c) => c.when,
                None => None,
            },
    {
        if config.classic == Some(true) {
            Some(ColorOption::Never)
        } else {
            match &config.color {
                Some(c) => c.when,
                None => None,
            }
        }
    }

    /// The option named by a command-line value: `always`, `auto` or `never`.
    pub fn from_arg_str(value: &str) -> (r: ColorOption)
        requires
            value@ == "always"@ || value@ == "auto"@ || value@ == "never"@,
        ensures
            value@ == "always"@ ==> r == ColorOption::Always,
            value@ == "auto"@ ==> r == ColorOption::Auto,
            value@ == "never"@ ==> r == ColorOption::Never,
    {
        proof {
            reveal_strlit("always");
            reveal_strlit("auto");
            reveal_strlit("never");
            assert("always"@.len() == 6 && "auto"@.len() == 4 && "never"@.len() == 5);
        }
        if str_eq(value, "always") {
            ColorOption::Always
        } else if str_eq(value, "auto") {
            ColorOption::Auto
        } else {
            ColorOption::Never
        }
    }
}

/// The colour theme to use.
#[derive(PartialEq, Eq, Debug, Clone)]
pub enum ThemeOption {
    NoColor,
    Default,
    NoLscolors,
    /// A theme file given by path.
    CustomLegacy(String),
    Custom,
}

/// The theme a configuration asks for: none in classic mode, else the one
/// its colour settings name, else the default.
pub open spec fn theme_for(config: Config) -> ThemeOption {
    if config.classic == Some(true) {
        ThemeOption::NoColor
    } else {
        match config.color {
            Some(c) => match c.theme {
                Some(t) => t,
                None => ThemeOption::Default,
            },
            None => ThemeOption::Default,
        }
    }
}

impl ThemeOption {
    /// The theme a configuration asks for (see `theme_for`).
    pub fn from_config(config: &Config) -> (r: ThemeOption)
        ensures
            r == theme_for(*config),
    {
        if config.classic == Some(true) {
            ThemeOption::NoColor
        } else {
            match &config.color {
                Some(c) => match &c.theme {
                    Some(t) => t.copy(),
                    None => ThemeOption::Default,
                },
                None => ThemeOption::Default,
            }
        }
    }

    /// A copy of this option.
    pub fn copy(&self) -> (r: ThemeOption)
        ensures
            r == *self,
    {
        match self {
            ThemeOption::NoColor => ThemeOption::NoColor,
            ThemeOption::Default => ThemeOption::Default,
            ThemeOption::NoLscolors => ThemeOption::NoLscolors,
            ThemeOption::CustomLegacy(p) => ThemeOption::CustomLegacy(p.clone()),
            ThemeOption::Custom => ThemeOption::Custom,
        }
    }
}

/// Colour settings.
#[derive(Clone, Debug)]
pub struct Color {
    pub when: ColorOption,
    pub theme: ThemeOption,
}

/// Which timestamps to show.
#[derive(Clone, Debug, PartialEq, Eq)]
pub enum DateFlag {
    Date,
    Locale,
    Relative,
    Iso,
    /// A custom format, without its leading `+`.
    Formatted(String),
}

/// Output in JSON lines for a language-model consumer.
#[derive(Clone, Debug, PartialEq, Eq)]
pub struct LlmOutput {
    pub enabled: bool,
    pub objective: Option<String>,
    pub current_task: Option<String>,
}

impl LlmOutput {
    /// The setting from the command line: on, with the objective and task
    /// given there, when asked for; nothing otherwise.
    pub fn from_cli(llm: bool, objective: Option<String>, current_task: Option<String>) -> (r: Option<LlmOutput>)
        ensures
            llm ==> r == Some(LlmOutput { enabled: true, objective, current_task }),
            !llm ==> r is None,
    {
        if llm {
            Some(LlmOutput { enabled: true, objective, current_task })
        } else {
            None
        }
    }

    /// The setting from a configuration: on or off as it says, with no
    /// objective or task; nothing when it is silent.
    pub fn from_config(config: &Config) -> (r: Option<LlmOutput>)
        ensures
            match config.llm {
                Some(enabled) => r == Some(LlmOutput { enabled, objective: None, current_task: None }),
                None => r is None,
            },
    {
        match config.llm {
            Some(enabled) => Some(LlmOutput { enabled, objective: None, current_task: None }),
            None => None,
        }
    }

    /// Whether JSON-lines output is on.
    pub fn is_enabled(&self) -> (r: bool)
        ensures
            r == self.enabled,
    {
        self.enabled
    }
}

/// When to show icons.
#[derive(Clone, Debug, Copy, PartialEq, Eq, Structural)]
pub enum IconOption {
    Always,
    Auto,
    Never,
}

/// Which icon set to use.
#[derive(Clone, Debug, Copy, PartialEq, Eq, Structural)]
pub enum IconTheme {
    Unicode,
    Fancy,
}

/// How sizes are shown.
#[derive(Clone, Debug, Copy, PartialEq, Eq, Structural)]
pub enum SizeFlag {
    Default,
    Short,
    Bytes,
}

/// How permissions are shown.
#[derive(Clone, Debug, Copy, PartialEq, Eq, Structural)]
pub enum PermissionFlag {
    Rwx,
    Octal,
    Attributes,
    Disable,
}

/// When names are hyperlinks.
#[derive(Clone, Debug, Copy, PartialEq, Eq, Structural)]
pub enum HyperlinkOption {
    Always,
    Auto,
    Never,
}

/// Colour settings of a configuration file.
#[derive(Clone, Debug, PartialEq, Eq)]
pub struct ColorConfig {
    pub when: Option<ColorOption>,
    pub theme: Option<ThemeOption>,
}

/// Icon settings of a configuration file.
#[derive(Clone, Debug, PartialEq, Eq)]
pub struct Icons {
    pub when: Option<IconOption>,
    pub theme: Option<IconTheme>,
    pub separator: Option<String>,
}

/// Recursion settings of a configuration file.
#[derive(Clone, Debug, PartialEq, Eq)]
pub struct Recursion {
    pub enabled: Option<bool>,
    pub depth: Option<usize>,
}

/// Sorting settings of a configuration file.
#[derive(Clone, Debug, PartialEq, Eq)]
pub struct Sorting {
    pub column: Option<SortColumn>,
    pub reverse: Option<bool>,
    pub dir_grouping: Option<DirGrouping>,
}

/// Owner-name truncation settings of a configuration file.
#[derive(Clone, Debug, PartialEq, Eq)]
pub struct TruncateOwner {
    pub after: Option<usize>,
    pub marker: Option<String>,
}

/// Every setting a configuration file may hold, each optional.
#[derive(Clone, Debug, PartialEq, Eq)]
pub struct Config {
    pub classic: Option<bool>,
    pub blocks: Option<Vec<String>>,
    pub color: Option<ColorConfig>,
    pub date: Option<String>,
    pub dereference: Option<bool>,
    pub display: Option<Display>,
    pub icons: Option<Icons>,
    pub ignore_globs: Option<Vec<String>>,
    pub indicators: Option<bool>,
    pub layout: Option<Layout>,
    pub recursion: Option<Recursion>,
    pub size: Option<SizeFlag>,
    pub permission: Option<PermissionFlag>,
    pub sorting: Option<Sorting>,
    pub no_symlink: Option<bool>,
    pub total_size: Option<bool>,
    pub symlink_arrow: Option<String>,
    pub hyperlink: Option<HyperlinkOption>,
    pub header: Option<bool>,
    pub literal: Option<bool>,
    pub truncate_owner: Option<TruncateOwner>,
    pub llm: Option<bool>,
}

/// A configuration that sets nothing.
pub open spec fn config_is_empty(c: Config) -> bool {
    &&& c.classic is None
    &&& c.blocks is None
    &&& c.color is None
    &&& c.date is None
    &&& c.dereference is None
    &&& c.display is None
    &&& c.icons is None
    &&& c.ignore_globs is None
    &&& c.indicators is None
    &&& c.layout is None
    &&& c.recursion is None
    &&& c.size is None
    &&& c.permission is None
    &&& c.sorting is None
    &&& c.no_symlink is None
    &&& c.total_size is None
    &&& c.symlink_arrow is None
    &&& c.hyperlink is None
    &&& c.header is None
    &&& c.literal is None
    &&& c.truncate_owner is None
    &&& c.llm is None
}

impl Config {
    /// A configuration with every setting absent.
    pub fn with_none() -> (r: Config)
        ensures
            config_is_empty(r),
    {
        Config {
            classic: None,
            blocks: None,
            color: None,
            date: None,
            dereference: None,
            display: None,
            icons: None,
            ignore_globs: None,
            indicators: None,
            layout: None,
            recursion: None,
            size: None,
            permission: None,
            sorting: None,
            no_symlink: None,
            total_size: None,
            symlink_arrow: None,
            hyperlink: None,
            header: None,
            literal: None,
            truncate_owner: None,
            llm: None,
        }
    }
}

/// The worst severity seen over a run.
#[derive(Debug, PartialEq, Eq, Copy, Clone, Structural)]
pub enum ExitCode {
    OK,
    MinorIssue,
    MajorIssue,
}

/// Position of an exit code in the severity order.
pub open spec fn exit_rank(c: ExitCode) -> nat {
    match c {
        ExitCode::OK => 0,
        ExitCode::MinorIssue => 1,
        ExitCode::MajorIssue => 2,
    }
}

impl ExitCode {
    /// Position of this code in the severity order.
    pub fn rank(self) -> (r: u8)
        ensures
            r as nat == exit_rank(self),
    {
        match self {
            ExitCode::OK => 0,
            ExitCode::MinorIssue => 1,
            ExitCode::MajorIssue => 2,
        }
    }

    /// Raises the code to `code` when that is more severe.
    pub fn set_if_greater(&mut self, code: ExitCode)
        ensures
            exit_rank(*old(self)) < exit_rank(code) ==> *final(self) == code,
            exit_rank(*old(self)) >= exit_rank(code) ==> *final(self) == *old(self),
    {
        if self.rank() < code.rank() {
            *self = code;
        }
    }
}

} // verus!
