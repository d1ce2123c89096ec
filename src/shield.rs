//! Output shielding: a payload over a fixed serialized size is spilled to a
//! side file and replaced by a bounded synopsis.

use vstd::prelude::*;
use vstd::utf8::encode_utf8;
use vstd::multiset::Multiset;
use crate::entry::last_index_of;
use crate::pattern::views;
use crate::text::{is_prefix, lower_of, lowercase, owned, str_eq};
use crate::tree::{parent_of, parent_path};

verus! {

/// The largest payload, in serialized bytes, that passes through unchanged.
pub const MAX_JSON_SIZE_BYTES: usize = 10 * 1024 * 1024;

/// How many of the largest directories a synopsis lists.
pub const LARGEST_DIRS_SHOWN: usize = 10;

/// One streamed record: its serialized line and the fields a synopsis reads.
#[derive(Clone, Debug)]
pub struct ShieldRecord {
    /// The record serialized on one line.
    pub line: String,
    /// The `path` field, when it is a string.
    pub path: Option<String>,
    /// The `type` field, when it is a string.
    pub kind: Option<String>,
    /// The `size` field, when it is an unsigned integer.
    pub size: Option<u64>,
}

/// Length in bytes of the UTF-8 encoding of a string.
pub open spec fn byte_len(s: Seq<char>) -> nat {
    (encode_utf8(s).len() as usize) as nat
}

/// Sum of the serialized lengths of the records.
pub open spec fn lines_len(recs: Seq<ShieldRecord>) -> nat
    decreases recs.len(),
{
    if recs.len() == 0 {
        0
    } else {
        lines_len(recs.drop_last()) + byte_len(recs.last().line@)
    }
}

/// Size of the records serialized as one array: brackets, the lines, and a
/// comma between each two.
pub open spec fn payload_size(recs: Seq<ShieldRecord>) -> nat {
    if recs.len() == 0 {
        2
    } else {
        lines_len(recs) + recs.len() + 1
    }
}

/// The bounded summary that stands in for a spilled payload.
#[derive(Clone, Debug)]
pub struct ShieldSummary {
    pub total_entries: usize,
    pub total_size_bytes: usize,
    pub file_path: String,
    pub top_level_dirs: Vec<String>,
    pub file_types_summary: Vec<(String, usize)>,
    pub largest_dirs: Vec<(String, u64)>,
    pub marker_files: Vec<String>,
}

/// What became of a payload.
#[derive(Debug)]
pub enum ShieldResult {
    /// Small enough: handed on unchanged.
    PassThrough(Vec<ShieldRecord>),
    /// Too large: to be written, one line per record, to `path`.
    FileShielded { path: String, original_size: usize, entry_count: usize, summary: ShieldSummary },
}

/// Where spilled payloads are written.
pub struct Shield {
    temp_dir: String,
}

/// Path of a record relative to the scan root: with the root and the
/// separator after it taken off, or the whole path when it does not start so.
pub open spec fn relative_path(p: Seq<char>, root: Option<Seq<char>>) -> Seq<char> {
    match root {
        Some(r) => if is_prefix(r, p) && p.len() > r.len() && p[r.len() as int] == '/' {
            p.subrange((r.len() + 1) as int, p.len() as int)
        } else {
            p
        },
        None => p,
    }
}

/// Index of the first occurrence of `c` in `s`, or the length of `s`.
pub open spec fn first_index_of(s: Seq<char>, c: char) -> int
    decreases s.len(),
{
    if s.len() == 0 {
        0
    } else if s[0] == c {
        0
    } else {
        1 + first_index_of(s.drop_first(), c)
    }
}

/// The part of `s` before its first `/`.
pub open spec fn first_component(s: Seq<char>) -> Seq<char> {
    s.subrange(0, first_index_of(s, '/'))
}

/// The part of `s` after its last `/`.
pub open spec fn last_component(s: Seq<char>) -> Seq<char> {
    s.subrange(last_index_of(s, '/') + 1, s.len() as int)
}

/// The file names that mark a project's kind or build system.
pub open spec fn marker_names() -> Seq<Seq<char>> {
    seq![
        "Cargo.toml"@,
        "package.json"@,
        "go.mod"@,
        "pyproject.toml"@,
        "setup.py"@,
        "pom.xml"@,
        "build.gradle"@,
        "Makefile"@,
        "CMakeLists.txt"@,
        "README.md"@,
        "main.rs"@,
        "lib.rs"@,
    ]
}

/// Relative paths of the records whose file name is a marker, in order.
pub open spec fn markers_of(recs: Seq<ShieldRecord>, root: Option<Seq<char>>) -> Seq<Seq<char>>
    decreases recs.len(),
{
    if recs.len() == 0 {
        Seq::empty()
    } else {
        let rest = markers_of(recs.drop_last(), root);
        match recs.last().path {
            Some(p) => {
                let rel = relative_path(p@, root);
                if marker_names().contains(last_component(rel)) {
                    rest.push(rel)
                } else {
                    rest
                }
            },
            None => rest,
        }
    }
}

/// First components of the relative paths, each once, in order of first
/// appearance; empty components left out.
pub open spec fn top_dirs_of(recs: Seq<ShieldRecord>, root: Option<Seq<char>>) -> Seq<Seq<char>>
    decreases recs.len(),
{
    if recs.len() == 0 {
        Seq::empty()
    } else {
        let rest = top_dirs_of(recs.drop_last(), root);
        match recs.last().path {
            Some(p) => {
                let c = first_component(relative_path(p@, root));
                if c.len() > 0 && !rest.contains(c) {
                    rest.push(c)
                } else {
                    rest
                }
            },
            None => rest,
        }
    }
}

/// Number of records with a path whose kind is `k`.
pub open spec fn kind_count(recs: Seq<ShieldRecord>, k: Seq<char>) -> nat
    decreases recs.len(),
{
    if recs.len() == 0 {
        0
    } else {
        kind_count(recs.drop_last(), k) + if recs.last().path is Some && recs.last().kind is Some
            && recs.last().kind->Some_0@ == k {
            1nat
        } else {
            0
        }
    }
}

/// A record with a path has kind `k`.
pub open spec fn kind_present(recs: Seq<ShieldRecord>, k: Seq<char>) -> bool {
    exists|i: int| 0 <= i < recs.len() && (#[trigger] recs[i]).path is Some && recs[i].kind is Some
        && recs[i].kind->Some_0@ == k
}

/// Addition that stops at the largest `u64`.
pub open spec fn sat_add(a: nat, b: nat) -> nat {
    if a + b > u64::MAX {
        u64::MAX as nat
    } else {
        a + b
    }
}

/// Bytes of the records with a path and a size whose parent directory is `d`,
/// added in order, saturating.
pub open spec fn dir_size(recs: Seq<ShieldRecord>, d: Seq<char>) -> nat
    decreases recs.len(),
{
    if recs.len() == 0 {
        0
    } else {
        let rest = dir_size(recs.drop_last(), d);
        match (recs.last().path, recs.last().size) {
            (Some(p), Some(s)) => if parent_path(p@) == d {
                sat_add(rest, s as nat)
            } else {
                rest
            },
            _ => rest,
        }
    }
}

/// A record with a path and a size lies directly in `d`.
pub open spec fn dir_present(recs: Seq<ShieldRecord>, d: Seq<char>) -> bool {
    exists|i: int| 0 <= i < recs.len() && (#[trigger] recs[i]).path is Some && recs[i].size is Some
        && parent_path(recs[i].path->Some_0@) == d
}

/// View of an optional string slice.
pub open spec fn opt_view(o: Option<&str>) -> Option<Seq<char>> {
    match o {
        Some(r) => Some(r@),
        None => None,
    }
}

/// Path relative to the scan root (see `relative_path`).
pub fn relative(path: &str, root: Option<&str>) -> (r: String)
    ensures
        r@ == relative_path(path@, opt_view(root)),
{
    match root {
        Some(rt) => {
            let n = path.unicode_len();
            let m = rt.unicode_len();
            if m < n && str_eq(path.substring_char(0, m), rt) && path.get_char(m) == '/' {
                owned(path.substring_char(m + 1, n))
            } else {
                owned(path)
            }
        },
        None => owned(path),
    }
}

proof fn lemma_first_index_bounds(s: Seq<char>, c: char)
    ensures
        0 <= first_index_of(s, c) <= s.len(),
        first_index_of(s, c) < s.len() ==> s[first_index_of(s, c)] == c,
        forall|j: int| 0 <= j < first_index_of(s, c) ==> s[j] != c,
    decreases s.len(),
{
    if s.len() > 0 && s[0] != c {
        lemma_first_index_bounds(s.drop_first(), c);
        assert forall|j: int| 0 <= j < first_index_of(s, c) implies s[j] != c by {
            if j > 0 {
                assert(s[j] == s.drop_first()[j - 1]);
            }
        }
    }
}

proof fn lemma_first_index_is(s: Seq<char>, c: char, k: int)
    requires
        0 <= k <= s.len(),
        k < s.len() ==> s[k] == c,
        forall|j: int| 0 <= j < k ==> s[j] != c,
    ensures
        first_index_of(s, c) == k,
    decreases s.len(),
{
    if s.len() > 0 && k > 0 {
        assert forall|j: int| 0 <= j < k - 1 implies s.drop_first()[j] != c by {
            assert(s.drop_first()[j] == s[j + 1]);
        }
        lemma_first_index_is(s.drop_first(), c, k - 1);
    }
}

/// The part of `s` before its first `/`.
pub fn first_part(s: &str) -> (r: String)
    ensures
        r@ == first_component(s@),
{
    let n = s.unicode_len();
    let mut i: usize = 0;
    while i < n && s.get_char(i) != '/'
        invariant
            n == s@.len(),
            i <= n,
            forall|j: int| 0 <= j < i ==> s@[j] != '/',
        decreases n - i,
    {
        i = i + 1;
    }
    proof {
        lemma_first_index_is(s@, '/', i as int);
    }
    owned(s.substring_char(0, i))
}

/// The part of `s` after its last `/`.
pub fn last_part(s: &str) -> (r: String)
    ensures
        r@ == last_component(s@),
{
    let n = s.unicode_len();
    let mut i: usize = n;
    assert(s@.subrange(0, n as int) == s@);
    while i > 0 && s.get_char(i - 1) != '/'
        invariant
            n == s@.len(),
            i <= n,
            last_index_of(s@, '/') == last_index_of(s@.subrange(0, i as int), '/'),
        decreases i,
    {
        assert(s@.subrange(0, i as int).drop_last() == s@.subrange(0, i - 1));
        i = i - 1;
    }
    proof {
        if i > 0 {
            assert(s@.subrange(0, i as int).last() == '/');
        }
    }
    owned(s.substring_char(i, n))
}

/// Whether `name` is one of the marker file names.
pub fn is_marker(name: &str) -> (r: bool)
    ensures
        r == marker_names().contains(name@),
{
    let names = vec![
        "Cargo.toml",
        "package.json",
        "go.mod",
        "pyproject.toml",
        "setup.py",
        "pom.xml",
        "build.gradle",
        "Makefile",
        "CMakeLists.txt",
        "README.md",
        "main.rs",
        "lib.rs",
    ];
    assert(names@.map_values(|x: &str| x@) =~= marker_names());
    let mut i: usize = 0;
    while i < names.len()
        invariant
            i <= names@.len(),
            names@.map_values(|x: &str| x@) == marker_names(),
            forall|j: int| 0 <= j < i ==> #[trigger] marker_names()[j] != name@,
        decreases names@.len() - i,
    {
        assert(marker_names()[i as int] == names@[i as int]@);
        if str_eq(names[i], name) {
            return true;
        }
        i = i + 1;
    }
    false
}

impl Shield {
    /// A shield that spills into `temp_dir`.
    pub fn new(temp_dir: String) -> (r: Shield)
        ensures
            r.dir() == temp_dir@,
    {
        Shield { temp_dir }
    }

    /// The directory spilled payloads go to.
    pub closed spec fn dir(&self) -> Seq<char> {
        self.temp_dir@
    }

    /// The directory spilled payloads go to.
    pub fn temp_dir(&self) -> (r: &str)
        ensures
            r@ == self.dir(),
    {
        self.temp_dir.as_str()
    }

    /// Passes a payload through when it serializes to at most
    /// `MAX_JSON_SIZE_BYTES`; otherwise names the side file `file_path` it is
    /// to be spilled to and summarizes it.
    pub fn process(&self, records: Vec<ShieldRecord>, root_path: Option<&str>, file_path: String) -> (r: ShieldResult)
        ensures
            payload_size(records@) <= MAX_JSON_SIZE_BYTES ==> r == ShieldResult::PassThrough(records),
            payload_size(records@) > MAX_JSON_SIZE_BYTES ==> (r matches ShieldResult::FileShielded { path, original_size, entry_count, summary }
                && path@ == file_path@
                && original_size == capped(payload_size(records@))
                && entry_count == records@.len()
                && summarizes(summary, records@, opt_view(root_path), file_path@)),
    {
        let size = serialized_size(&records);
        if size <= MAX_JSON_SIZE_BYTES {
            return ShieldResult::PassThrough(records);
        }
        let summary = generate_summary(&records, file_path.clone(), root_path);
        ShieldResult::FileShielded {
            path: file_path,
            original_size: size,
            entry_count: records.len(),
            summary,
        }
    }
}

/// A size as a `usize`, the largest one standing for anything larger.
pub open spec fn capped(n: nat) -> usize {
    if n > usize::MAX {
        usize::MAX
    } else {
        n as usize
    }
}

/// Serialized size of the payload as one array, capped at `usize::MAX`.
pub fn serialized_size(records: &Vec<ShieldRecord>) -> (r: usize)
    ensures
        r == capped(payload_size(records@)),
{
    if records.len() == 0 {
        return 2;
    }
    let mut total: usize = 0;
    let mut i: usize = 0;
    while i < records.len()
        invariant
            i <= records@.len(),
            total == capped(lines_len(records@.subrange(0, i as int))),
        decreases records@.len() - i,
    {
        assert(records@.subrange(0, i + 1).drop_last() == records@.subrange(0, i as int));
        let n = records[i].line.as_str().len();
        total = total.saturating_add(n);
        i = i + 1;
    }
    assert(records@.subrange(0, records@.len() as int) == records@);
    total.saturating_add(records.len()).saturating_add(1)
}

/// Kinds of the records with a path, each once, in order of first appearance.
pub open spec fn kinds_of(recs: Seq<ShieldRecord>) -> Seq<Seq<char>>
    decreases recs.len(),
{
    if recs.len() == 0 {
        Seq::empty()
    } else {
        let rest = kinds_of(recs.drop_last());
        let r = recs.last();
        if r.path is Some && r.kind is Some && !rest.contains(r.kind->Some_0@) {
            rest.push(r.kind->Some_0@)
        } else {
            rest
        }
    }
}

/// Parent directories of the records with a path and a size, each once, in
/// order of first appearance.
pub open spec fn dirs_of(recs: Seq<ShieldRecord>) -> Seq<Seq<char>>
    decreases recs.len(),
{
    if recs.len() == 0 {
        Seq::empty()
    } else {
        let rest = dirs_of(recs.drop_last());
        let r = recs.last();
        if r.path is Some && r.size is Some && !rest.contains(parent_path(r.path->Some_0@)) {
            rest.push(parent_path(r.path->Some_0@))
        } else {
            rest
        }
    }
}

/// The keys of a list of pairs.
pub open spec fn keys_of<T>(v: Seq<(String, T)>) -> Seq<Seq<char>> {
    v.map_values(|e: (String, T)| e.0@)
}

/// No key occurs twice.
pub open spec fn distinct(s: Seq<Seq<char>>) -> bool {
    forall|i: int, j: int| 0 <= i < j < s.len() ==> s[i] != s[j]
}

/// Sizes in non-increasing order.
pub open spec fn descending(v: Seq<(String, u64)>) -> bool {
    forall|i: int, j: int| 0 <= i < j < v.len() ==> v[i].1 >= v[j].1
}

/// The largest directories: as many as `LARGEST_DIRS_SHOWN` allows, each with
/// its size, largest first, and no directory left out larger than one shown.
pub open spec fn largest_of(v: Seq<(String, u64)>, recs: Seq<ShieldRecord>) -> bool {
    &&& v.len() == if dirs_of(recs).len() < LARGEST_DIRS_SHOWN { dirs_of(recs).len() } else { LARGEST_DIRS_SHOWN as nat }
    &&& distinct(keys_of(v))
    &&& descending(v)
    &&& forall|i: int| 0 <= i < v.len() ==> dirs_of(recs).contains(#[trigger] v[i].0@) && v[i].1 == dir_size(recs, v[i].0@)
    &&& forall|d: Seq<char>| #[trigger] dirs_of(recs).contains(d) && !keys_of(v).contains(d) ==> v.len() > 0 && dir_size(recs, d) <= v.last().1
}

/// What a synopsis of `recs` holds.
pub open spec fn summarizes(sm: ShieldSummary, recs: Seq<ShieldRecord>, root: Option<Seq<char>>, file_path: Seq<char>) -> bool {
    &&& sm.total_entries == recs.len()
    &&& sm.total_size_bytes == capped(payload_size(recs))
    &&& sm.file_path@ == file_path
    &&& keys_of(sm.file_types_summary@) == kinds_of(recs)
    &&& forall|i: int| 0 <= i < sm.file_types_summary@.len() ==> #[trigger] sm.file_types_summary@[i].1 == kind_count(recs, sm.file_types_summary@[i].0@)
    &&& largest_of(sm.largest_dirs@, recs)
    &&& views(sm.top_level_dirs@) == top_dirs_of(recs, root)
    &&& views(sm.marker_files@) == markers_of(recs, root)
}

/// Index of the pair whose key is `k`, if any.
fn find_key<T>(v: &Vec<(String, T)>, k: &str) -> (r: Option<usize>)
    ensures
        match r {
            Some(j) => j < v@.len() && v@[j as int].0@ == k@,
            None => !keys_of(v@).contains(k@),
        },
{
    let mut j: usize = 0;
    while j < v.len()
        invariant
            j <= v@.len(),
            forall|i: int| 0 <= i < j ==> v@[i].0@ != k@,
        decreases v@.len() - j,
    {
        if str_eq(v[j].0.as_str(), k) {
            return Some(j);
        }
        j = j + 1;
    }
    proof {
        if keys_of(v@).contains(k@) {
            let i = choose|i: int| 0 <= i < keys_of(v@).len() && #[trigger] keys_of(v@)[i] == k@;
            assert(v@[i].0@ == k@);
        }
    }
    None
}

/// Whether a string of `v` equals `k`.
fn has_string(v: &Vec<String>, k: &str) -> (r: bool)
    ensures
        r == views(v@).contains(k@),
{
    let mut j: usize = 0;
    while j < v.len()
        invariant
            j <= v@.len(),
            forall|i: int| 0 <= i < j ==> v@[i]@ != k@,
        decreases v@.len() - j,
    {
        if str_eq(v[j].as_str(), k) {
            assert(views(v@)[j as int] == k@);
            return true;
        }
        j = j + 1;
    }
    proof {
        if views(v@).contains(k@) {
            let i = choose|i: int| 0 <= i < v@.len() && #[trigger] views(v@)[i] == k@;
            assert(v@[i]@ == k@);
        }
    }
    false
}

proof fn lemma_kind_count_bounds(recs: Seq<ShieldRecord>, k: Seq<char>)
    ensures
        kind_count(recs, k) <= recs.len(),
        !kinds_of(recs).contains(k) ==> kind_count(recs, k) == 0,
    decreases recs.len(),
{
    if recs.len() > 0 {
        lemma_kind_count_bounds(recs.drop_last(), k);
        let rest = kinds_of(recs.drop_last());
        let r = recs.last();
        if r.path is Some && r.kind is Some && !rest.contains(r.kind->Some_0@) {
            assert(kinds_of(recs) == rest.push(r.kind->Some_0@));
            if rest.contains(k) {
                let i = choose|i: int| 0 <= i < rest.len() && rest[i] == k;
                assert(kinds_of(recs)[i] == k);
            }
            if k == r.kind->Some_0@ {
                assert(kinds_of(recs)[rest.len() as int] == k);
            }
        }
    }
}

proof fn lemma_dir_size_absent(recs: Seq<ShieldRecord>, d: Seq<char>)
    ensures
        !dirs_of(recs).contains(d) ==> dir_size(recs, d) == 0,
    decreases recs.len(),
{
    if recs.len() > 0 {
        lemma_dir_size_absent(recs.drop_last(), d);
        let rest = dirs_of(recs.drop_last());
        let r = recs.last();
        if r.path is Some && r.size is Some && !rest.contains(parent_path(r.path->Some_0@)) {
            if rest.contains(d) {
                let i = choose|i: int| 0 <= i < rest.len() && rest[i] == d;
                assert(dirs_of(recs)[i] == d);
            }
            if d == parent_path(r.path->Some_0@) {
                assert(dirs_of(recs)[rest.len() as int] == d);
            }
        }
    }
}

proof fn lemma_keys_push<T>(v: Seq<(String, T)>, e: (String, T))
    ensures
        keys_of(v.push(e)) == keys_of(v).push(e.0@),
{
    assert(keys_of(v.push(e)) =~= keys_of(v).push(e.0@));
}

proof fn lemma_keys_update<T>(v: Seq<(String, T)>, j: int, e: (String, T))
    requires
        0 <= j < v.len(),
        e.0@ == v[j].0@,
    ensures
        keys_of(v.update(j, e)) == keys_of(v),
{
    assert(keys_of(v.update(j, e)) =~= keys_of(v));
}

/// Number of records of each kind, kinds in order of first appearance.
pub fn count_kinds(records: &Vec<ShieldRecord>) -> (r: Vec<(String, usize)>)
    ensures
        keys_of(r@) == kinds_of(records@),
        forall|i: int| 0 <= i < r@.len() ==> #[trigger] r@[i].1 == kind_count(records@, r@[i].0@),
{
    let mut v: Vec<(String, usize)> = Vec::new();
    let mut i: usize = 0;
    while i < records.len()
        invariant
            i <= records@.len(),
            keys_of(v@) == kinds_of(records@.subrange(0, i as int)),
            forall|t: int| 0 <= t < v@.len() ==> #[trigger] v@[t].1 == kind_count(records@.subrange(0, i as int), v@[t].0@),
        decreases records@.len() - i,
    {
        let ghost pre = records@.subrange(0, i as int);
        let ghost post = records@.subrange(0, i + 1);
        assert(post.drop_last() == pre);
        assert(post.last() == records@[i as int]);
        let rec = &records[i];
        if rec.path.is_some() {
            if let Some(k) = &rec.kind {
                match find_key(&v, k.as_str()) {
                    Some(j) => {
                        proof {
                            lemma_kind_count_bounds(pre, k@);
                            assert(keys_of(v@)[j as int] == k@);
                        }
                        let name = v[j].0.clone();
                        let c = v[j].1;
                        let ghost old_v = v@;
                        v.set(j, (name, c + 1));
                        proof {
                            lemma_keys_update(old_v, j as int, (name, (c + 1) as usize));
                            lemma_distinct_kinds(pre);
                            assert forall|t: int| 0 <= t < v@.len() implies #[trigger] v@[t].1 == kind_count(post, v@[t].0@) by {
                                assert(old_v[t].1 == kind_count(pre, old_v[t].0@));
                                assert(keys_of(old_v)[t] == old_v[t].0@);
                                assert(keys_of(old_v)[j as int] == old_v[j as int].0@);
                            }
                        }
                    },
                    None => {
                        proof {
                            lemma_kind_count_bounds(pre, k@);
                        }
                        let ghost old_v = v@;
                        let key = k.clone();
                        let ghost entry = (key, 1usize);
                        v.push((key, 1));
                        proof {
                            lemma_keys_push(old_v, entry);
                            assert forall|t: int| 0 <= t < v@.len() implies #[trigger] v@[t].1 == kind_count(post, v@[t].0@) by {
                                if t < old_v.len() {
                                    assert(old_v[t].1 == kind_count(pre, old_v[t].0@));
                                    assert(keys_of(old_v)[t] == old_v[t].0@);
                                }
                            }
                        }
                    },
                }
            }
        }
        i = i + 1;
    }
    assert(records@.subrange(0, records@.len() as int) == records@);
    v
}

/// Bytes per parent directory, directories in order of first appearance.
pub fn dir_totals(records: &Vec<ShieldRecord>) -> (r: Vec<(String, u64)>)
    ensures
        keys_of(r@) == dirs_of(records@),
        forall|i: int| 0 <= i < r@.len() ==> #[trigger] r@[i].1 == dir_size(records@, r@[i].0@),
{
    let mut v: Vec<(String, u64)> = Vec::new();
    let mut i: usize = 0;
    while i < records.len()
        invariant
            i <= records@.len(),
            keys_of(v@) == dirs_of(records@.subrange(0, i as int)),
            forall|t: int| 0 <= t < v@.len() ==> #[trigger] v@[t].1 == dir_size(records@.subrange(0, i as int), v@[t].0@),
        decreases records@.len() - i,
    {
        let ghost pre = records@.subrange(0, i as int);
        let ghost post = records@.subrange(0, i + 1);
        assert(post.drop_last() == pre);
        assert(post.last() == records@[i as int]);
        let rec = &records[i];
        if let (Some(p), Some(size)) = (&rec.path, rec.size) {
            let d = parent_of(p.as_str());
            match find_key(&v, d.as_str()) {
                Some(j) => {
                    proof {
                        assert(keys_of(v@)[j as int] == d@);
                    }
                    let name = v[j].0.clone();
                    let c = v[j].1;
                    let ghost old_v = v@;
                    let n = c.saturating_add(size);
                    v.set(j, (name, n));
                    proof {
                        lemma_keys_update(old_v, j as int, (name, n));
                        lemma_distinct_dirs(pre);
                        assert forall|t: int| 0 <= t < v@.len() implies #[trigger] v@[t].1 == dir_size(post, v@[t].0@) by {
                            assert(old_v[t].1 == dir_size(pre, old_v[t].0@));
                            assert(keys_of(old_v)[t] == old_v[t].0@);
                            assert(keys_of(old_v)[j as int] == old_v[j as int].0@);
                        }
                    }
                },
                None => {
                    proof {
                        lemma_dir_size_absent(pre, d@);
                    }
                    let ghost old_v = v@;
                    v.push((d, size));
                    proof {
                        lemma_keys_push(old_v, (d, size));
                        assert forall|t: int| 0 <= t < v@.len() implies #[trigger] v@[t].1 == dir_size(post, v@[t].0@) by {
                            if t < old_v.len() {
                                assert(old_v[t].1 == dir_size(pre, old_v[t].0@));
                                assert(keys_of(old_v)[t] == old_v[t].0@);
                            }
                        }
                    }
                },
            }
        }
        i = i + 1;
    }
    assert(records@.subrange(0, records@.len() as int) == records@);
    v
}

/// Sorts pairs by size, largest first; pairs of equal size keep their order.
pub fn sort_by_size_desc(v: &mut Vec<(String, u64)>)
    ensures
        final(v)@.to_multiset() == old(v)@.to_multiset(),
        descending(final(v)@),
{
    broadcast use vstd::seq_lib::group_to_multiset_ensures;

    let ghost orig = v@;
    let mut out: Vec<(String, u64)> = Vec::new();
    while v.len() > 0
        invariant
            out@.to_multiset().add(v@.to_multiset()) == orig.to_multiset(),
            descending(out@),
        decreases v@.len(),
    {
        let ghost before = v@;
        let x = v.remove(0);
        assert(before.to_multiset() =~= v@.to_multiset().insert(x)) by {
            broadcast use vstd::multiset::group_multiset_axioms;
            assert(before.remove(0) == v@);
            vstd::seq_lib::to_multiset_remove(before, 0);
            assert(before.contains(x));
            before.to_multiset_ensures();
        }
        let mut j: usize = out.len();
        while j > 0 && out[j - 1].1 < x.1
            invariant
                j <= out@.len(),
                forall|k: int| j <= k < out@.len() ==> #[trigger] out@[k].1 < x.1,
            decreases j,
        {
            j = j - 1;
        }
        let ghost prev = out@;
        out.insert(j, x);
        proof {
            assert(out@ == prev.insert(j as int, x));
            vstd::seq_lib::to_multiset_insert(prev, j as int, x);
            assert(out@.to_multiset().add(v@.to_multiset()) =~= orig.to_multiset());
            assert forall|a: int, b: int| 0 <= a < b < out@.len() implies out@[a].1 >= out@[b].1 by {
                if j > 0 {
                    assert(prev[j - 1].1 >= x.1);
                }
                if b < j {
                    assert(out@[a] == prev[a] && out@[b] == prev[b]);
                } else if b == j {
                    assert(out@[a] == prev[a]);
                    assert(prev[a].1 >= prev[j - 1].1);
                } else if a == j {
                    assert(out@[b] == prev[b - 1]);
                    assert(prev[j as int].1 < x.1);
                    assert(prev[j as int].1 >= prev[b - 1].1);
                } else if a < j {
                    assert(out@[a] == prev[a] && out@[b] == prev[b - 1]);
                } else {
                    assert(out@[a] == prev[a - 1] && out@[b] == prev[b - 1]);
                }
            }
        }
    }
    assert(v@.to_multiset() =~= Multiset::empty());
    assert(out@.to_multiset().add(Multiset::empty()) =~= out@.to_multiset());
    *v = out;
}

/// The largest directories of a payload (see `largest_of`).
pub fn largest_dirs(records: &Vec<ShieldRecord>) -> (r: Vec<(String, u64)>)
    ensures
        largest_of(r@, records@),
{
    broadcast use vstd::seq_lib::group_to_multiset_ensures;

    let mut v = dir_totals(records);
    let ghost unsorted = v@;
    proof {
        lemma_distinct_dirs(records@);
    }
    sort_by_size_desc(&mut v);
    let ghost sorted = v@;
    v.truncate(LARGEST_DIRS_SHOWN);
    proof {
        assert(unsorted.len() == dirs_of(records@).len()) by {
            assert(keys_of(unsorted).len() == unsorted.len());
        }
        assert forall|i: int| 0 <= i < sorted.len() implies dirs_of(records@).contains(#[trigger] sorted[i].0@)
            && sorted[i].1 == dir_size(records@, sorted[i].0@) by {
            assert(sorted.to_multiset().count(sorted[i]) > 0);
            assert(unsorted.contains(sorted[i]));
            let k = choose|k: int| 0 <= k < unsorted.len() && unsorted[k] == sorted[i];
            assert(keys_of(unsorted)[k] == sorted[i].0@);
        }
        assert forall|i: int, j: int| 0 <= i < j < sorted.len() implies sorted[i].0@ != sorted[j].0@ by {
            assert(sorted.to_multiset().count(sorted[i]) > 0);
            assert(sorted.to_multiset().count(sorted[j]) > 0);
            assert(unsorted.contains(sorted[i]));
            assert(unsorted.contains(sorted[j]));
            let a = choose|a: int| 0 <= a < unsorted.len() && unsorted[a] == sorted[i];
            let b = choose|b: int| 0 <= b < unsorted.len() && unsorted[b] == sorted[j];
            assert(keys_of(unsorted)[a] == sorted[i].0@);
            assert(keys_of(unsorted)[b] == sorted[j].0@);
            if a == b {
                lemma_perm_distinct_positions(unsorted, sorted, i, j);
            }
        }
        assert forall|d: Seq<char>| #[trigger] dirs_of(records@).contains(d) && !keys_of(v@).contains(d)
            implies v@.len() > 0 && dir_size(records@, d) <= v@.last().1 by {
            let k = choose|k: int| 0 <= k < dirs_of(records@).len() && dirs_of(records@)[k] == d;
            assert(keys_of(unsorted)[k] == d);
            let e = unsorted[k];
            assert(e.1 == dir_size(records@, d));
            assert(unsorted.to_multiset().count(e) > 0);
            assert(sorted.contains(e));
            let m = choose|m: int| 0 <= m < sorted.len() && sorted[m] == e;
            if m < LARGEST_DIRS_SHOWN {
                assert(keys_of(v@)[m] == d);
            }
            assert(v@.last() == sorted[LARGEST_DIRS_SHOWN - 1]);
        }
        assert forall|i: int, j: int| 0 <= i < j < keys_of(v@).len() implies keys_of(v@)[i] != keys_of(v@)[j] by {
            assert(keys_of(v@)[i] == sorted[i].0@);
            assert(keys_of(v@)[j] == sorted[j].0@);
        }
        assert(sorted.to_multiset().len() == sorted.len());
        assert(unsorted.to_multiset().len() == unsorted.len());
        assert(sorted.len() == unsorted.len());
        assert(v@.len() == if dirs_of(records@).len() < LARGEST_DIRS_SHOWN { dirs_of(records@).len() } else { LARGEST_DIRS_SHOWN as nat });
        assert(distinct(keys_of(v@)));
        assert(descending(v@));
        assert(forall|i: int| 0 <= i < v@.len() ==> dirs_of(records@).contains(#[trigger] v@[i].0@) && v@[i].1 == dir_size(records@, v@[i].0@));
    }
    v
}

proof fn lemma_distinct_kinds(recs: Seq<ShieldRecord>)
    ensures
        distinct(kinds_of(recs)),
    decreases recs.len(),
{
    if recs.len() > 0 {
        lemma_distinct_kinds(recs.drop_last());
    }
}

proof fn lemma_distinct_dirs(recs: Seq<ShieldRecord>)
    ensures
        distinct(dirs_of(recs)),
    decreases recs.len(),
{
    if recs.len() > 0 {
        lemma_distinct_dirs(recs.drop_last());
    }
}

/// A permutation of pairs with distinct keys holds no pair twice.
proof fn lemma_perm_distinct_positions(src: Seq<(String, u64)>, dst: Seq<(String, u64)>, i: int, j: int)
    requires
        dst.to_multiset() == src.to_multiset(),
        distinct(keys_of(src)),
        0 <= i < j < dst.len(),
    ensures
        dst[i] != dst[j],
{
    broadcast use vstd::seq_lib::group_to_multiset_ensures;
    broadcast use vstd::multiset::group_multiset_axioms;

    if dst[i] == dst[j] {
        let e = dst[i];
        assert(dst.remove(j).contains(e)) by {
            assert(dst.remove(j)[i] == e);
        }
        dst.remove(j).to_multiset_ensures();
        assert(dst.remove(j).to_multiset().count(e) > 0);
        vstd::seq_lib::to_multiset_remove(dst, j);
        assert(dst.remove(j).to_multiset() == dst.to_multiset().remove(e));
        assert(dst.to_multiset().remove(e).count(e) == dst.to_multiset().count(e) - 1);
        assert(dst.to_multiset().count(e) >= 2);
        lemma_count_distinct(src, e);
    }
}

proof fn lemma_count_distinct(s: Seq<(String, u64)>, e: (String, u64))
    requires
        distinct(keys_of(s)),
    ensures
        s.to_multiset().count(e) <= 1,
    decreases s.len(),
{
    broadcast use vstd::seq_lib::group_to_multiset_ensures;
    broadcast use vstd::multiset::group_multiset_axioms;

    if s.len() > 0 {
        let t = s.drop_last();
        assert(keys_of(t) == keys_of(s).drop_last());
        assert(distinct(keys_of(t)));
        lemma_count_distinct(t, e);
        assert(s == t.push(s.last()));
        if s.last() == e && t.to_multiset().count(e) > 0 {
            assert(t.contains(e));
            let k = choose|k: int| 0 <= k < t.len() && t[k] == e;
            assert(keys_of(s)[k] == keys_of(s)[s.len() - 1]);
        }
    }
}

/// First components of the relative paths (see `top_dirs_of`).
pub fn top_dirs(records: &Vec<ShieldRecord>, root: Option<&str>) -> (r: Vec<String>)
    ensures
        views(r@) == top_dirs_of(records@, opt_view(root)),
{
    let mut v: Vec<String> = Vec::new();
    let mut i: usize = 0;
    while i < records.len()
        invariant
            i <= records@.len(),
            views(v@) == top_dirs_of(records@.subrange(0, i as int), opt_view(root)),
        decreases records@.len() - i,
    {
        let ghost pre = records@.subrange(0, i as int);
        let ghost post = records@.subrange(0, i + 1);
        assert(post.drop_last() == pre);
        assert(post.last() == records@[i as int]);
        if let Some(p) = &records[i].path {
            let rel = relative(p.as_str(), root);
            let c = first_part(rel.as_str());
            if c.as_str().unicode_len() > 0 && !has_string(&v, c.as_str()) {
                let ghost old_v = v@;
                v.push(c);
                assert(views(v@) =~= views(old_v).push(c@));
            }
        }
        i = i + 1;
    }
    assert(records@.subrange(0, records@.len() as int) == records@);
    v
}

/// Relative paths of the marker files (see `markers_of`).
pub fn markers(records: &Vec<ShieldRecord>, root: Option<&str>) -> (r: Vec<String>)
    ensures
        views(r@) == markers_of(records@, opt_view(root)),
{
    let mut v: Vec<String> = Vec::new();
    let mut i: usize = 0;
    while i < records.len()
        invariant
            i <= records@.len(),
            views(v@) == markers_of(records@.subrange(0, i as int), opt_view(root)),
        decreases records@.len() - i,
    {
        let ghost pre = records@.subrange(0, i as int);
        let ghost post = records@.subrange(0, i + 1);
        assert(post.drop_last() == pre);
        assert(post.last() == records@[i as int]);
        if let Some(p) = &records[i].path {
            let rel = relative(p.as_str(), root);
            let name = last_part(rel.as_str());
            if is_marker(name.as_str()) {
                let ghost old_v = v@;
                v.push(rel);
                assert(views(v@) =~= views(old_v).push(rel@));
            }
        }
        i = i + 1;
    }
    assert(records@.subrange(0, records@.len() as int) == records@);
    v
}

/// The synopsis of a spilled payload.
pub fn generate_summary(records: &Vec<ShieldRecord>, file_path: String, root_path: Option<&str>) -> (r: ShieldSummary)
    ensures
        summarizes(r, records@, opt_view(root_path), file_path@),
{
    ShieldSummary {
        total_entries: records.len(),
        total_size_bytes: serialized_size(records),
        file_path,
        top_level_dirs: top_dirs(records, root_path),
        file_types_summary: count_kinds(records),
        largest_dirs: largest_dirs(records),
        marker_files: markers(records, root_path),
    }
}

/// The first `n` lines of a spilled file (all of them when it has fewer).
pub fn head_lines(lines: Vec<String>, n: usize) -> (r: Vec<String>)
    ensures
        r@ == lines@.subrange(0, if n < lines@.len() { n as int } else { lines@.len() as int }),
{
    let mut lines = lines;
    let ghost all = lines@;
    lines.truncate(n);
    assert(n >= all.len() ==> all.subrange(0, all.len() as int) == all);
    lines
}

/// The last `n` lines of a spilled file (all of them when it has fewer).
pub fn tail_lines(lines: &Vec<String>, n: usize) -> (r: Vec<String>)
    ensures
        r@ == lines@.subrange(lines@.len() - (if n < lines@.len() { n as int } else { lines@.len() as int }), lines@.len() as int),
{
    let len = lines.len();
    let start = len.saturating_sub(n);
    let mut out: Vec<String> = Vec::new();
    let mut i: usize = start;
    while i < len
        invariant
            start <= i <= len,
            len == lines@.len(),
            start == len - (if n < len { n as int } else { len as int }),
            out@ == lines@.subrange(start as int, i as int),
        decreases len - i,
    {
        out.push(lines[i].clone());
        assert(out@ =~= lines@.subrange(start as int, i + 1));
        i = i + 1;
    }
    out
}

/// The lines of `lines` that hold `pattern`, ignoring case, in order.
pub open spec fn matching_lines(lines: Seq<Seq<char>>, pattern: Seq<char>) -> Seq<Seq<char>>
    decreases lines.len(),
{
    if lines.len() == 0 {
        Seq::empty()
    } else {
        let rest = matching_lines(lines.drop_last(), pattern);
        if crate::text::has_infix(lower_of(lines.last()), lower_of(pattern)) {
            rest.push(lines.last())
        } else {
            rest
        }
    }
}

/// The lines of a spilled file that hold `pattern`, ignoring case.
pub fn grep_lines(lines: &Vec<String>, pattern: &str) -> (r: Vec<String>)
    ensures
        views(r@) == matching_lines(views(lines@), pattern@),
{
    let wanted = lowercase(pattern);
    let mut out: Vec<String> = Vec::new();
    let mut i: usize = 0;
    while i < lines.len()
        invariant
            i <= lines@.len(),
            wanted@ == lower_of(pattern@),
            views(out@) == matching_lines(views(lines@).subrange(0, i as int), pattern@),
        decreases lines@.len() - i,
    {
        let ghost pre = views(lines@).subrange(0, i as int);
        let ghost post = views(lines@).subrange(0, i + 1);
        assert(post.drop_last() == pre);
        assert(post.last() == lines@[i as int]@);
        let lower = lowercase(lines[i].as_str());
        if crate::text::contains_str(lower.as_str(), wanted.as_str()) {
            let ghost before = views(out@);
            out.push(lines[i].clone());
            assert(views(out@) =~= before.push(lines@[i as int]@));
        }
        i = i + 1;
    }
    assert(views(lines@).subrange(0, lines@.len() as int) == views(lines@));
    out
}

} // verus!
