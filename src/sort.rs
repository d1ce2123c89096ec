//! Ordering of entries: a chain of comparators, each with a direction, the
//! first non-equal one deciding.

use vstd::prelude::*;
use std::cmp::Ordering;
use vstd::multiset::Multiset;
use crate::entry::{dirlike, extension, extension_of, FileEntry};
use crate::status::{severity, status_of_info, GitFileStatus};
use crate::text::{lower_of, lowercase};

verus! {

/// Direction in which a comparator applies.
#[derive(Copy, Clone, Debug, PartialEq, Eq, Structural)]
pub enum SortOrder {
    Default,
    Reverse,
}

/// The primary sort key a listing is ordered by.
#[derive(Copy, Clone, Debug, PartialEq, Eq, Structural)]
pub enum SortColumn {
    Name,
    Size,
    Time,
    Version,
    Extension,
    GitStatus,
}

/// Where directories go relative to files.
#[derive(Copy, Clone, Debug, PartialEq, Eq, Structural)]
pub enum DirGrouping {
    First,
    Last,
    /// Directories and files mixed.
    Mixed,
}

/// The sorting settings of a listing.
#[derive(Copy, Clone, Debug, PartialEq, Eq, Structural)]
pub struct SortFlags {
    pub column: SortColumn,
    pub order: SortOrder,
    pub dir_grouping: DirGrouping,
}

/// One comparator of a chain.
#[derive(Copy, Clone, Debug, PartialEq, Eq, Structural)]
pub enum SortKey {
    /// Directories (and links to them) before everything else.
    DirsFirst,
    /// Name, ignoring case.
    Name,
    /// Size, larger first; entries without a size first.
    Size,
    /// Modification time, newer first, ties by name.
    Date,
    /// Natural version order of the names.
    Version,
    /// Extension; names without one first.
    Extension,
    /// Version-control status; entries without one first.
    GitStatus,
}

/// The opposite ordering.
pub open spec fn flip(o: Ordering) -> Ordering {
    match o {
        Ordering::Less => Ordering::Greater,
        Ordering::Equal => Ordering::Equal,
        Ordering::Greater => Ordering::Less,
    }
}

/// Ordering of two integers.
pub open spec fn int_cmp(a: int, b: int) -> Ordering {
    if a < b {
        Ordering::Less
    } else if a == b {
        Ordering::Equal
    } else {
        Ordering::Greater
    }
}

/// Lexicographic ordering of two strings by code point.
pub open spec fn lex_cmp(a: Seq<char>, b: Seq<char>) -> Ordering
    decreases a.len(),
{
    if a.len() == 0 {
        if b.len() == 0 {
            Ordering::Equal
        } else {
            Ordering::Less
        }
    } else if b.len() == 0 {
        Ordering::Greater
    } else if a[0] != b[0] {
        int_cmp(a[0] as int, b[0] as int)
    } else {
        lex_cmp(a.drop_first(), b.drop_first())
    }
}

/// What `vsort::compare` (GNU version sort) says of two names.
pub uninterp spec fn version_order(a: Seq<char>, b: Seq<char>) -> Ordering;

/// Relies on `vsort::compare`: GNU version-sort ordering of two strings, a
/// function of the strings alone; swapping the strings reverses it (every step
/// of the comparison is antisymmetric and the last one is `str::cmp`).
#[verifier::external_body]
fn version_compare(a: &str, b: &str) -> (r: Ordering)
    ensures
        r == version_order(a@, b@),
        version_order(b@, a@) == flip(r),
{
    vsort::compare(a, b)
}

/// Case-insensitive name ordering.
pub open spec fn name_cmp(a: FileEntry, b: FileEntry) -> Ordering {
    lex_cmp(lower_of(a.name@), lower_of(b.name@))
}

/// Ordering of two optional values, absent first.
pub open spec fn opt_int_cmp(a: Option<int>, b: Option<int>) -> Ordering {
    match (a, b) {
        (Some(x), Some(y)) => int_cmp(x, y),
        (Some(_), None) => Ordering::Greater,
        (None, Some(_)) => Ordering::Less,
        (None, None) => Ordering::Equal,
    }
}

/// Ordering of two optional strings, absent first.
pub open spec fn opt_lex_cmp(a: Option<Seq<char>>, b: Option<Seq<char>>) -> Ordering {
    match (a, b) {
        (Some(x), Some(y)) => lex_cmp(x, y),
        (Some(_), None) => Ordering::Greater,
        (None, Some(_)) => Ordering::Less,
        (None, None) => Ordering::Equal,
    }
}

/// Ordering of two status pairs: by index side, then by working-tree side.
pub open spec fn pair_cmp(a: GitFileStatus, b: GitFileStatus) -> Ordering {
    let i = int_cmp(severity(a.index) as int, severity(b.index) as int);
    if i != Ordering::Equal {
        i
    } else {
        int_cmp(severity(a.workdir) as int, severity(b.workdir) as int)
    }
}

pub open spec fn size_of(e: FileEntry) -> Option<int> {
    match e.size {
        Some(s) => Some(s as int),
        None => None,
    }
}

pub open spec fn time_of(e: FileEntry) -> Option<int> {
    match e.modified {
        Some(t) => Some(t as int),
        None => None,
    }
}

/// What one comparator says of two entries, before its direction applies.
pub open spec fn key_cmp(key: SortKey, a: FileEntry, b: FileEntry) -> Ordering {
    match key {
        SortKey::DirsFirst => int_cmp(
            if dirlike(b.file_type) { 1 } else { 0 },
            if dirlike(a.file_type) { 1 } else { 0 },
        ),
        SortKey::Name => name_cmp(a, b),
        SortKey::Size => match (a.size, b.size) {
            (Some(x), Some(y)) => int_cmp(y as int, x as int),
            (Some(_), None) => Ordering::Greater,
            (None, Some(_)) => Ordering::Less,
            (None, None) => Ordering::Equal,
        },
        SortKey::Date => {
            let t = opt_int_cmp(time_of(b), time_of(a));
            if t != Ordering::Equal {
                t
            } else {
                name_cmp(a, b)
            }
        },
        SortKey::Version => version_order(a.name@, b.name@),
        SortKey::Extension => opt_lex_cmp(extension_of(a.name@), extension_of(b.name@)),
        SortKey::GitStatus => match (a.git_status, b.git_status) {
            (Some(x), Some(y)) => pair_cmp(status_of_info(x), status_of_info(y)),
            (Some(_), None) => Ordering::Greater,
            (None, Some(_)) => Ordering::Less,
            (None, None) => Ordering::Equal,
        },
    }
}

/// A comparator's verdict with its direction applied.
pub open spec fn directed(order: SortOrder, o: Ordering) -> Ordering {
    match order {
        SortOrder::Default => o,
        SortOrder::Reverse => flip(o),
    }
}

/// The chain's ordering: the first comparator that finds the entries unequal
/// settles it, with its direction; equal when none does.
pub open spec fn chain_cmp(sorters: Seq<(SortOrder, SortKey)>, a: FileEntry, b: FileEntry) -> Ordering
    decreases sorters.len(),
{
    if sorters.len() == 0 {
        Ordering::Equal
    } else {
        let o = key_cmp(sorters[0].1, a, b);
        if o != Ordering::Equal {
            directed(sorters[0].0, o)
        } else {
            chain_cmp(sorters.drop_first(), a, b)
        }
    }
}

/// The chain a listing's settings call for: at most one grouping comparator,
/// then exactly one primary key with the configured direction.
pub open spec fn chain_for(flags: SortFlags) -> Seq<(SortOrder, SortKey)> {
    let grouping = match flags.dir_grouping {
        DirGrouping::First => seq![(SortOrder::Default, SortKey::DirsFirst)],
        DirGrouping::Last => seq![(SortOrder::Reverse, SortKey::DirsFirst)],
        DirGrouping::Mixed => Seq::empty(),
    };
    let primary = match flags.column {
        SortColumn::Name => seq![(flags.order, SortKey::Name)],
        SortColumn::Size => seq![(flags.order, SortKey::Size)],
        SortColumn::Time => seq![(flags.order, SortKey::Date)],
        SortColumn::Version => seq![(flags.order, SortKey::Version)],
        SortColumn::Extension => seq![(flags.order, SortKey::Extension)],
        SortColumn::GitStatus => seq![(flags.order, SortKey::GitStatus)],
    };
    grouping + primary
}

/// The comparator chain for a listing's sorting settings.
pub fn assemble_sorters(flags: &SortFlags) -> (r: Vec<(SortOrder, SortKey)>)
    ensures
        r@ == chain_for(*flags),
{
    let mut sorters: Vec<(SortOrder, SortKey)> = Vec::new();
    match flags.dir_grouping {
        DirGrouping::First => sorters.push((SortOrder::Default, SortKey::DirsFirst)),
        DirGrouping::Last => sorters.push((SortOrder::Reverse, SortKey::DirsFirst)),
        DirGrouping::Mixed => {},
    }
    let ghost grouping = sorters@;
    match flags.column {
        SortColumn::Name => sorters.push((flags.order, SortKey::Name)),
        SortColumn::Size => sorters.push((flags.order, SortKey::Size)),
        SortColumn::Time => sorters.push((flags.order, SortKey::Date)),
        SortColumn::Version => sorters.push((flags.order, SortKey::Version)),
        SortColumn::Extension => sorters.push((flags.order, SortKey::Extension)),
        SortColumn::GitStatus => sorters.push((flags.order, SortKey::GitStatus)),
    }
    assert(sorters@ == chain_for(*flags));
    sorters
}

fn u64_cmp(a: u64, b: u64) -> (r: Ordering)
    ensures
        r == int_cmp(a as int, b as int),
{
    if a < b {
        Ordering::Less
    } else if a == b {
        Ordering::Equal
    } else {
        Ordering::Greater
    }
}

fn i128_cmp(a: i128, b: i128) -> (r: Ordering)
    ensures
        r == int_cmp(a as int, b as int),
{
    if a < b {
        Ordering::Less
    } else if a == b {
        Ordering::Equal
    } else {
        Ordering::Greater
    }
}

/// Lexicographic ordering of two strings by code point.
pub fn compare_str(a: &str, b: &str) -> (r: Ordering)
    ensures
        r == lex_cmp(a@, b@),
{
    let n = a.unicode_len();
    let m = b.unicode_len();
    let mut i: usize = 0;
    assert(a@.subrange(0, n as int) == a@ && b@.subrange(0, m as int) == b@);
    while i < n && i < m
        invariant
            n == a@.len(),
            m == b@.len(),
            i <= n,
            i <= m,
            lex_cmp(a@, b@) == lex_cmp(a@.subrange(i as int, n as int), b@.subrange(i as int, m as int)),
        decreases n - i,
    {
        let ca = a.get_char(i);
        let cb = b.get_char(i);
        let ghost sa = a@.subrange(i as int, n as int);
        let ghost sb = b@.subrange(i as int, m as int);
        assert(sa[0] == ca && sb[0] == cb);
        if ca != cb {
            if (ca as u32) < (cb as u32) {
                return Ordering::Less;
            } else {
                return Ordering::Greater;
            }
        }
        assert(sa.drop_first() == a@.subrange(i + 1, n as int));
        assert(sb.drop_first() == b@.subrange(i + 1, m as int));
        i = i + 1;
    }
    if i == n && i == m {
        Ordering::Equal
    } else if i == n {
        Ordering::Less
    } else {
        Ordering::Greater
    }
}

fn compare_names(a: &FileEntry, b: &FileEntry) -> (r: Ordering)
    ensures
        r == name_cmp(*a, *b),
{
    let la = lowercase(a.name.as_str());
    let lb = lowercase(b.name.as_str());
    compare_str(la.as_str(), lb.as_str())
}

fn compare_pairs(a: &GitFileStatus, b: &GitFileStatus) -> (r: Ordering)
    ensures
        r == pair_cmp(*a, *b),
{
    let i = u64_cmp(a.index.rank() as u64, b.index.rank() as u64);
    match i {
        Ordering::Equal => u64_cmp(a.workdir.rank() as u64, b.workdir.rank() as u64),
        _ => i,
    }
}

/// What one comparator says of two entries, before its direction applies.
pub fn compare_by_key(key: SortKey, a: &FileEntry, b: &FileEntry) -> (r: Ordering)
    ensures
        r == key_cmp(key, *a, *b),
        key_cmp(key, *b, *a) == flip(r),
{
    proof {
        if key != SortKey::Version {
            lemma_key_antisymmetric(key, *a, *b);
        }
    }
    match key {
        SortKey::DirsFirst => {
            let x: u64 = if b.file_type.is_dirlike() { 1 } else { 0 };
            let y: u64 = if a.file_type.is_dirlike() { 1 } else { 0 };
            u64_cmp(x, y)
        },
        SortKey::Name => compare_names(a, b),
        SortKey::Size => match (a.size, b.size) {
            (Some(x), Some(y)) => u64_cmp(y, x),
            (Some(_), None) => Ordering::Greater,
            (None, Some(_)) => Ordering::Less,
            (None, None) => Ordering::Equal,
        },
        SortKey::Date => {
            let t = match (b.modified, a.modified) {
                (Some(x), Some(y)) => i128_cmp(x, y),
                (Some(_), None) => Ordering::Greater,
                (None, Some(_)) => Ordering::Less,
                (None, None) => Ordering::Equal,
            };
            match t {
                Ordering::Equal => compare_names(a, b),
                _ => t,
            }
        },
        SortKey::Version => version_compare(a.name.as_str(), b.name.as_str()),
        SortKey::Extension => {
            let ea = extension(a.name.as_str());
            let eb = extension(b.name.as_str());
            match (ea, eb) {
                (Some(x), Some(y)) => compare_str(x.as_str(), y.as_str()),
                (Some(_), None) => Ordering::Greater,
                (None, Some(_)) => Ordering::Less,
                (None, None) => Ordering::Equal,
            }
        },
        SortKey::GitStatus => match (&a.git_status, &b.git_status) {
            (Some(x), Some(y)) => {
                let sx = GitFileStatus::from_gix_status(x);
                let sy = GitFileStatus::from_gix_status(y);
                compare_pairs(&sx, &sy)
            },
            (Some(_), None) => Ordering::Greater,
            (None, Some(_)) => Ordering::Less,
            (None, None) => Ordering::Equal,
        },
    }
}

/// Ordering of two entries under a comparator chain.
pub fn by_meta(sorters: &Vec<(SortOrder, SortKey)>, a: &FileEntry, b: &FileEntry) -> (r: Ordering)
    ensures
        r == chain_cmp(sorters@, *a, *b),
        chain_cmp(sorters@, *b, *a) == flip(r),
{
    let mut i: usize = 0;
    assert(sorters@.subrange(0, sorters@.len() as int) == sorters@);
    while i < sorters.len()
        invariant
            i <= sorters@.len(),
            chain_cmp(sorters@, *a, *b) == chain_cmp(
                sorters@.subrange(i as int, sorters@.len() as int),
                *a,
                *b,
            ),
            chain_cmp(sorters@, *b, *a) == chain_cmp(
                sorters@.subrange(i as int, sorters@.len() as int),
                *b,
                *a,
            ),
        decreases sorters@.len() - i,
    {
        let (direction, key) = sorters[i];
        let ghost rest = sorters@.subrange(i as int, sorters@.len() as int);
        assert(rest[0] == sorters@[i as int]);
        assert(rest.drop_first() == sorters@.subrange(i + 1, sorters@.len() as int));
        let o = compare_by_key(key, a, b);
        match o {
            Ordering::Equal => {},
            _ => {
                return match direction {
                    SortOrder::Reverse => match o {
                        Ordering::Less => Ordering::Greater,
                        Ordering::Equal => Ordering::Equal,
                        Ordering::Greater => Ordering::Less,
                    },
                    SortOrder::Default => o,
                };
            },
        }
        i = i + 1;
    }
    Ordering::Equal
}

/// `x` placed into `s` after the last entry that does not come after it.
pub open spec fn insert_sorted(sorters: Seq<(SortOrder, SortKey)>, s: Seq<FileEntry>, x: FileEntry) -> Seq<FileEntry>
    decreases s.len(),
{
    if s.len() > 0 && chain_cmp(sorters, s.last(), x) == Ordering::Greater {
        insert_sorted(sorters, s.drop_last(), x).push(s.last())
    } else {
        s.push(x)
    }
}

/// The stable sort of `s`: its entries inserted in turn, each after every
/// earlier entry that does not come after it, so that entries the chain finds
/// equal keep their relative order.
pub open spec fn stable_sort(sorters: Seq<(SortOrder, SortKey)>, s: Seq<FileEntry>) -> Seq<FileEntry>
    decreases s.len(),
{
    if s.len() == 0 {
        s
    } else {
        insert_sorted(sorters, stable_sort(sorters, s.drop_last()), s.last())
    }
}

proof fn lemma_insert_sorted_at(sorters: Seq<(SortOrder, SortKey)>, s: Seq<FileEntry>, x: FileEntry, j: int)
    requires
        0 <= j <= s.len(),
        forall|k: int| j <= k < s.len() ==> #[trigger] chain_cmp(sorters, s[k], x) == Ordering::Greater,
        j > 0 ==> chain_cmp(sorters, s[j - 1], x) != Ordering::Greater,
    ensures
        insert_sorted(sorters, s, x) == s.insert(j, x),
    decreases s.len(),
{
    if j == s.len() {
        assert(s.push(x) =~= s.insert(j, x));
    } else {
        assert(chain_cmp(sorters, s[s.len() - 1], x) == Ordering::Greater);
        let t = s.drop_last();
        assert forall|k: int| j <= k < t.len() implies #[trigger] chain_cmp(sorters, t[k], x) == Ordering::Greater by {
            assert(t[k] == s[k]);
        }
        if j > 0 {
            assert(t[j - 1] == s[j - 1]);
        }
        lemma_insert_sorted_at(sorters, t, x, j);
        assert(t.insert(j, x).push(s.last()) =~= s.insert(j, x));
    }
}

/// Each adjacent pair is in order under the chain.
pub open spec fn sorted_by(sorters: Seq<(SortOrder, SortKey)>, s: Seq<FileEntry>) -> bool {
    forall|k: int| 0 <= k < s.len() - 1 ==> #[trigger] chain_cmp(sorters, s[k], s[k + 1]) != Ordering::Greater
}

/// Swapping the two entries reverses the chain's verdict.
pub open spec fn chain_antisymmetric(sorters: Seq<(SortOrder, SortKey)>) -> bool {
    forall|a: FileEntry, b: FileEntry| #[trigger] chain_cmp(sorters, a, b) == flip(chain_cmp(sorters, b, a))
}

/// The chain holds no version-sort comparator.
pub open spec fn without_version(sorters: Seq<(SortOrder, SortKey)>) -> bool {
    forall|k: int| 0 <= k < sorters.len() ==> #[trigger] sorters[k].1 != SortKey::Version
}

fn is_greater(o: Ordering) -> (r: bool)
    ensures
        r == (o == Ordering::Greater),
{
    match o {
        Ordering::Greater => true,
        _ => false,
    }
}

/// Stable sort of entries under a comparator chain: the result is
/// `stable_sort` of the input, a permutation of it in order under the chain,
/// in which entries the chain finds equal keep their relative order; an input
/// already in order is left as it is.
pub fn sort_entries(entries: &mut Vec<FileEntry>, sorters: &Vec<(SortOrder, SortKey)>)
    ensures
        final(entries)@.to_multiset() == old(entries)@.to_multiset(),
        sorted_by(sorters@, old(entries)@) ==> final(entries)@ == old(entries)@,
        sorted_by(sorters@, final(entries)@),
        final(entries)@ == stable_sort(sorters@, old(entries)@),
{
    broadcast use vstd::seq_lib::group_to_multiset_ensures;

    let ghost orig = entries@;
    let mut out: Vec<FileEntry> = Vec::new();
    assert(orig.subrange(0, orig.len() as int) == orig);
    while entries.len() > 0
        invariant
            entries@.len() <= orig.len(),
            entries@ == orig.subrange(orig.len() - entries@.len(), orig.len() as int),
            out@.len() == orig.len() - entries@.len(),
            out@.to_multiset().add(entries@.to_multiset()) == orig.to_multiset(),
            sorted_by(sorters@, orig) ==> out@ == orig.subrange(0, out@.len() as int),
            sorted_by(sorters@, out@),
            out@ == stable_sort(sorters@, orig.subrange(0, out@.len() as int)),
        decreases entries@.len(),
    {
        let ghost before = entries@;
        let x = entries.remove(0);
        assert(entries@ == orig.subrange(orig.len() - entries@.len(), orig.len() as int));
        assert(before.to_multiset() =~= entries@.to_multiset().insert(x)) by {
            broadcast use vstd::multiset::group_multiset_axioms;
            assert(before.remove(0) == entries@);
            vstd::seq_lib::to_multiset_remove(before, 0);
            assert(before.contains(x));
            before.to_multiset_ensures();
            assert(before.to_multiset().count(x) > 0);
        }
        let mut j: usize = out.len();
        while j > 0 && is_greater(by_meta(sorters, &out[j - 1], &x))
            invariant
                j <= out@.len(),
                forall|k: int| j <= k < out@.len() ==> #[trigger] chain_cmp(sorters@, out@[k], x) == Ordering::Greater,
                forall|k: int| j <= k < out@.len() ==> #[trigger] chain_cmp(sorters@, x, out@[k]) == Ordering::Less,
                sorted_by(sorters@, orig) ==> j == out@.len(),
                sorted_by(sorters@, orig) ==> out@ == orig.subrange(0, out@.len() as int),
                sorted_by(sorters@, orig) ==> x == orig[out@.len() as int],
                out@.len() < orig.len(),
            decreases j,
        {
            proof {
                if sorted_by(sorters@, orig) {
                    let t = out@.len() as int;
                    let k = t - 1;
                    assert(chain_cmp(sorters@, orig[k], orig[k + 1]) != Ordering::Greater);
                    assert(orig[k + 1] == orig[t]);
                    assert(out@[k] == orig.subrange(0, t)[k]);
                }
            }
            j = j - 1;
        }
        let ghost prev = out@;
        let ghost t = prev.len() as int;
        out.insert(j, x);
        proof {
            assert(out@ == prev.insert(j as int, x));
            lemma_insert_sorted_at(sorters@, prev, x, j as int);
            assert(orig.subrange(0, t + 1).drop_last() == orig.subrange(0, t));
            assert(orig.subrange(0, t + 1).last() == x) by {
                assert(before[0] == x);
                assert(before == orig.subrange(orig.len() - before.len(), orig.len() as int));
            }
            vstd::seq_lib::to_multiset_insert(prev, j as int, x);
            assert(out@.to_multiset() == prev.to_multiset().insert(x));
            assert(out@.to_multiset().add(entries@.to_multiset()) =~= orig.to_multiset());
            if sorted_by(sorters@, orig) {
                assert(out@ =~= orig.subrange(0, out@.len() as int));
            }
            {
                assert forall|k: int| 0 <= k < out@.len() - 1 implies #[trigger] chain_cmp(
                    sorters@,
                    out@[k],
                    out@[k + 1],
                ) != Ordering::Greater by {
                    if k + 1 < j {
                        assert(out@[k] == prev[k] && out@[k + 1] == prev[k + 1]);
                        assert(chain_cmp(sorters@, prev[k], prev[k + 1]) != Ordering::Greater);
                    } else if k + 1 == j {
                        assert(out@[k] == prev[k] && out@[k + 1] == x);
                        assert(chain_cmp(sorters@, prev[k], x) != Ordering::Greater);
                    } else if k == j {
                        assert(out@[k] == x && out@[k + 1] == prev[k]);
                        assert(chain_cmp(sorters@, x, prev[k]) == Ordering::Less);
                    } else {
                        let k2 = k - 1;
                        assert(out@[k] == prev[k2] && out@[k + 1] == prev[k2 + 1]);
                        assert(chain_cmp(sorters@, prev[k2], prev[k2 + 1]) != Ordering::Greater);
                    }
                }
            }
        }
    }
    assert(entries@.to_multiset() =~= Multiset::empty());
    assert(out@.to_multiset().add(Multiset::empty()) =~= out@.to_multiset());
    proof {
        if sorted_by(sorters@, orig) {
            assert(out@ =~= orig);
        }
    }
    *entries = out;
}

/// Swapping two strings reverses their lexicographic ordering.
pub proof fn lemma_lex_antisymmetric(a: Seq<char>, b: Seq<char>)
    ensures
        lex_cmp(a, b) == flip(lex_cmp(b, a)),
    decreases a.len(),
{
    if a.len() > 0 && b.len() > 0 && a[0] == b[0] {
        lemma_lex_antisymmetric(a.drop_first(), b.drop_first());
    }
}

/// Swapping two entries reverses each comparator's verdict, version sort aside.
pub proof fn lemma_key_antisymmetric(key: SortKey, a: FileEntry, b: FileEntry)
    requires
        key != SortKey::Version,
    ensures
        key_cmp(key, a, b) == flip(key_cmp(key, b, a)),
{
    lemma_lex_antisymmetric(lower_of(a.name@), lower_of(b.name@));
    match (extension_of(a.name@), extension_of(b.name@)) {
        (Some(x), Some(y)) => lemma_lex_antisymmetric(x, y),
        _ => {},
    }
}

/// Swapping two entries reverses the chain's verdict, for every chain without
/// a version-sort comparator.
pub proof fn lemma_chain_antisymmetric_pair(sorters: Seq<(SortOrder, SortKey)>, a: FileEntry, b: FileEntry)
    requires
        without_version(sorters),
    ensures
        chain_cmp(sorters, a, b) == flip(chain_cmp(sorters, b, a)),
    decreases sorters.len(),
{
    if sorters.len() > 0 {
        assert(sorters[0].1 != SortKey::Version);
        lemma_key_antisymmetric(sorters[0].1, a, b);
        assert forall|k: int| 0 <= k < sorters.drop_first().len() implies #[trigger] sorters.drop_first()[k].1
            != SortKey::Version by {
            assert(sorters.drop_first()[k] == sorters[k + 1]);
        }
        lemma_chain_antisymmetric_pair(sorters.drop_first(), a, b);
    }
}

/// Every chain without a version-sort comparator is antisymmetric: comparing
/// `b` with `a` gives the reverse of comparing `a` with `b`.
pub proof fn lemma_chain_antisymmetric(sorters: Seq<(SortOrder, SortKey)>)
    requires
        without_version(sorters),
    ensures
        chain_antisymmetric(sorters),
{
    assert forall|a: FileEntry, b: FileEntry| #[trigger] chain_cmp(sorters, a, b) == flip(chain_cmp(sorters, b, a)) by {
        lemma_chain_antisymmetric_pair(sorters, a, b);
    }
}

/// An entry compares equal to itself under every chain.
pub proof fn lemma_chain_reflexive(sorters: Seq<(SortOrder, SortKey)>, a: FileEntry)
    requires
        without_version(sorters),
    ensures
        chain_cmp(sorters, a, a) == Ordering::Equal,
{
    lemma_chain_antisymmetric_pair(sorters, a, a);
}

/// Sorting twice gives what sorting once gave, for every chain: the output
/// of a sort is in order, and a sort of an ordered sequence leaves it as it
/// is (both from `sort_entries`).
pub proof fn lemma_sort_idempotent(
    sorters: Seq<(SortOrder, SortKey)>,
    once: Seq<FileEntry>,
    twice: Seq<FileEntry>,
)
    requires
        sorted_by(sorters, once),
        sorted_by(sorters, once) ==> twice == once,
    ensures
        twice == once,
{
}

/// Three verdicts, on `a`/`b`, `b`/`c` and `a`/`c`, that an ordering
/// allows: equal and equal give equal; a strict step and a non-strict step in
/// the same direction give a strict step.
pub open spec fn transitive_at(ab: Ordering, bc: Ordering, ac: Ordering) -> bool {
    &&& (ab == Ordering::Equal && bc == Ordering::Equal ==> ac == Ordering::Equal)
    &&& (ab == Ordering::Less && bc != Ordering::Greater ==> ac == Ordering::Less)
    &&& (ab != Ordering::Greater && bc == Ordering::Less ==> ac == Ordering::Less)
    &&& (ab == Ordering::Greater && bc != Ordering::Less ==> ac == Ordering::Greater)
    &&& (ab != Ordering::Less && bc == Ordering::Greater ==> ac == Ordering::Greater)
}

proof fn lemma_lex_transitive(a: Seq<char>, b: Seq<char>, c: Seq<char>)
    ensures
        transitive_at(lex_cmp(a, b), lex_cmp(b, c), lex_cmp(a, c)),
    decreases a.len(),
{
    if a.len() > 0 && b.len() > 0 && c.len() > 0 && a[0] == b[0] && b[0] == c[0] {
        lemma_lex_transitive(a.drop_first(), b.drop_first(), c.drop_first());
    }
    if a.len() > 0 && b.len() > 0 && a[0] == b[0] {
        lemma_lex_equal(a.drop_first(), b.drop_first());
    }
    if b.len() > 0 && c.len() > 0 && b[0] == c[0] {
        lemma_lex_equal(b.drop_first(), c.drop_first());
    }
}

proof fn lemma_lex_equal(a: Seq<char>, b: Seq<char>)
    ensures
        lex_cmp(a, b) == Ordering::Equal <==> a == b,
    decreases a.len(),
{
    if a.len() == 0 {
        if b.len() == 0 {
            assert(a =~= b);
        }
    } else if b.len() == 0 {
    } else if a[0] != b[0] {
        assert((a[0] as int) != (b[0] as int));
    } else {
        lemma_lex_equal(a.drop_first(), b.drop_first());
        if a.drop_first() == b.drop_first() {
            assert(a =~= seq![a[0]] + a.drop_first());
            assert(b =~= seq![b[0]] + b.drop_first());
        }
        if a == b {
            assert(a.drop_first() == b.drop_first());
        }
    }
}

proof fn lemma_opt_lex_transitive(a: Option<Seq<char>>, b: Option<Seq<char>>, c: Option<Seq<char>>)
    ensures
        transitive_at(opt_lex_cmp(a, b), opt_lex_cmp(b, c), opt_lex_cmp(a, c)),
{
    match (a, b, c) {
        (Some(x), Some(y), Some(z)) => lemma_lex_transitive(x, y, z),
        _ => {},
    }
}

proof fn lemma_key_transitive(key: SortKey, a: FileEntry, b: FileEntry, c: FileEntry)
    requires
        key != SortKey::Version,
    ensures
        transitive_at(key_cmp(key, a, b), key_cmp(key, b, c), key_cmp(key, a, c)),
{
    lemma_lex_transitive(lower_of(a.name@), lower_of(b.name@), lower_of(c.name@));
    lemma_opt_lex_transitive(extension_of(a.name@), extension_of(b.name@), extension_of(c.name@));
}

/// Every chain without a version-sort comparator orders transitively: from
/// the verdicts on `a`/`b` and `b`/`c` follows the one on `a`/`c`, as
/// `transitive_at` states. With `lemma_chain_antisymmetric` and
/// `lemma_chain_reflexive` this makes the chain a total preorder.
pub proof fn lemma_chain_transitive(sorters: Seq<(SortOrder, SortKey)>, a: FileEntry, b: FileEntry, c: FileEntry)
    requires
        without_version(sorters),
    ensures
        transitive_at(chain_cmp(sorters, a, b), chain_cmp(sorters, b, c), chain_cmp(sorters, a, c)),
    decreases sorters.len(),
{
    if sorters.len() > 0 {
        assert(sorters[0].1 != SortKey::Version);
        lemma_key_transitive(sorters[0].1, a, b, c);
        assert forall|k: int| 0 <= k < sorters.drop_first().len() implies #[trigger] sorters.drop_first()[k].1
            != SortKey::Version by {
            assert(sorters.drop_first()[k] == sorters[k + 1]);
        }
        lemma_chain_transitive(sorters.drop_first(), a, b, c);
    }
}

} // verus!
