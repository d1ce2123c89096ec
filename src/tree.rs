//! Tree reconstruction: a flat set of traversal entries regrouped under their
//! parent directories, with the entries whose parent was filtered out
//! reported instead of kept.

use vstd::prelude::*;
use crate::entry::{is_directory_kind, last_index_of, lemma_last_index_bounds, FileEntry};
use crate::sort::{sort_entries, sorted_by, SortKey, SortOrder};
use vstd::multiset::Multiset;
use crate::text::{owned, str_eq};

verus! {

broadcast use vstd::std_specs::vec::group_vec_axioms;

/// An entry and, for a directory, the entries found directly inside it.
#[derive(Debug)]
pub struct TreeNode {
    pub entry: FileEntry,
    pub children: Vec<TreeNode>,
}

/// Number of nodes in a tree.
pub open spec fn node_count(n: TreeNode) -> nat
    decreases n,
{
    1 + forest_count(n.children@)
}

/// Number of nodes in a sequence of trees.
pub open spec fn forest_count(ns: Seq<TreeNode>) -> nat
    decreases ns,
{
    if ns.len() == 0 {
        0
    } else {
        forest_count(ns.drop_last()) + node_count(ns.last())
    }
}

/// An entry left out of the tree because its parent directory was not kept.
#[derive(Debug)]
pub struct Orphan {
    /// The entry.
    pub entry: FileEntry,
    /// Path of the parent that was filtered out.
    pub parent: String,
}

/// The entries of a list of orphans.
pub open spec fn orphan_entries(os: Seq<Orphan>) -> Seq<FileEntry> {
    os.map_values(|o: Orphan| o.entry)
}

/// The entries of depth 1, in order.
pub open spec fn depth_one(s: Seq<FileEntry>) -> Seq<FileEntry>
    decreases s.len(),
{
    if s.len() == 0 {
        s
    } else if s.last().depth == 1 {
        depth_one(s.drop_last()).push(s.last())
    } else {
        depth_one(s.drop_last())
    }
}

/// Some directory of `es` has path `p`.
pub open spec fn attached_dir(es: Seq<FileEntry>, p: Seq<char>) -> bool {
    exists|i: int| 0 <= i < es.len() && is_directory_kind((#[trigger] es[i]).file_type) && es[i].path@ == p
}

/// The outcome of a reconstruction: the root trees, and one report per entry
/// that could not be placed.
#[derive(Debug)]
pub struct TreeBuild {
    pub roots: Vec<TreeNode>,
    pub orphans: Vec<Orphan>,
}

/// Entries waiting to be attached under the directory at `parent`.
#[derive(Debug)]
pub struct Group {
    pub parent: String,
    pub members: Vec<FileEntry>,
}

/// Number of entries held by a sequence of groups.
pub open spec fn group_total(gs: Seq<Group>) -> nat
    decreases gs.len(),
{
    if gs.len() == 0 {
        0
    } else {
        group_total(gs.drop_last()) + gs.last().members@.len()
    }
}

/// Parent directory of a `/`-separated path: everything before the last
/// separator; `/` for a top-level absolute path; empty for a bare name.
pub open spec fn parent_path(p: Seq<char>) -> Seq<char> {
    let k = last_index_of(p, '/');
    if k > 0 {
        p.subrange(0, k)
    } else if k == 0 {
        seq!['/']
    } else {
        Seq::empty()
    }
}

/// Parent directory of a path (see `parent_path`).
pub fn parent_of(path: &str) -> (r: String)
    ensures
        r@ == parent_path(path@),
{
    let n = path.unicode_len();
    let mut i: usize = n;
    assert(path@.subrange(0, n as int) == path@);
    while i > 0 && path.get_char(i - 1) != '/'
        invariant
            n == path@.len(),
            i <= n,
            last_index_of(path@, '/') == last_index_of(path@.subrange(0, i as int), '/'),
        decreases i,
    {
        assert(path@.subrange(0, i as int).drop_last() == path@.subrange(0, i - 1));
        i = i - 1;
    }
    proof {
        lemma_last_index_bounds(path@, '/');
        if i > 0 {
            assert(path@.subrange(0, i as int).last() == '/');
        }
    }
    if i > 1 {
        owned(path.substring_char(0, i - 1))
    } else if i == 1 {
        proof {
            reveal_strlit("/");
        }
        let r = owned("/");
        assert(r@ == seq!['/']);
        r
    } else {
        String::new()
    }
}

proof fn lemma_group_total_remove(gs: Seq<Group>, k: int)
    requires
        0 <= k < gs.len(),
    ensures
        group_total(gs) == group_total(gs.remove(k)) + gs[k].members@.len(),
    decreases gs.len(),
{
    if k == gs.len() - 1 {
        assert(gs.remove(k) == gs.drop_last());
    } else {
        assert(gs.remove(k).drop_last() == gs.drop_last().remove(k));
        assert(gs.remove(k).last() == gs.last());
        lemma_group_total_remove(gs.drop_last(), k);
    }
}

proof fn lemma_forest_push(ns: Seq<TreeNode>, n: TreeNode)
    ensures
        forest_count(ns.push(n)) == forest_count(ns) + node_count(n),
{
    assert(ns.push(n).drop_last() == ns);
}

/// Index of the group collecting entries under `parent`, if there is one.
fn find_group(groups: &Vec<Group>, parent: &str) -> (r: Option<usize>)
    ensures
        match r {
            Some(k) => k < groups@.len() && groups@[k as int].parent@ == parent@,
            None => forall|k: int| 0 <= k < groups@.len() ==> #[trigger] groups@[k].parent@ != parent@,
        },
{
    let mut k: usize = 0;
    while k < groups.len()
        invariant
            k <= groups@.len(),
            forall|j: int| 0 <= j < k ==> #[trigger] groups@[j].parent@ != parent@,
        decreases groups@.len() - k,
    {
        if str_eq(groups[k].parent.as_str(), parent) {
            return Some(k);
        }
        k = k + 1;
    }
    None
}

/// The entries of a tree, the root first.
pub open spec fn node_entries(n: TreeNode) -> Seq<FileEntry>
    decreases n,
{
    seq![n.entry] + forest_entries(n.children@)
}

/// The entries of a sequence of trees.
pub open spec fn forest_entries(ns: Seq<TreeNode>) -> Seq<FileEntry>
    decreases ns,
{
    if ns.len() == 0 {
        Seq::empty()
    } else {
        forest_entries(ns.drop_last()) + node_entries(ns.last())
    }
}

/// Some group holds `x`.
pub open spec fn in_groups(gs: Seq<Group>, x: FileEntry) -> bool {
    exists|k: int| 0 <= k < gs.len() && (#[trigger] gs[k]).members@.contains(x)
}

/// Every group of `a` is a group of `b`.
pub open spec fn groups_within(a: Seq<Group>, b: Seq<Group>) -> bool {
    forall|k: int| 0 <= k < a.len() ==> b.contains(#[trigger] a[k])
}

/// No two groups collect under the same parent.
pub open spec fn distinct_parents(gs: Seq<Group>) -> bool {
    forall|i: int, j: int| 0 <= i < j < gs.len() ==> (#[trigger] gs[i]).parent@ != (#[trigger] gs[j]).parent@
}

/// No group collects under `p`.
pub open spec fn no_group_for(gs: Seq<Group>, p: Seq<char>) -> bool {
    forall|k: int| 0 <= k < gs.len() ==> (#[trigger] gs[k]).parent@ != p
}

/// No group collects under any directory of `es`.
pub open spec fn dirs_closed(es: Seq<FileEntry>, gs: Seq<Group>) -> bool {
    forall|i: int| 0 <= i < es.len() && is_directory_kind((#[trigger] es[i]).file_type) ==> no_group_for(gs, es[i].path@)
}

/// Each group holds entries of `input`, below depth 1, whose parent path is
/// the group's.
pub open spec fn well_grouped(gs: Seq<Group>, input: Seq<FileEntry>) -> bool {
    forall|k: int, m: int| 0 <= k < gs.len() && 0 <= m < gs[k].members@.len() ==> {
        let e = (#[trigger] gs[k].members@[m]);
        gs[k].parent@ == parent_path(e.path@) && e.depth != 1 && input.contains(e)
    }
}

proof fn lemma_concat_contains(a: Seq<FileEntry>, b: Seq<FileEntry>, x: FileEntry)
    ensures
        (a + b).contains(x) <==> (a.contains(x) || b.contains(x)),
{
    if a.contains(x) {
        let i = choose|i: int| 0 <= i < a.len() && a[i] == x;
        assert((a + b)[i] == x);
    }
    if b.contains(x) {
        let i = choose|i: int| 0 <= i < b.len() && b[i] == x;
        assert((a + b)[a.len() + i] == x);
    }
    if (a + b).contains(x) {
        let i = choose|i: int| 0 <= i < (a + b).len() && (a + b)[i] == x;
        if i < a.len() {
            assert(a[i] == x);
        } else {
            assert(b[i - a.len()] == x);
        }
    }
}

proof fn lemma_dirs_closed_concat(a: Seq<FileEntry>, b: Seq<FileEntry>, gs: Seq<Group>)
    requires
        dirs_closed(a, gs),
        dirs_closed(b, gs),
    ensures
        dirs_closed(a + b, gs),
{
    assert forall|i: int| 0 <= i < (a + b).len() && is_directory_kind((#[trigger] (a + b)[i]).file_type) implies no_group_for(gs, (a + b)[i].path@) by {
        if i < a.len() {
            assert((a + b)[i] == a[i]);
        } else {
            assert((a + b)[i] == b[i - a.len()]);
        }
    }
}

proof fn lemma_dirs_closed_shrink(es: Seq<FileEntry>, gs: Seq<Group>, fewer: Seq<Group>)
    requires
        dirs_closed(es, gs),
        groups_within(fewer, gs),
    ensures
        dirs_closed(es, fewer),
{
    assert forall|i: int| 0 <= i < es.len() && is_directory_kind((#[trigger] es[i]).file_type) implies no_group_for(fewer, es[i].path@) by {
        assert forall|k: int| 0 <= k < fewer.len() implies (#[trigger] fewer[k]).parent@ != es[i].path@ by {
            assert(gs.contains(fewer[k]));
            let j = choose|j: int| 0 <= j < gs.len() && gs[j] == fewer[k];
            assert(no_group_for(gs, es[i].path@));
            assert(gs[j].parent@ != es[i].path@);
        }
    }
}

proof fn lemma_within_trans(a: Seq<Group>, b: Seq<Group>, c: Seq<Group>)
    requires
        groups_within(a, b),
        groups_within(b, c),
    ensures
        groups_within(a, c),
{
    assert forall|k: int| 0 <= k < a.len() implies c.contains(#[trigger] a[k]) by {
        assert(b.contains(a[k]));
        let j = choose|j: int| 0 <= j < b.len() && b[j] == a[k];
        assert(c.contains(b[j]));
    }
}

proof fn lemma_within_remove(gs: Seq<Group>, k: int)
    requires
        0 <= k < gs.len(),
    ensures
        groups_within(gs.remove(k), gs),
        forall|x: FileEntry| #[trigger] in_groups(gs, x) ==> in_groups(gs.remove(k), x) || gs[k].members@.contains(x),
        distinct_parents(gs) ==> distinct_parents(gs.remove(k)),
        distinct_parents(gs) ==> no_group_for(gs.remove(k), gs[k].parent@),
{
    assert forall|j: int| 0 <= j < gs.remove(k).len() implies gs.contains(#[trigger] gs.remove(k)[j]) by {
        if j < k {
            assert(gs.remove(k)[j] == gs[j]);
        } else {
            assert(gs.remove(k)[j] == gs[j + 1]);
        }
    }
    assert forall|x: FileEntry| #[trigger] in_groups(gs, x) implies in_groups(gs.remove(k), x) || gs[k].members@.contains(x) by {
        let j = choose|j: int| 0 <= j < gs.len() && (#[trigger] gs[j]).members@.contains(x);
        if j < k {
            assert(gs.remove(k)[j] == gs[j]);
        } else if j > k {
            assert(gs.remove(k)[j - 1] == gs[j]);
        }
    }
    if distinct_parents(gs) {
        assert forall|i: int, j: int| 0 <= i < j < gs.remove(k).len() implies (#[trigger] gs.remove(k)[i]).parent@
            != (#[trigger] gs.remove(k)[j]).parent@ by {
            let a = if i < k { i } else { i + 1 };
            let b = if j < k { j } else { j + 1 };
            assert(gs.remove(k)[i] == gs[a]);
            assert(gs.remove(k)[j] == gs[b]);
        }
        assert forall|j: int| 0 <= j < gs.remove(k).len() implies (#[trigger] gs.remove(k)[j]).parent@ != gs[k].parent@ by {
            if j < k {
                assert(gs.remove(k)[j] == gs[j]);
            } else {
                assert(gs.remove(k)[j] == gs[j + 1]);
            }
        }
    }
}

proof fn lemma_within_refl(gs: Seq<Group>)
    ensures
        groups_within(gs, gs),
{
    assert forall|k: int| 0 <= k < gs.len() implies gs.contains(#[trigger] gs[k]) by {
    }
}

proof fn lemma_forest_entries_push(ns: Seq<TreeNode>, n: TreeNode)
    ensures
        forest_entries(ns.push(n)) == forest_entries(ns) + node_entries(n),
{
    assert(ns.push(n).drop_last() == ns);
}

/// The order children are listed in: by name, ignoring case.
pub open spec fn name_order() -> Seq<(SortOrder, SortKey)> {
    seq![(SortOrder::Default, SortKey::Name)]
}

/// The chain for `name_order`.
fn name_sorters() -> (r: Vec<(SortOrder, SortKey)>)
    ensures
        r@ == name_order(),
{
    let r = vec![(SortOrder::Default, SortKey::Name)];
    assert(r@ =~= name_order());
    r
}

/// The entries at the top of a sequence of trees.
pub open spec fn entries_of(ns: Seq<TreeNode>) -> Seq<FileEntry> {
    ns.map_values(|n: TreeNode| n.entry)
}

/// A well-formed tree: only a directory has children; each child's parent
/// path is the node's path; children are ordered by name; and so on below.
pub open spec fn node_ok(n: TreeNode) -> bool
    decreases n,
{
    &&& (n.children@.len() > 0 ==> is_directory_kind(n.entry.file_type))
    &&& sorted_by(name_order(), entries_of(n.children@))
    &&& forest_ok(n.children@, Some(n.entry.path@))
}

/// Well-formed trees, each under the directory `parent` when one is given.
pub open spec fn forest_ok(ns: Seq<TreeNode>, parent: Option<Seq<char>>) -> bool
    decreases ns,
{
    if ns.len() == 0 {
        true
    } else {
        &&& forest_ok(ns.drop_last(), parent)
        &&& node_ok(ns.last())
        &&& (parent matches Some(p) ==> parent_path(ns.last().entry.path@) == p)
    }
}

/// The entries held by a sequence of groups, as a multiset.
pub open spec fn group_entries(gs: Seq<Group>) -> Multiset<FileEntry>
    decreases gs.len(),
{
    if gs.len() == 0 {
        Multiset::empty()
    } else {
        group_entries(gs.drop_last()).add(gs.last().members@.to_multiset())
    }
}

/// Every group collects entries whose parent path is the group's.
pub open spec fn keyed(gs: Seq<Group>) -> bool {
    forall|k: int, m: int| 0 <= k < gs.len() && 0 <= m < gs[k].members@.len() ==> parent_path(
        (#[trigger] gs[k].members@[m]).path@,
    ) == gs[k].parent@
}

proof fn lemma_group_entries_remove(gs: Seq<Group>, k: int)
    requires
        0 <= k < gs.len(),
    ensures
        group_entries(gs) == group_entries(gs.remove(k)).add(gs[k].members@.to_multiset()),
    decreases gs.len(),
{
    broadcast use vstd::multiset::group_multiset_axioms;

    if k == gs.len() - 1 {
        assert(gs.remove(k) == gs.drop_last());
    } else {
        assert(gs.remove(k).drop_last() == gs.drop_last().remove(k));
        assert(gs.remove(k).last() == gs.last());
        lemma_group_entries_remove(gs.drop_last(), k);
        assert(group_entries(gs) =~= group_entries(gs.remove(k)).add(gs[k].members@.to_multiset()));
    }
}

proof fn lemma_in_groups_count(gs: Seq<Group>, x: FileEntry)
    ensures
        in_groups(gs, x) <==> group_entries(gs).count(x) > 0,
    decreases gs.len(),
{
    broadcast use vstd::multiset::group_multiset_axioms;

    if gs.len() > 0 {
        let t = gs.drop_last();
        lemma_in_groups_count(t, x);
        gs.last().members@.to_multiset_ensures();
        if in_groups(gs, x) {
            let k = choose|k: int| 0 <= k < gs.len() && (#[trigger] gs[k]).members@.contains(x);
            if k < t.len() {
                assert(t[k] == gs[k]);
            }
        }
        if in_groups(t, x) {
            let k = choose|k: int| 0 <= k < t.len() && (#[trigger] t[k]).members@.contains(x);
            assert(gs[k] == t[k]);
        }
        if gs.last().members@.contains(x) {
            assert(gs[gs.len() - 1].members@.contains(x));
        }
    }
}

proof fn lemma_keyed_within(a: Seq<Group>, b: Seq<Group>)
    requires
        keyed(b),
        groups_within(a, b),
    ensures
        keyed(a),
{
    assert forall|k: int, m: int| 0 <= k < a.len() && 0 <= m < a[k].members@.len() implies parent_path(
        (#[trigger] a[k].members@[m]).path@,
    ) == a[k].parent@ by {
        assert(b.contains(a[k]));
        let j = choose|j: int| 0 <= j < b.len() && b[j] == a[k];
        assert(b[j].members@[m] == a[k].members@[m]);
    }
}

proof fn lemma_forest_ok_push(ns: Seq<TreeNode>, n: TreeNode, parent: Option<Seq<char>>)
    ensures
        forest_ok(ns.push(n), parent) == (forest_ok(ns, parent) && node_ok(n) && (parent matches Some(p)
            ==> parent_path(n.entry.path@) == p)),
{
    assert(ns.push(n).drop_last() == ns);
}

proof fn lemma_forest_entries_multiset(ns: Seq<TreeNode>, n: TreeNode)
    ensures
        forest_entries(ns.push(n)).to_multiset() == forest_entries(ns).to_multiset().add(node_entries(n).to_multiset()),
{
    lemma_forest_entries_push(ns, n);
    vstd::seq_lib::lemma_multiset_commutative(forest_entries(ns), node_entries(n));
}

/// Builds the subtree rooted at `entry`: a directory takes the group of
/// entries waiting under its path, each of them attached in turn in name
/// order. Every entry taken from the groups lands in the subtree.
fn attach(entry: FileEntry, groups: &mut Vec<Group>) -> (r: TreeNode)
    requires
        distinct_parents(old(groups)@),
        keyed(old(groups)@),
    ensures
        keyed(final(groups)@),
        node_ok(r),
        node_entries(r).to_multiset().add(group_entries(final(groups)@)) == group_entries(old(groups)@).insert(entry),
        final(groups)@.len() <= old(groups)@.len(),
        node_count(r) + group_total(final(groups)@) == 1 + group_total(old(groups)@),
        r.entry == entry,
        groups_within(final(groups)@, old(groups)@),
        distinct_parents(final(groups)@),
        forall|x: FileEntry| #![trigger in_groups(old(groups)@, x)] (x == entry || in_groups(old(groups)@, x)) ==> (node_entries(r).contains(x)
            || in_groups(final(groups)@, x)),
        dirs_closed(node_entries(r), final(groups)@),
    decreases old(groups)@.len(),
{
    broadcast use vstd::seq_lib::group_to_multiset_ensures;

    let is_dir = entry.file_type.is_directory();
    let found = if is_dir {
        find_group(groups, entry.path.as_str())
    } else {
        None
    };
    if let Some(k) = found {
        {
            let ghost before = groups@;
            let g = groups.remove(k);
            proof {
                lemma_group_total_remove(before, k as int);
                lemma_within_remove(before, k as int);
                lemma_group_entries_remove(before, k as int);
                lemma_keyed_within(groups@, before);
                assert(before[k as int] == g);
            }
            let mut members = g.members;
            let ghost taken = members@;
            let by_name = name_sorters();
            sort_entries(&mut members, &by_name);
            let ghost ordered = members@;
            proof {
                assert forall|x: FileEntry| #[trigger] members@.contains(x) implies parent_path(x.path@) == entry.path@ by {
                    assert(members@.to_multiset().count(x) > 0);
                    assert(taken.contains(x));
                    let t = choose|t: int| 0 <= t < taken.len() && taken[t] == x;
                    assert(before[k as int].members@[t] == x);
                }
                assert(members@.len() == members@.to_multiset().len());
                assert(g.members@.len() == g.members@.to_multiset().len());
                assert forall|x: FileEntry| taken.contains(x) implies #[trigger] members@.contains(x) by {
                    assert(taken.to_multiset().count(x) > 0);
                }
            }
            let mut children: Vec<TreeNode> = Vec::new();
            let ghost start = group_total(groups@) + members@.len();
            let ghost mid = groups@;
            proof {
                lemma_within_refl(mid);
            }
            while members.len() > 0
                invariant
                    before == old(groups)@,
                    groups@.len() < before.len(),
                    forest_count(children@) + members@.len() + group_total(groups@) == start,
                    keyed(groups@),
                    k < before.len(),
                    entries_of(children@) + members@ == ordered,
                    forest_ok(children@, Some(entry.path@)),
                    forall|x: FileEntry| #[trigger] members@.contains(x) ==> parent_path(x.path@) == entry.path@,
                    forest_entries(children@).to_multiset().add(members@.to_multiset()).add(group_entries(groups@))
                        == group_entries(before.remove(k as int)).add(taken.to_multiset()),
                    groups_within(groups@, mid),
                    groups_within(mid, before),
                    distinct_parents(groups@),
                    no_group_for(groups@, entry.path@),
                    dirs_closed(forest_entries(children@), groups@),
                decreases members@.len(),
            {
                let ghost ms = members@;
                let ghost gs0 = groups@;
                let ghost ch0 = children@;
                let m = members.remove(0);
                assert(ms.contains(m)) by {
                    assert(ms[0] == m);
                }
                assert(groups@.len() < old(groups)@.len());
                let ghost gm = group_entries(groups@);
                let child = attach(m, groups);
                proof {
                    lemma_forest_ok_push(ch0, child, Some(entry.path@));
                    lemma_forest_entries_multiset(ch0, child);
                    assert(entries_of(ch0.push(child)) =~= entries_of(ch0).push(m));
                    assert(entries_of(ch0).push(m) + members@ =~= entries_of(ch0) + ms);
                    assert forall|x: FileEntry| #[trigger] members@.contains(x) implies parent_path(x.path@) == entry.path@ by {
                        let i = choose|i: int| 0 <= i < members@.len() && members@[i] == x;
                        assert(ms[i + 1] == x);
                        assert(ms.contains(x));
                    }
                    vstd::seq_lib::to_multiset_remove(ms, 0);
                    assert(ms.remove(0) == members@);
                    assert(ms.to_multiset() =~= members@.to_multiset().insert(m)) by {
                        broadcast use vstd::multiset::group_multiset_axioms;
                        ms.to_multiset_ensures();
                        assert(ms.to_multiset().count(m) > 0);
                    }
                    let ghost fm = forest_entries(ch0).to_multiset();
                    let ghost nm = node_entries(child).to_multiset();
                    let ghost mm = members@.to_multiset();
                    let ghost grm = group_entries(groups@);
                    assert(nm.add(grm) == gm.insert(m));
                    assert(fm.add(nm).add(mm).add(grm) =~= fm.add(mm).add(nm.add(grm))) by {
                        broadcast use vstd::multiset::group_multiset_axioms;
                    }
                    assert(fm.add(mm).add(gm.insert(m)) =~= fm.add(mm.insert(m)).add(gm)) by {
                        broadcast use vstd::multiset::group_multiset_axioms;
                    }
                    lemma_forest_push(ch0, child);
                    lemma_forest_entries_push(ch0, child);
                    lemma_within_trans(groups@, gs0, mid);
                    lemma_dirs_closed_shrink(forest_entries(ch0), gs0, groups@);
                    lemma_dirs_closed_concat(forest_entries(ch0), node_entries(child), groups@);
                    assert forall|j: int| 0 <= j < groups@.len() implies (#[trigger] groups@[j]).parent@ != entry.path@ by {
                        assert(gs0.contains(groups@[j]));
                        let t = choose|t: int| 0 <= t < gs0.len() && gs0[t] == groups@[j];
                        assert(gs0[t].parent@ != entry.path@);
                    }
                }
                children.push(child);
            }
            let r = TreeNode { entry, children };
            proof {
                lemma_within_trans(groups@, mid, before);
                assert(entries_of(children@) =~= ordered);
                assert(members@.to_multiset() =~= Multiset::empty());
                assert(forest_entries(children@).to_multiset().add(Multiset::empty()) =~= forest_entries(children@).to_multiset());
                vstd::seq_lib::lemma_multiset_commutative(seq![entry], forest_entries(children@));
                assert(seq![entry].to_multiset() =~= Multiset::empty().insert(entry)) by {
                    broadcast use vstd::multiset::group_multiset_axioms;
                    assert(seq![entry].drop_first() =~= Seq::<FileEntry>::empty());
                }
                assert(taken.to_multiset() == g.members@.to_multiset());
                assert(node_entries(r).to_multiset().add(group_entries(groups@)) =~= group_entries(before).insert(entry));
                assert(node_entries(r) == seq![entry] + forest_entries(children@));
                assert(dirs_closed(seq![entry], groups@)) by {
                    assert forall|i: int| 0 <= i < seq![entry].len() && is_directory_kind((#[trigger] seq![entry][i]).file_type)
                        implies no_group_for(groups@, seq![entry][i].path@) by {
                        assert(seq![entry][i] == entry);
                    }
                }
                lemma_dirs_closed_concat(seq![entry], forest_entries(children@), groups@);
                assert forall|x: FileEntry| #![trigger in_groups(old(groups)@, x)] (x == entry || in_groups(old(groups)@, x)) implies (node_entries(r).contains(x)
                    || in_groups(groups@, x)) by {
                    broadcast use vstd::multiset::group_multiset_axioms;
                    lemma_in_groups_count(before, x);
                    lemma_in_groups_count(groups@, x);
                    node_entries(r).to_multiset_ensures();
                    assert(group_entries(before).insert(entry).count(x) > 0);
                }
            }
            return r;
        }
    }
    let r = TreeNode { entry, children: Vec::new() };
    proof {
        assert(forest_count(r.children@) == 0);
        assert(entries_of(r.children@) =~= Seq::<FileEntry>::empty());
        assert(seq![entry].to_multiset() =~= Multiset::empty().insert(entry)) by {
            broadcast use vstd::multiset::group_multiset_axioms;
            assert(seq![entry].drop_first() =~= Seq::<FileEntry>::empty());
        }
        assert(node_entries(r) =~= seq![entry]);
        assert(node_entries(r).to_multiset().add(group_entries(groups@)) =~= group_entries(groups@).insert(entry));
        assert(forest_entries(r.children@) == Seq::<FileEntry>::empty());
        assert(node_entries(r) == seq![entry]);
        lemma_within_refl(groups@);
        assert forall|x: FileEntry| #![trigger in_groups(old(groups)@, x)] (x == entry || in_groups(old(groups)@, x)) implies (node_entries(r).contains(x)
            || in_groups(groups@, x)) by {
            if x == entry {
                assert(node_entries(r)[0] == x);
            }
        }
        assert forall|i: int| 0 <= i < node_entries(r).len() && is_directory_kind((#[trigger] node_entries(r)[i]).file_type)
            implies no_group_for(groups@, node_entries(r)[i].path@) by {
            assert(node_entries(r)[i] == entry);
            assert(is_dir);
        }
    }
    r
}

/// Every entry below depth 1 has its parent directory among the entries, one
/// level up; no entry has depth 0.
pub open spec fn valid_subtree(input: Seq<FileEntry>) -> bool {
    forall|i: int| 0 <= i < input.len() ==> (#[trigger] input[i]).depth >= 1 && (input[i].depth > 1 ==> exists|j: int|
        0 <= j < input.len() && input[j].path@ == parent_path(input[i].path@) && is_directory_kind(input[j].file_type)
            && input[j].depth + 1 == input[i].depth)
}

proof fn lemma_no_member_at_depth(input: Seq<FileEntry>, placed: Seq<FileEntry>, gs: Seq<Group>, d: nat)
    requires
        valid_subtree(input),
        forall|x: FileEntry| input.contains(x) && x.depth == 1 ==> #[trigger] placed.contains(x),
        forall|x: FileEntry| #[trigger] input.contains(x) ==> placed.contains(x) || in_groups(gs, x),
        dirs_closed(placed, gs),
        well_grouped(gs, input),
    ensures
        forall|k: int, m: int| 0 <= k < gs.len() && 0 <= m < gs[k].members@.len() ==> (#[trigger] gs[k].members@[m]).depth != d,
    decreases d,
{
    assert forall|k: int, m: int| 0 <= k < gs.len() && 0 <= m < gs[k].members@.len() implies (#[trigger] gs[k].members@[m]).depth != d by {
        let e = gs[k].members@[m];
        if e.depth == d {
            assert(input.contains(e));
            let i = choose|i: int| 0 <= i < input.len() && input[i] == e;
            assert(input[i].depth >= 1);
            assert(e.depth > 1);
            let j = choose|j: int| 0 <= j < input.len() && input[j].path@ == parent_path(input[i].path@)
                && is_directory_kind(input[j].file_type) && input[j].depth + 1 == input[i].depth;
            let p = input[j];
            assert(input.contains(p));
            if placed.contains(p) {
                let t = choose|t: int| 0 <= t < placed.len() && placed[t] == p;
                assert(no_group_for(gs, placed[t].path@));
                assert(gs[k].parent@ != p.path@);
            } else {
                assert(in_groups(gs, p));
                let k2 = choose|k2: int| 0 <= k2 < gs.len() && (#[trigger] gs[k2]).members@.contains(p);
                let m2 = choose|m2: int| 0 <= m2 < gs[k2].members@.len() && gs[k2].members@[m2] == p;
                lemma_no_member_at_depth(input, placed, gs, (d - 1) as nat);
                assert(gs[k2].members@[m2].depth != (d - 1) as nat);
            }
        }
    }
}

proof fn lemma_empty_groups(gs: Seq<Group>)
    requires
        forall|k: int| 0 <= k < gs.len() ==> (#[trigger] gs[k]).members@.len() == 0,
    ensures
        group_total(gs) == 0,
    decreases gs.len(),
{
    if gs.len() > 0 {
        assert forall|k: int| 0 <= k < gs.drop_last().len() implies (#[trigger] gs.drop_last()[k]).members@.len() == 0 by {
            assert(gs.drop_last()[k] == gs[k]);
        }
        lemma_empty_groups(gs.drop_last());
        assert(gs[gs.len() - 1].members@.len() == 0);
    }
}

/// Regroups traversal entries into trees. The entries of depth 1 are the
/// roots; every other entry goes under the directory whose path is its parent
/// path. An entry whose parent directory is not among the attached ones is
/// reported as an orphan, naming the entry and that parent, and is not kept.
/// Children come in name order and the roots in the order of `sorters`. Each
/// entry lands exactly once, in a tree or among the orphans; and when the
/// entries form a valid subtree there is no orphan.
#[verifier::rlimit(60)]
pub fn build_tree(entries: Vec<FileEntry>, sorters: &Vec<(SortOrder, SortKey)>) -> (r: TreeBuild)
    ensures
        forest_count(r.roots@) + r.orphans@.len() == entries@.len(),
        valid_subtree(entries@) ==> r.orphans@.len() == 0,
        forall|x: FileEntry| #[trigger] entries@.contains(x) && x.depth == 1 ==> forest_entries(r.roots@).contains(x),
        forest_entries(r.roots@).to_multiset().add(orphan_entries(r.orphans@).to_multiset()) == entries@.to_multiset(),
        entries_of(r.roots@).to_multiset() == depth_one(entries@).to_multiset(),
        forest_ok(r.roots@, None),
        sorted_by(sorters@, entries_of(r.roots@)),
        forall|i: int| 0 <= i < r.orphans@.len() ==> {
            let o = #[trigger] r.orphans@[i];
            &&& o.parent@ == parent_path(o.entry.path@)
            &&& o.entry.depth != 1
            &&& !attached_dir(forest_entries(r.roots@), o.parent@)
        },
{
    broadcast use vstd::seq_lib::group_to_multiset_ensures;

    let ghost input = entries@;
    let ghost total = entries@.len();
    let mut entries = entries;
    let mut roots: Vec<FileEntry> = Vec::new();
    let mut groups: Vec<Group> = Vec::new();
    let ghost mut done: Seq<FileEntry> = Seq::empty();
    assert(input.subrange(0, 0) == done);
    assert(input.subrange(0, total as int) == input);
    while entries.len() > 0
        invariant
            roots@.len() + group_total(groups@) + entries@.len() == total,
            entries@.len() <= total,
            entries@ == input.subrange(total - entries@.len(), total as int),
            done == input.subrange(0, total - entries@.len()),
            forall|x: FileEntry| #[trigger] done.contains(x) ==> roots@.contains(x) || in_groups(groups@, x),
            forall|x: FileEntry| #[trigger] roots@.contains(x) ==> x.depth == 1 && input.contains(x),
            well_grouped(groups@, input),
            distinct_parents(groups@),
            total == input.len(),
            roots@ == depth_one(done),
            roots@.to_multiset().add(group_entries(groups@)) == done.to_multiset(),
        decreases entries@.len(),
    {
        let ghost done_before = done;
        let ghost roots0 = roots@;
        let ghost gs0 = groups@;
        let ghost rest0 = entries@;
        let e = entries.remove(0);
        assert(rest0[0] == e);
        assert(input[total - rest0.len()] == e);
        assert(input.contains(e));
        let ghost done_after = done_before.push(e);
        assert(done_after == input.subrange(0, total - entries@.len()));
        proof {
            done = done_after;
        }
        assert(input.contains(e)) by {
            assert(input[total - entries@.len() - 1] == e);
        }
        let ghost ge0 = group_entries(groups@);
        proof {
            assert(done_after.drop_last() == done_before);
            vstd::seq_lib::to_multiset_build(done_before, e);
            assert(done_after.to_multiset() == done_before.to_multiset().insert(e));
        }
        if e.depth == 1 {
            roots.push(e);
            proof {
                assert(roots@ == roots0.push(e));
                vstd::seq_lib::to_multiset_build(roots0, e);
                assert(roots@.to_multiset() == roots0.to_multiset().insert(e));
                assert(roots@.to_multiset().add(group_entries(groups@)) =~= done_after.to_multiset()) by {
                    broadcast use vstd::multiset::group_multiset_axioms;
                }
                assert forall|x: FileEntry| #[trigger] done_after.contains(x) implies roots@.contains(x) || in_groups(groups@, x) by {
                    if x == e {
                        assert(roots@[roots@.len() - 1] == e);
                    } else {
                        let i = choose|i: int| 0 <= i < done_after.len() && done_after[i] == x;
                        assert(done_before[i] == x);
                        assert(done_before.contains(x));
                        if roots0.contains(x) {
                            let j = choose|j: int| 0 <= j < roots0.len() && roots0[j] == x;
                            assert(roots@[j] == x);
                        }
                    }
                }
                assert forall|x: FileEntry| #[trigger] roots@.contains(x) implies x.depth == 1 && input.contains(x) by {
                    let j = choose|j: int| 0 <= j < roots@.len() && roots@[j] == x;
                    if j < roots0.len() {
                        assert(roots0[j] == x);
                        assert(roots0.contains(x));
                    } else {
                        assert(x == e);
                    }
                }
            }
        } else {
            let parent = parent_of(e.path.as_str());
            match find_group(&groups, parent.as_str()) {
                Some(k) => {
                    let ghost before = groups@;
                    let mut g = groups.remove(k);
                    let ghost old_members = g.members@;
                    g.members.push(e);
                    proof {
                        lemma_group_total_remove(before, k as int);
                    }
                    let ghost mid = groups@;
                    groups.insert(k, g);
                    proof {
                        assert(groups@ == mid.insert(k as int, g));
                        assert(groups@.remove(k as int) == mid);
                        lemma_group_total_remove(groups@, k as int);
                        lemma_group_entries_remove(before, k as int);
                        lemma_group_entries_remove(groups@, k as int);
                        assert(groups@[k as int] == g);
                        assert(g.members@ == old_members.push(e));
                        vstd::seq_lib::to_multiset_build(old_members, e);
                        assert(g.members@.to_multiset() == old_members.to_multiset().insert(e));
                        assert(old_members == before[k as int].members@);
                        assert(roots@.to_multiset().add(group_entries(groups@)) =~= done_after.to_multiset()) by {
                            broadcast use vstd::multiset::group_multiset_axioms;
                        }
                        assert(groups@ == before.update(k as int, g));
                        assert forall|x: FileEntry| #[trigger] done_after.contains(x) implies roots@.contains(x) || in_groups(groups@, x) by {
                            if x == e {
                                assert(groups@[k as int].members@[old_members.len() as int] == e);
                            } else {
                                let i = choose|i: int| 0 <= i < done_after.len() && done_after[i] == x;
                                assert(done_before[i] == x);
                                assert(done_before.contains(x));
                                if in_groups(before, x) {
                                    let j = choose|j: int| 0 <= j < before.len() && (#[trigger] before[j]).members@.contains(x);
                                    if j == k {
                                        let t = choose|t: int| 0 <= t < old_members.len() && old_members[t] == x;
                                        assert(groups@[j].members@[t] == x);
                                    } else {
                                        assert(groups@[j] == before[j]);
                                    }
                                }
                            }
                        }
                        assert forall|a: int, m: int| 0 <= a < groups@.len() && 0 <= m < groups@[a].members@.len() implies {
                            let x = (#[trigger] groups@[a].members@[m]);
                            groups@[a].parent@ == parent_path(x.path@) && x.depth != 1 && input.contains(x)
                        } by {
                            if a == k && m < old_members.len() {
                                assert(groups@[a].members@[m] == before[a].members@[m]);
                            } else if a != k {
                                assert(groups@[a] == before[a]);
                            }
                        }
                        assert forall|i: int, j: int| 0 <= i < j < groups@.len() implies (#[trigger] groups@[i]).parent@ != (#[trigger] groups@[j]).parent@ by {
                            assert(before[i].parent@ != before[j].parent@);
                        }
                    }
                },
                None => {
                    let mut members: Vec<FileEntry> = Vec::new();
                    members.push(e);
                    let ghost before = groups@;
                    let ng = Group { parent, members };
                    groups.push(ng);
                    proof {
                        assert(groups@.drop_last() == before);
                        assert(ng.members@ == seq![e]);
                        assert(ng.members@.to_multiset() =~= Multiset::empty().insert(e)) by {
                            broadcast use vstd::multiset::group_multiset_axioms;
                            assert(Seq::<FileEntry>::empty().push(e) =~= seq![e]);
                            vstd::seq_lib::to_multiset_build(Seq::<FileEntry>::empty(), e);
                            assert(Seq::<FileEntry>::empty().to_multiset() =~= Multiset::empty()) by {
                                Seq::<FileEntry>::empty().to_multiset_ensures();
                            }
                        }
                        assert(roots@.to_multiset().add(group_entries(groups@)) =~= done_after.to_multiset()) by {
                            broadcast use vstd::multiset::group_multiset_axioms;
                        }
                        assert forall|x: FileEntry| #[trigger] done_after.contains(x) implies roots@.contains(x) || in_groups(groups@, x) by {
                            if x == e {
                                assert(groups@[before.len() as int].members@[0] == e);
                            } else {
                                let i = choose|i: int| 0 <= i < done_after.len() && done_after[i] == x;
                                assert(done_before[i] == x);
                                assert(done_before.contains(x));
                                if in_groups(before, x) {
                                    let j = choose|j: int| 0 <= j < before.len() && (#[trigger] before[j]).members@.contains(x);
                                    assert(groups@[j] == before[j]);
                                }
                            }
                        }
                        assert forall|a: int, m: int| 0 <= a < groups@.len() && 0 <= m < groups@[a].members@.len() implies {
                            let x = (#[trigger] groups@[a].members@[m]);
                            groups@[a].parent@ == parent_path(x.path@) && x.depth != 1 && input.contains(x)
                        } by {
                            if a < before.len() {
                                assert(groups@[a] == before[a]);
                            }
                        }
                        assert forall|i: int, j: int| 0 <= i < j < groups@.len() implies (#[trigger] groups@[i]).parent@ != (#[trigger] groups@[j]).parent@ by {
                            if j < before.len() {
                                assert(before[i].parent@ != before[j].parent@);
                            } else {
                                assert(groups@[i] == before[i]);
                            }
                        }
                    }
                },
            }
        }
    }
    assert(done == input);
    let ghost unsorted_roots = roots@;
    sort_entries(&mut roots, sorters);
    let ghost sorted_roots = roots@;
    proof {
        assert(roots@.len() == roots@.to_multiset().len());
        assert forall|x: FileEntry| #[trigger] unsorted_roots.contains(x) implies roots@.contains(x) by {
            assert(unsorted_roots.to_multiset().count(x) > 0);
        }
    }
    let mut nodes: Vec<TreeNode> = Vec::new();
    assert forall|k: int, m: int| 0 <= k < groups@.len() && 0 <= m < groups@[k].members@.len() implies parent_path(
        (#[trigger] groups@[k].members@[m]).path@,
    ) == groups@[k].parent@ by {
        let x = groups@[k].members@[m];
    }
    let ghost start = group_total(groups@) + roots@.len();
    assert(start == total);
    assert(forest_entries(nodes@) == Seq::<FileEntry>::empty());
    assert(entries_of(nodes@) + roots@ =~= sorted_roots);
    assert(forest_entries(nodes@).to_multiset().add(roots@.to_multiset()).add(group_entries(groups@)) =~= input.to_multiset()) by {
        broadcast use vstd::multiset::group_multiset_axioms;
    }
    while roots.len() > 0
        invariant
            forest_count(nodes@) + roots@.len() + group_total(groups@) == start,
            entries_of(nodes@) + roots@ == sorted_roots,
            forest_ok(nodes@, None),
            forest_entries(nodes@).to_multiset().add(roots@.to_multiset()).add(group_entries(groups@)) == input.to_multiset(),
            distinct_parents(groups@),
            well_grouped(groups@, input),
            keyed(groups@),
            dirs_closed(forest_entries(nodes@), groups@),
            forall|x: FileEntry| #[trigger] input.contains(x) ==> forest_entries(nodes@).contains(x) || roots@.contains(x) || in_groups(groups@, x),
            forall|x: FileEntry| input.contains(x) && x.depth == 1 ==> #[trigger] forest_entries(nodes@).contains(x) || roots@.contains(x),
        decreases roots@.len(),
    {
        let ghost rs = roots@;
        let ghost gs0 = groups@;
        let ghost ns0 = nodes@;
        let e = roots.remove(0);
        let ghost gm = group_entries(groups@);
        let n = attach(e, &mut groups);
        proof {
            lemma_forest_ok_push(ns0, n, None);
            lemma_forest_entries_multiset(ns0, n);
            assert(entries_of(ns0.push(n)) =~= entries_of(ns0).push(e));
            assert(entries_of(ns0).push(e) + roots@ =~= entries_of(ns0) + rs);
            vstd::seq_lib::to_multiset_remove(rs, 0);
            assert(rs.remove(0) == roots@);
            assert(rs.to_multiset() =~= roots@.to_multiset().insert(e)) by {
                broadcast use vstd::multiset::group_multiset_axioms;
                rs.to_multiset_ensures();
                assert(rs.contains(e)) by {
                    assert(rs[0] == e);
                }
            }
            let ghost fm = forest_entries(ns0).to_multiset();
            let ghost nm = node_entries(n).to_multiset();
            let ghost rm = roots@.to_multiset();
            let ghost grm = group_entries(groups@);
            assert(nm.add(grm) == gm.insert(e));
            assert(fm.add(nm).add(rm).add(grm) =~= fm.add(rm).add(nm.add(grm))) by {
                broadcast use vstd::multiset::group_multiset_axioms;
            }
            assert(fm.add(rm).add(gm.insert(e)) =~= fm.add(rm.insert(e)).add(gm)) by {
                broadcast use vstd::multiset::group_multiset_axioms;
            }
            lemma_forest_push(ns0, n);
            lemma_forest_entries_push(ns0, n);
            lemma_dirs_closed_shrink(forest_entries(ns0), gs0, groups@);
            lemma_dirs_closed_concat(forest_entries(ns0), node_entries(n), groups@);
            assert forall|a: int, m: int| 0 <= a < groups@.len() && 0 <= m < groups@[a].members@.len() implies {
                let x = (#[trigger] groups@[a].members@[m]);
                groups@[a].parent@ == parent_path(x.path@) && x.depth != 1 && input.contains(x)
            } by {
                assert(gs0.contains(groups@[a]));
                let t = choose|t: int| 0 <= t < gs0.len() && gs0[t] == groups@[a];
                assert(gs0[t].members@[m] == groups@[a].members@[m]);
            }
            assert forall|x: FileEntry| #[trigger] input.contains(x) implies forest_entries(ns0.push(n)).contains(x) || roots@.contains(x) || in_groups(groups@, x) by {
                lemma_concat_contains(forest_entries(ns0), node_entries(n), x);
                if rs.contains(x) && x != e {
                    let i = choose|i: int| 0 <= i < rs.len() && rs[i] == x;
                    assert(roots@[i - 1] == x);
                }
                if in_groups(gs0, x) {
                }
            }
            assert forall|x: FileEntry| input.contains(x) && x.depth == 1 implies #[trigger] forest_entries(ns0.push(n)).contains(x) || roots@.contains(x) by {
                lemma_concat_contains(forest_entries(ns0), node_entries(n), x);
                if rs.contains(x) && x != e {
                    let i = choose|i: int| 0 <= i < rs.len() && rs[i] == x;
                    assert(roots@[i - 1] == x);
                }
                if x == e {
                    assert(node_entries(n)[0] == x);
                }
                if in_groups(gs0, x) {
                    let k = choose|k: int| 0 <= k < gs0.len() && (#[trigger] gs0[k]).members@.contains(x);
                    let m = choose|m: int| 0 <= m < gs0[k].members@.len() && gs0[k].members@[m] == x;
                    assert(gs0[k].members@[m].depth != 1);
                }
            }
        }
        nodes.push(n);
    }
    proof {
        if valid_subtree(input) {
            assert forall|x: FileEntry| input.contains(x) && x.depth == 1 implies #[trigger] forest_entries(nodes@).contains(x) by {
            }
            assert forall|x: FileEntry| #[trigger] input.contains(x) implies forest_entries(nodes@).contains(x) || in_groups(groups@, x) by {
            }
            assert forall|k: int| 0 <= k < groups@.len() implies (#[trigger] groups@[k]).members@.len() == 0 by {
                if groups@[k].members@.len() > 0 {
                    let x = groups@[k].members@[0];
                    lemma_no_member_at_depth(input, forest_entries(nodes@), groups@, x.depth as nat);
                    assert(groups@[k].members@[0].depth != x.depth);
                }
            }
            lemma_empty_groups(groups@);
        }
    }
    proof {
        assert(entries_of(nodes@) =~= sorted_roots);
        assert(roots@.to_multiset() =~= Multiset::empty());
        assert(forest_entries(nodes@).to_multiset().add(Multiset::empty()) =~= forest_entries(nodes@).to_multiset());
    }
    let ghost remaining = group_total(groups@);
    let ghost g3 = groups@;
    let ghost fe = forest_entries(nodes@);
    proof {
        assert(groups@.subrange(0, groups@.len() as int) == groups@);
    }
    let mut orphans: Vec<Orphan> = Vec::new();
    while groups.len() > 0
        invariant
            forest_count(nodes@) + orphans@.len() + group_total(groups@) == total,
            orphans@.len() + group_total(groups@) == remaining,
            groups@.len() <= g3.len(),
            groups@ == g3.subrange(0, groups@.len() as int),
            well_grouped(g3, input),
            dirs_closed(fe, g3),
            fe == forest_entries(nodes@),
            orphan_entries(orphans@).to_multiset().add(group_entries(groups@)) == group_entries(g3),
            forall|i: int| 0 <= i < orphans@.len() ==> {
                let o = #[trigger] orphans@[i];
                &&& o.parent@ == parent_path(o.entry.path@)
                &&& o.entry.depth != 1
                &&& !attached_dir(fe, o.parent@)
            },
        decreases groups@.len(),
    {
        let last = groups.len() - 1;
        let ghost before = groups@;
        let g = groups.remove(last);
        proof {
            assert(before.remove(last as int) == before.drop_last());
            lemma_group_total_remove(before, last as int);
            lemma_group_entries_remove(before, last as int);
            assert(groups@ =~= g3.subrange(0, groups@.len() as int));
            assert(g == g3[last as int]);
            assert(before.drop_last() == groups@);
        }
        let Group { parent, members } = g;
        let ghost gm = members@;
        let mut members = members;
        let ghost om0 = orphan_entries(orphans@).to_multiset();
        proof {
            assert(gm.subrange(0, gm.len() as int) == gm);
        }
        while members.len() > 0
            invariant
                members@.len() <= gm.len(),
                members@ == gm.subrange(gm.len() - members@.len(), gm.len() as int),
                gm == g3[last as int].members@,
                parent@ == g3[last as int].parent@,
                last < g3.len(),
                well_grouped(g3, input),
                dirs_closed(fe, g3),
                orphans@.len() + group_total(groups@) + members@.len() == remaining,
                forest_count(nodes@) + orphans@.len() + group_total(groups@) + members@.len() == total,
                orphan_entries(orphans@).to_multiset().add(members@.to_multiset()) == om0.add(gm.to_multiset()),
                forall|i: int| 0 <= i < orphans@.len() ==> {
                    let o = #[trigger] orphans@[i];
                    &&& o.parent@ == parent_path(o.entry.path@)
                    &&& o.entry.depth != 1
                    &&& !attached_dir(fe, o.parent@)
                },
            decreases members@.len(),
        {
            let ghost ms = members@;
            let ghost os0 = orphans@;
            let m = members.remove(0);
            let ghost idx = gm.len() - ms.len();
            assert(gm[idx] == m);
            proof {
                assert(g3[last as int].members@[idx] == m);
                assert(parent@ == parent_path(m.path@) && m.depth != 1);
                if attached_dir(fe, parent@) {
                    let i = choose|i: int| 0 <= i < fe.len() && is_directory_kind((#[trigger] fe[i]).file_type) && fe[i].path@ == parent@;
                    assert(no_group_for(g3, fe[i].path@));
                    assert(g3[last as int].parent@ != fe[i].path@);
                }
                assert(members@ =~= gm.subrange(gm.len() - members@.len(), gm.len() as int));
            }
            orphans.push(Orphan { entry: m, parent: parent.clone() });
            proof {
                assert(orphan_entries(orphans@) =~= orphan_entries(os0).push(m));
                vstd::seq_lib::to_multiset_build(orphan_entries(os0), m);
                vstd::seq_lib::to_multiset_remove(ms, 0);
                assert(ms.remove(0) == members@);
                assert(ms.to_multiset() =~= members@.to_multiset().insert(m)) by {
                    broadcast use vstd::multiset::group_multiset_axioms;
                    ms.to_multiset_ensures();
                    assert(ms.contains(m)) by {
                        assert(ms[0] == m);
                    }
                }
                assert(orphan_entries(orphans@).to_multiset().add(members@.to_multiset()) =~= om0.add(gm.to_multiset())) by {
                    broadcast use vstd::multiset::group_multiset_axioms;
                }
            }
        }
        proof {
            assert(members@ =~= Seq::<FileEntry>::empty());
            assert(members@.to_multiset() =~= Multiset::empty()) by {
                broadcast use vstd::multiset::group_multiset_axioms;
                members@.to_multiset_ensures();
            }
            assert(group_entries(before) == group_entries(groups@).add(gm.to_multiset()));
            assert(om0.add(group_entries(before)) == group_entries(g3));
            assert(orphan_entries(orphans@).to_multiset().add(Multiset::empty()) =~= orphan_entries(orphans@).to_multiset());
            assert(orphan_entries(orphans@).to_multiset() == om0.add(gm.to_multiset()));
            assert(orphan_entries(orphans@).to_multiset().add(group_entries(groups@)) =~= group_entries(g3)) by {
                broadcast use vstd::multiset::group_multiset_axioms;
            }
        }
    }
    proof {
        assert(group_entries(groups@) =~= Multiset::empty());
        assert(orphan_entries(orphans@).to_multiset().add(Multiset::empty()) =~= orphan_entries(orphans@).to_multiset());
        assert(forest_entries(nodes@).to_multiset().add(orphan_entries(orphans@).to_multiset()) =~= input.to_multiset()) by {
            broadcast use vstd::multiset::group_multiset_axioms;
        }
    }
    TreeBuild { roots: nodes, orphans }
}

} // verus!

