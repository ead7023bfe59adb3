//! The size-annotated file hierarchy: one node per filesystem entry, with a
//! directory's size equal to the sum of its children's sizes and its children
//! kept in name order.

use vstd::prelude::*;
use vstd::multiset::Multiset;
use crate::order::lex_le;

verus! {

broadcast use vstd::std_specs::vec::group_vec_axioms;

/// The kind of one filesystem entry.
#[derive(Clone, Copy, PartialEq, Eq, Structural, Debug)]
pub enum NodeKind {
    File,
    Directory,
    Symlink,
    Other,
}

/// What went wrong with a scan or with one of its entries. A root-level
/// failure is fatal; elsewhere these become warnings attached to the result.
#[derive(Clone, Copy, PartialEq, Eq, Structural, Debug)]
pub enum ErrorKind {
    InvalidRoot,
    PermissionDenied,
    CycleDetected,
    TimedOut,
    Cancelled,
    IoError,
    DepthTruncated,
}

/// One entry of the produced hierarchy. `children` is present exactly for
/// directories (empty for an empty directory) and absent for every other kind.
pub struct FileNode {
    pub name: String,
    pub kind: NodeKind,
    pub size: u64,
    pub children: Option<Vec<FileNode>>,
}

/// The mathematical shape of a `FileNode`: names as character sequences,
/// children as a sequence of shapes.
pub struct NodeV {
    pub name: Seq<char>,
    pub kind: NodeKind,
    pub size: u64,
    pub children: Option<Seq<NodeV>>,
}

/// The shape of a node: every field abstracted, children recursively.
pub open spec fn node_view(n: FileNode) -> NodeV
    decreases n,
{
    NodeV {
        name: n.name@,
        kind: n.kind,
        size: n.size,
        children: match n.children {
            Option::None => Option::None,
            Option::Some(v) => Option::Some(views_of(v@)),
        },
    }
}

impl View for FileNode {
    type V = NodeV;

    open spec fn view(&self) -> NodeV {
        node_view(*self)
    }
}

/// The shapes of a sequence of nodes, elementwise.
pub open spec fn views_of(s: Seq<FileNode>) -> Seq<NodeV>
    decreases s,
{
    if s.len() == 0 {
        Seq::empty()
    } else {
        seq![node_view(s[0])] + views_of(s.skip(1))
    }
}

/// `views_of` keeps the length and works elementwise.
pub proof fn lemma_views_of(s: Seq<FileNode>)
    ensures
        views_of(s).len() == s.len(),
        forall|i: int| 0 <= i < s.len() ==> #[trigger] views_of(s)[i] == node_view(s[i]),
    decreases s,
{
    if s.len() > 0 {
        lemma_views_of(s.skip(1));
    }
}

/// The sum of the sizes in a sequence of nodes.
pub open spec fn size_sum(s: Seq<NodeV>) -> int
    decreases s.len(),
{
    if s.len() == 0 {
        0
    } else {
        s[0].size + size_sum(s.skip(1))
    }
}

/// How many nodes a tree holds, the root included.
pub open spec fn node_count(n: NodeV) -> int
    decreases n,
{
    1 + match n.children {
        Option::None => 0,
        Option::Some(cs) => count_sum(cs),
    }
}

/// The total node count of a sequence of trees.
pub open spec fn count_sum(s: Seq<NodeV>) -> int
    decreases s,
{
    if s.len() == 0 {
        0
    } else {
        node_count(s[0]) + count_sum(s.skip(1))
    }
}

/// Every node of a tree as a `(path of names, kind, leaf size)` triple,
/// given the names above the tree's root: the root's own triple — its size
/// recorded only when it is not a directory, a directory's size being fixed
/// by its children — plus those of its children, one name deeper.
pub open spec fn node_pairs(n: NodeV, prefix: Seq<Seq<char>>) -> Multiset<
    (Seq<Seq<char>>, NodeKind, int),
>
    decreases n,
{
    Multiset::singleton(
        (prefix.push(n.name), n.kind, if n.kind is Directory { 0int } else { n.size as int }),
    ).add(
        match n.children {
            Option::None => Multiset::empty(),
            Option::Some(cs) => pairs_sum(cs, prefix.push(n.name)),
        },
    )
}

/// The triples of a sequence of trees whose roots share the same ancestors.
pub open spec fn pairs_sum(s: Seq<NodeV>, prefix: Seq<Seq<char>>) -> Multiset<
    (Seq<Seq<char>>, NodeKind, int),
>
    decreases s,
{
    if s.len() == 0 {
        Multiset::empty()
    } else {
        node_pairs(s[0], prefix).add(pairs_sum(s.skip(1), prefix))
    }
}

/// Children stand in name order.
pub open spec fn sorted_by_name(s: Seq<NodeV>) -> bool {
    forall|i: int, j: int|
        0 <= i < j < s.len() ==> #[trigger] lex_le(s[i].name, s[j].name)
}

/// Well-formedness of a finished tree: names are non-empty, children are
/// present exactly on directories, every directory's size is the sum of its
/// children's sizes, and children stand in name order. This carries the
/// size-aggregation invariant of a completed scan.
pub open spec fn node_wf(n: NodeV) -> bool
    decreases n,
{
    &&& n.name.len() > 0
    &&& (n.kind is Directory <==> n.children is Some)
    &&& match n.children {
        Option::None => true,
        Option::Some(cs) => {
            &&& n.size == size_sum(cs)
            &&& sorted_by_name(cs)
            &&& forall|i: int| 0 <= i < cs.len() ==> node_wf(#[trigger] cs[i])
        },
    }
}

/// Inserting one node adds its size, its count and its pairs to the
/// respective sums.
pub proof fn lemma_sums_insert(s: Seq<NodeV>, k: int, x: NodeV)
    requires
        0 <= k <= s.len(),
    ensures
        size_sum(s.insert(k, x)) == size_sum(s) + x.size,
        count_sum(s.insert(k, x)) == count_sum(s) + node_count(x),
        forall|c: Seq<Seq<char>>| #[trigger] pairs_sum(s.insert(k, x), c) == pairs_sum(
            s,
            c,
        ).add(node_pairs(x, c)),
    decreases k,
{
    if k == 0 {
        assert(s.insert(0, x).skip(1) =~= s);
        assert(s.insert(0, x)[0] == x);
        assert forall|c: Seq<Seq<char>>| #[trigger] pairs_sum(s.insert(0, x), c) == pairs_sum(
            s,
            c,
        ).add(node_pairs(x, c)) by {
            assert(pairs_sum(s.insert(0, x), c) == node_pairs(x, c).add(pairs_sum(s, c)));
            assert(node_pairs(x, c).add(pairs_sum(s, c)) =~= pairs_sum(s, c).add(
                node_pairs(x, c),
            ));
        }
    } else {
        assert(s.insert(k, x)[0] == s[0]);
        assert(s.insert(k, x).skip(1) =~= s.skip(1).insert(k - 1, x));
        lemma_sums_insert(s.skip(1), k - 1, x);
        assert forall|c: Seq<Seq<char>>| #[trigger] pairs_sum(s.insert(k, x), c) == pairs_sum(
            s,
            c,
        ).add(node_pairs(x, c)) by {
            assert(pairs_sum(s.insert(k, x), c) == node_pairs(s[0], c).add(
                pairs_sum(s.skip(1).insert(k - 1, x), c),
            ));
            assert(pairs_sum(s.skip(1).insert(k - 1, x), c) == pairs_sum(s.skip(1), c).add(
                node_pairs(x, c),
            ));
            assert(node_pairs(s[0], c).add(pairs_sum(s.skip(1), c).add(node_pairs(x, c)))
                =~= node_pairs(s[0], c).add(pairs_sum(s.skip(1), c)).add(node_pairs(x, c)));
        }
    }
}

/// Inserting between smaller-or-equal and greater-or-equal names keeps a
/// sequence sorted.
pub proof fn lemma_sorted_insert(s: Seq<NodeV>, k: int, x: NodeV)
    requires
        0 <= k <= s.len(),
        sorted_by_name(s),
        forall|j: int| 0 <= j < k ==> lex_le((#[trigger] s[j]).name, x.name),
        forall|j: int| k <= j < s.len() ==> lex_le(x.name, (#[trigger] s[j]).name),
    ensures
        sorted_by_name(s.insert(k, x)),
{
    let t = s.insert(k, x);
    assert forall|i: int, j: int| 0 <= i < j < t.len() implies #[trigger] lex_le(
        t[i].name,
        t[j].name,
    ) by {
        if i < k {
            assert(t[i] == s[i]);
        } else if i == k {
            assert(t[i] == x);
        } else {
            assert(t[i] == s[i - 1]);
        }
        if j < k {
            assert(t[j] == s[j]);
        } else if j == k {
            assert(t[j] == x);
        } else {
            assert(t[j] == s[j - 1]);
        }
    }
}

/// Every tree holds at least its root.
pub proof fn lemma_node_count_pos(n: NodeV)
    ensures
        node_count(n) >= 1,
    decreases n,
{
    match n.children {
        Option::None => {},
        Option::Some(cs) => {
            lemma_count_sum_nonneg(cs);
        },
    }
}

/// A count sum is never negative.
pub proof fn lemma_count_sum_nonneg(s: Seq<NodeV>)
    ensures
        count_sum(s) >= 0,
    decreases s,
{
    if s.len() > 0 {
        lemma_node_count_pos(s[0]);
        lemma_count_sum_nonneg(s.skip(1));
    }
}

/// A completed scan of an empty directory: a well-formed one-node tree whose
/// root is a directory has no children and size zero.
pub proof fn lemma_single_node_tree(n: NodeV)
    requires
        node_wf(n),
        n.kind is Directory,
        node_count(n) == 1,
    ensures
        n.children == Option::Some(Seq::<NodeV>::empty()),
        n.size == 0,
{
    let cs = n.children->Some_0;
    if cs.len() > 0 {
        lemma_node_count_pos(cs[0]);
        lemma_count_sum_nonneg(cs.skip(1));
        assert(count_sum(cs) == node_count(cs[0]) + count_sum(cs.skip(1)));
        assert(false);
    }
    assert(cs =~= Seq::<NodeV>::empty());
    assert(size_sum(Seq::<NodeV>::empty()) == 0);
}

/// The size invariant of a completed scan, read off one node: in a
/// well-formed tree every directory's size is exactly the sum of its
/// children's sizes, and each child is well-formed in turn — so the same
/// holds of every directory below it.
pub proof fn lemma_directory_size_invariant(n: NodeV)
    requires
        node_wf(n),
        n.children is Some,
    ensures
        n.size == size_sum(n.children->Some_0),
        forall|i: int|
            0 <= i < n.children->Some_0.len() ==> node_wf(#[trigger] n.children->Some_0[i]),
{
}

} // verus!
