//! Builds the finished tree from the walker's depth-first entry sequence in a
//! single forward pass, using an explicit stack of open directory frames: a
//! frame closes when the walk leaves its directory, at which point its size —
//! the sum of its children's sizes — is final. Failed entries become
//! zero-size nodes and produce warnings in walk order.

use vstd::prelude::*;
use vstd::multiset::Multiset;
use crate::entry::{
    entries_ok, entries_wf, entry_chain, entry_item, entry_pairs, leaf_size, leaf_total,
    lemma_leaf_total_prefix, lemma_open_chain_prefix, open_chain, warn_list, warn_views, Entry,
    Warning,
};
use crate::node::{
    count_sum, lemma_sorted_insert, lemma_sums_insert, lemma_views_of, node_count, node_pairs,
    node_wf, pairs_sum, size_sum, sorted_by_name, views_of, FileNode, NodeKind, NodeV,
};
use crate::order::{lemma_lex_le_total, lemma_lex_le_trans, lex_le, str_le};

verus! {

broadcast use vstd::multiset::group_multiset_axioms;

/// An open directory, not yet closed: its name, its finished children so far
/// in name order, and their accumulated size.
struct Frame {
    name: String,
    children: Vec<FileNode>,
    size: u64,
}

/// An open frame is internally consistent: finished, well-formed children in
/// name order, and the accumulated size equal to the sum of their sizes.
spec fn frame_ok(f: Frame) -> bool {
    &&& f.name@.len() > 0
    &&& f.size as int == size_sum(views_of(f.children@))
    &&& sorted_by_name(views_of(f.children@))
    &&& forall|i: int| 0 <= i < f.children@.len() ==> node_wf(#[trigger] views_of(f.children@)[i])
}

spec fn frames_ok(fs: Seq<Frame>) -> bool {
    forall|j: int| 0 <= j < fs.len() ==> frame_ok(#[trigger] fs[j])
}

/// The size accumulated across all open frames.
spec fn frames_size(fs: Seq<Frame>) -> int
    decreases fs.len(),
{
    if fs.len() == 0 {
        0
    } else {
        frames_size(fs.drop_last()) + fs.last().size
    }
}

/// How many nodes the open frames hold: one for each open directory plus the
/// finished children inside each.
spec fn frames_count(fs: Seq<Frame>) -> int
    decreases fs.len(),
{
    if fs.len() == 0 {
        0
    } else {
        frames_count(fs.drop_last()) + 1 + count_sum(views_of(fs.last().children@))
    }
}

/// The names of the open directories, outermost first.
spec fn frames_chain(fs: Seq<Frame>) -> Seq<Seq<char>>
    decreases fs.len(),
{
    if fs.len() == 0 {
        Seq::empty()
    } else {
        frames_chain(fs.drop_last()).push(fs.last().name@)
    }
}

/// `frames_chain` keeps the length and works elementwise.
proof fn lemma_frames_chain(fs: Seq<Frame>)
    ensures
        frames_chain(fs).len() == fs.len(),
        forall|k: int| 0 <= k < fs.len() ==> #[trigger] frames_chain(fs)[k] == fs[k].name@,
    decreases fs.len(),
{
    if fs.len() > 0 {
        lemma_frames_chain(fs.drop_last());
    }
}

/// Every node the open frames hold, as `(path of names, kind, leaf size)`
/// triples: each open directory on its own chain of names, its finished
/// children one name deeper.
spec fn frames_pairs(fs: Seq<Frame>) -> Multiset<(Seq<Seq<char>>, NodeKind, int)>
    decreases fs.len(),
{
    if fs.len() == 0 {
        Multiset::empty()
    } else {
        frames_pairs(fs.drop_last()).insert((frames_chain(fs), NodeKind::Directory, 0int)).add(
            pairs_sum(views_of(fs.last().children@), frames_chain(fs)),
        )
    }
}

proof fn lemma_frames_size_nonneg(fs: Seq<Frame>)
    ensures
        frames_size(fs) >= 0,
    decreases fs.len(),
{
    if fs.len() > 0 {
        lemma_frames_size_nonneg(fs.drop_last());
    }
}

/// How many frames stand open right after an entry was consumed: a directory
/// entry opens one frame more than its own depth.
spec fn open_count(e: Entry) -> int {
    if e.kind is Directory {
        e.depth + 1
    } else {
        e.depth as int
    }
}

/// Adds one finished node to an open frame, keeping the children in name
/// order and the accumulated size exact.
#[verifier::loop_isolation(false)]
fn insert_child(f: &mut Frame, node: FileNode)
    requires
        frame_ok(*old(f)),
        node_wf(node@),
        old(f).size + node.size <= u64::MAX,
    ensures
        frame_ok(*final(f)),
        final(f).name == old(f).name,
        final(f).size == old(f).size + node.size,
        count_sum(views_of(final(f).children@)) == count_sum(views_of(old(f).children@))
            + node_count(node@),
        forall|c: Seq<Seq<char>>| #[trigger] pairs_sum(views_of(final(f).children@), c)
            == pairs_sum(views_of(old(f).children@), c).add(node_pairs(node@, c)),
{
    let ghost s0 = f.children@;
    let ghost v0 = views_of(f.children@);
    proof {
        lemma_views_of(s0);
    }
    let mut k: usize = 0;
    while k < f.children.len() && str_le(f.children[k].name.as_str(), node.name.as_str())
        invariant
            k <= f.children@.len(),
            *f == *old(f),
            forall|j: int| 0 <= j < k ==> lex_le((#[trigger] v0[j]).name, node@.name),
        decreases f.children@.len() - k,
    {
        k = k + 1;
    }
    proof {
        // everything at or after position k is at least the new name
        assert forall|j: int| k <= j < v0.len() implies lex_le(node@.name, (#[trigger] v0[j]).name) by {
            lemma_lex_le_total(v0[k as int].name, node@.name);
            if j > k {
                lemma_lex_le_trans(node@.name, v0[k as int].name, v0[j].name);
            }
        }
    }
    f.size = f.size + node.size;
    f.children.insert(k, node);
    proof {
        let s1 = s0.insert(k as int, node);
        let v1 = v0.insert(k as int, node@);
        lemma_views_of(s1);
        assert forall|i: int| 0 <= i < s1.len() implies #[trigger] views_of(s1)[i] == v1[i] by {
            if i < k {
                assert(s1[i] == s0[i]);
                assert(v1[i] == v0[i]);
            } else if i == k {
                assert(s1[i] == node);
                assert(v1[i] == node@);
            } else {
                assert(s1[i] == s0[i - 1]);
                assert(v1[i] == v0[i - 1]);
            }
        }
        assert(views_of(s1) =~= v1);
        lemma_sums_insert(v0, k as int, node@);
        lemma_sorted_insert(v0, k as int, node@);
        assert forall|i: int| 0 <= i < s1.len() implies node_wf(#[trigger] views_of(s1)[i]) by {
            if i < k {
                assert(v1[i] == v0[i]);
            } else if i == k {
                assert(v1[i] == node@);
            } else {
                assert(v1[i] == v0[i - 1]);
            }
        }
    }
}

/// Closes the top frame: the directory it stood for is finished — children
/// in name order, size the sum of theirs — and joins the frame below.
fn close_top(frames: &mut Vec<Frame>)
    requires
        old(frames)@.len() >= 2,
        frames_ok(old(frames)@),
        frames_size(old(frames)@) <= u64::MAX,
    ensures
        final(frames)@.len() == old(frames)@.len() - 1,
        frames_ok(final(frames)@),
        frames_size(final(frames)@) == frames_size(old(frames)@),
        frames_count(final(frames)@) == frames_count(old(frames)@),
        frames_pairs(final(frames)@) == frames_pairs(old(frames)@),
        frames_chain(final(frames)@) == frames_chain(old(frames)@).drop_last(),
        forall|j: int| 0 <= j < old(frames)@.len() - 2 ==> final(frames)@[j] == old(frames)@[j],
        final(frames)@.last().name == old(frames)@[old(frames)@.len() - 2].name,
{
    let ghost fs0 = frames@;
    proof {
        assert(frame_ok(fs0[fs0.len() - 1]));
        assert(frame_ok(fs0[fs0.len() - 2]));
        assert(fs0.last() == fs0[fs0.len() - 1]);
        assert(fs0.drop_last().last() == fs0[fs0.len() - 2]);
        lemma_frames_size_nonneg(fs0.drop_last().drop_last());
        assert(frames_size(fs0) == frames_size(fs0.drop_last()) + fs0.last().size);
        assert(frames_size(fs0.drop_last()) == frames_size(fs0.drop_last().drop_last())
            + fs0.drop_last().last().size);
    }
    let top = frames.pop().unwrap();
    let mut parent = frames.pop().unwrap();
    proof {
        assert(top == fs0[fs0.len() - 1]);
        assert(parent == fs0[fs0.len() - 2]);
        assert(frames@ =~= fs0.drop_last().drop_last());
        lemma_views_of(top.children@);
    }
    let node = FileNode {
        name: top.name,
        kind: NodeKind::Directory,
        size: top.size,
        children: Some(top.children),
    };
    proof {
        assert(node@.children == Option::Some(views_of(top.children@)));
        assert(node_wf(node@));
        assert(node_count(node@) == 1 + count_sum(views_of(top.children@)));
    }
    insert_child(&mut parent, node);
    frames.push(parent);
    proof {
        assert(frames@.drop_last() =~= fs0.drop_last().drop_last());
        assert(frames@.last() == frames@[frames@.len() - 1]);
        assert(frames_size(frames@) == frames_size(frames@.drop_last()) + frames@.last().size);
        assert(frames_count(fs0) == frames_count(fs0.drop_last()) + 1 + count_sum(
            views_of(fs0.last().children@),
        ));
        assert(frames_count(fs0.drop_last()) == frames_count(fs0.drop_last().drop_last()) + 1
            + count_sum(views_of(fs0.drop_last().last().children@)));
        assert(frames_count(frames@) == frames_count(frames@.drop_last()) + 1 + count_sum(
            views_of(frames@.last().children@),
        ));
        lemma_frames_chain(fs0);
        lemma_frames_chain(fs0.drop_last());
        lemma_frames_chain(frames@);
        assert forall|j: int| 0 <= j < frames@.len() implies #[trigger] frames_chain(frames@)[j]
            == frames_chain(fs0.drop_last())[j] by {
            if j < frames@.len() - 1 {
                assert(frames@[j] == fs0[j]);
                assert(fs0.drop_last()[j] == fs0[j]);
            } else {
                assert(fs0.drop_last()[j] == fs0[fs0.len() - 2]);
            }
        }
        assert(frames_chain(frames@) =~= frames_chain(fs0.drop_last()));
        assert(frames_chain(fs0).drop_last() =~= frames_chain(fs0.drop_last()));
        assert(frames_pairs(fs0) == frames_pairs(fs0.drop_last()).insert(
            (frames_chain(fs0), NodeKind::Directory, 0int),
        ).add(pairs_sum(views_of(fs0.last().children@), frames_chain(fs0))));
        assert(frames_pairs(fs0.drop_last()) == frames_pairs(fs0.drop_last().drop_last()).insert(
            (frames_chain(fs0.drop_last()), NodeKind::Directory, 0int),
        ).add(pairs_sum(views_of(fs0.drop_last().last().children@), frames_chain(fs0.drop_last()))));
        assert(frames_pairs(frames@) == frames_pairs(frames@.drop_last()).insert(
            (frames_chain(frames@), NodeKind::Directory, 0int),
        ).add(pairs_sum(views_of(frames@.last().children@), frames_chain(frames@))));
        assert(pairs_sum(views_of(frames@.last().children@), frames_chain(frames@)) == pairs_sum(
            views_of(fs0[fs0.len() - 2].children@),
            frames_chain(frames@),
        ).add(node_pairs(node@, frames_chain(frames@))));
        assert(frames_chain(frames@).push(node@.name) == frames_chain(fs0));
        assert(node_pairs(node@, frames_chain(frames@)) == Multiset::singleton(
            (frames_chain(fs0), NodeKind::Directory, 0int),
        ).add(pairs_sum(views_of(top.children@), frames_chain(fs0))));
        assert(frames_pairs(frames@) =~= frames_pairs(fs0));
        assert forall|j: int| 0 <= j < frames@.len() implies frame_ok(#[trigger] frames@[j]) by {
            if j < frames@.len() - 1 {
                assert(frames@[j] == fs0[j]);
            }
        }
    }
}

/// Consumes a well-formed depth-first entry sequence and builds the finished
/// tree and its warning list. Every directory is closed exactly once; its
/// size is the sum of its children's sizes the moment it closes, so the whole
/// tree satisfies the bottom-up size invariant. The tree holds exactly one
/// node per entry — standing at its entry's path of names, with its entry's
/// kind, a non-directory carrying its entry's reported size (zero when it
/// failed) — the root carries the root entry's name, the root's size is the
/// total of the readable leaf sizes, and the warnings are the failed
/// entries' `(path, reason)` pairs in walk order.
#[verifier::loop_isolation(false)]
#[verifier::rlimit(100)]
pub fn build_tree(entries: &Vec<Entry>) -> (res: (FileNode, Vec<Warning>))
    requires
        entries_wf(entries@),
        leaf_total(entries@) <= u64::MAX,
    ensures
        node_wf(res.0@),
        res.0@.kind is Directory,
        res.0@.name == entries@[0].name@,
        res.0@.size == leaf_total(entries@),
        node_count(res.0@) == entries@.len(),
        node_pairs(res.0@, Seq::<Seq<char>>::empty()) == entry_pairs(entries@),
        warn_views(res.1@) == warn_list(entries@),
{
    let (mut frames, mut warnings) = open_root(entries);
    let mut i: usize = 1;
    while i < entries.len()
        invariant
            1 <= i <= entries@.len(),
            frames@.len() >= 1,
            frames@.len() == open_count(entries@[i - 1]),
            frames_ok(frames@),
            frames_size(frames@) == leaf_total(entries@.take(i as int)),
            frames_count(frames@) == i as int,
            frames_pairs(frames@) == entry_pairs(entries@.take(i as int)),
            frames_chain(frames@) == open_chain(entries@, i as int),
            frames@[0].name@ == entries@[0].name@,
            warn_views(warnings@) == warn_list(entries@.take(i as int)),
        decreases entries@.len() - i,
    {
        consume_entry(&mut frames, &mut warnings, entries, i);
        i = i + 1;
    }
    proof {
        assert(entries@.take(i as int) =~= entries@);
    }
    let root = finish_root(frames, entries);
    (root, warnings)
}

/// Closes every frame still open, from the deepest to the root, and hands
/// the finished root node out.
#[verifier::loop_isolation(false)]
fn finish_root(frames: Vec<Frame>, entries: &Vec<Entry>) -> (root: FileNode)
    requires
        entries_wf(entries@),
        leaf_total(entries@) <= u64::MAX,
        frames@.len() >= 1,
        frames_ok(frames@),
        frames_size(frames@) == leaf_total(entries@),
        frames_count(frames@) == entries@.len(),
        frames_pairs(frames@) == entry_pairs(entries@),
        frames@[0].name@ == entries@[0].name@,
    ensures
        node_wf(root@),
        root@.kind is Directory,
        root@.name == entries@[0].name@,
        root@.size == leaf_total(entries@),
        node_count(root@) == entries@.len(),
        node_pairs(root@, Seq::<Seq<char>>::empty()) == entry_pairs(entries@),
{
    let mut frames = frames;
    while frames.len() > 1
        invariant
            frames@.len() >= 1,
            frames_ok(frames@),
            frames_size(frames@) == leaf_total(entries@),
            frames_count(frames@) == entries@.len(),
            frames_pairs(frames@) == entry_pairs(entries@),
            frames@[0].name@ == entries@[0].name@,
        decreases frames@.len(),
    {
        close_top(&mut frames);
    }
    let ghost fs_end = frames@;
    let root_frame = frames.pop().unwrap();
    let root = FileNode {
        name: root_frame.name,
        kind: NodeKind::Directory,
        size: root_frame.size,
        children: Some(root_frame.children),
    };
    proof {
        assert(frame_ok(fs_end[0]));
        assert(fs_end.last() == fs_end[0]);
        assert(root_frame == fs_end[0]);
        assert(fs_end.drop_last() =~= Seq::<Frame>::empty());
        assert(frames_size(Seq::<Frame>::empty()) == 0);
        assert(frames_count(Seq::<Frame>::empty()) == 0);
        lemma_views_of(root_frame.children@);
        assert(root@.children == Option::Some(views_of(root_frame.children@)));
        assert(node_wf(root@));
        assert(frames_chain(Seq::<Frame>::empty()) == Seq::<Seq<char>>::empty());
        assert(frames_chain(fs_end) == Seq::<Seq<char>>::empty().push(root_frame.name@));
        assert(frames_pairs(Seq::<Frame>::empty()) == Multiset::<(
            Seq<Seq<char>>,
            NodeKind,
            int,
        )>::empty());
        assert(frames_pairs(fs_end) == frames_pairs(Seq::<Frame>::empty()).insert(
            (frames_chain(fs_end), NodeKind::Directory, 0int),
        ).add(pairs_sum(views_of(root_frame.children@), frames_chain(fs_end))));
        assert(Seq::<Seq<char>>::empty().push(root@.name) == frames_chain(fs_end));
        assert(node_pairs(root@, Seq::<Seq<char>>::empty()) == Multiset::singleton(
            (frames_chain(fs_end), NodeKind::Directory, 0int),
        ).add(pairs_sum(views_of(root_frame.children@), frames_chain(fs_end))));
        assert(node_pairs(root@, Seq::<Seq<char>>::empty()) =~= frames_pairs(fs_end));
    }
    root
}

/// Builds the tree from any entry sequence, validating it first: the result
/// is produced exactly when the sequence is a well-formed walk whose total
/// leaf size fits in a byte count, and it then has every guarantee of
/// `build_tree`.
pub fn build_scan(entries: &Vec<Entry>) -> (res: Option<(FileNode, Vec<Warning>)>)
    ensures
        match res {
            Option::Some(p) => {
                &&& entries_wf(entries@)
                &&& leaf_total(entries@) <= u64::MAX
                &&& node_wf(p.0@)
                &&& p.0@.kind is Directory
                &&& p.0@.name == entries@[0].name@
                &&& p.0@.size == leaf_total(entries@)
                &&& node_count(p.0@) == entries@.len()
                &&& node_pairs(p.0@, Seq::<Seq<char>>::empty()) == entry_pairs(entries@)
                &&& warn_views(p.1@) == warn_list(entries@)
            },
            Option::None => !(entries_wf(entries@) && leaf_total(entries@) <= u64::MAX),
        },
{
    if entries_ok(entries) {
        let (tree, warnings) = build_tree(entries);
        Some((tree, warnings))
    } else {
        None
    }
}

/// Opens the root frame from the first entry; a failed root entry already
/// leaves its warning.
fn open_root(entries: &Vec<Entry>) -> (res: (Vec<Frame>, Vec<Warning>))
    requires
        entries_wf(entries@),
    ensures
        res.0@.len() == 1,
        res.0@.len() == open_count(entries@[0]),
        frames_ok(res.0@),
        frames_size(res.0@) == leaf_total(entries@.take(1)),
        frames_count(res.0@) == 1,
        res.0@[0].name@ == entries@[0].name@,
        frames_pairs(res.0@) == entry_pairs(entries@.take(1)),
        frames_chain(res.0@) == open_chain(entries@, 1),
        warn_views(res.1@) == warn_list(entries@.take(1)),
{
    let mut warnings: Vec<Warning> = Vec::new();
    let mut frames: Vec<Frame> = Vec::new();

    let root_name = entries[0].name.clone();
    match entries[0].info {
        Err(k) => warnings.push(Warning { path: entries[0].path.clone(), reason: k }),
        Ok(_) => {},
    }
    frames.push(Frame { name: root_name, children: Vec::new(), size: 0 });
    proof {
        assert(views_of(Seq::<FileNode>::empty()) =~= Seq::<NodeV>::empty());
        assert(size_sum(Seq::<NodeV>::empty()) == 0);
        assert(count_sum(Seq::<NodeV>::empty()) == 0);
        assert(frames@.len() == 1);
        assert(frames@.drop_last() =~= Seq::<Frame>::empty());
        assert(frames_size(Seq::<Frame>::empty()) == 0);
        assert(frames_count(Seq::<Frame>::empty()) == 0);
        assert(frames@.last().size == 0);
        assert(frames_size(frames@) == 0);
        assert(frames_count(frames@) == 1);
        assert(entries@.take(1).len() == 1);
        assert(entries@.take(1).drop_last() =~= Seq::<Entry>::empty());
        assert(entries@.take(1).last() == entries@[0]);
        assert(entries@.take(1)[0] == entries@[0]);
        assert(entries@[0].kind is Directory);
        assert(leaf_size(entries@[0]) == 0);
        assert(leaf_total(Seq::<Entry>::empty()) == 0);
        assert(leaf_total(entries@.take(1)) == 0);
        assert(warn_list(Seq::<Entry>::empty())
            == Seq::<(Seq<char>, crate::node::ErrorKind)>::empty());
        match entries@[0].info {
            Result::Err(k) => {
                assert(warnings@.len() == 1);
                assert(warn_views(warnings@) =~= warn_list(entries@.take(1)));
            },
            Result::Ok(_) => {
                assert(warnings@.len() == 0);
                assert(warn_views(warnings@) =~= warn_list(entries@.take(1)));
            },
        }
        assert(warn_views(warnings@) == warn_list(entries@.take(1)));
        assert(frames_chain(Seq::<Frame>::empty()) == Seq::<Seq<char>>::empty());
        assert(frames_chain(frames@) == Seq::<Seq<char>>::empty().push(entries@[0].name@));
        assert(open_chain(entries@, 0) == Seq::<Seq<char>>::empty());
        assert(Seq::<Seq<char>>::empty().take(0) =~= Seq::<Seq<char>>::empty());
        assert(open_chain(entries@, 1) == open_chain(entries@, 0).take(
            entries@[0].depth as int,
        ).push(entries@[0].name@));
        assert(frames_chain(frames@) == open_chain(entries@, 1));
        assert(frames_pairs(Seq::<Frame>::empty()) == Multiset::<(
            Seq<Seq<char>>,
            NodeKind,
            int,
        )>::empty());
        assert(pairs_sum(Seq::<NodeV>::empty(), frames_chain(frames@)) == Multiset::<(
            Seq<Seq<char>>,
            NodeKind,
            int,
        )>::empty());
        assert(frames_pairs(frames@) == frames_pairs(Seq::<Frame>::empty()).insert(
            (frames_chain(frames@), NodeKind::Directory, 0int),
        ).add(pairs_sum(views_of(frames@.last().children@), frames_chain(frames@))));
        assert(entry_pairs(Seq::<Entry>::empty()) == Multiset::<(
            Seq<Seq<char>>,
            NodeKind,
            int,
        )>::empty());
        assert(open_chain(entries@.take(1), 0) == Seq::<Seq<char>>::empty());
        assert(entry_chain(entries@.take(1), 0) == Seq::<Seq<char>>::empty().push(
            entries@[0].name@,
        ));
        assert(entry_item(entries@.take(1), 0) == (frames_chain(frames@), NodeKind::Directory, 0int));
        assert(entry_pairs(entries@.take(1)) == entry_pairs(Seq::<Entry>::empty()).insert(
            entry_item(entries@.take(1), 0),
        ));
        assert(frames_pairs(frames@) =~= entry_pairs(entries@.take(1)));
    }
    (frames, warnings)
}

/// Consumes one entry of the walk: frames deeper than it close, a failed
/// entry leaves its warning, and the entry itself either opens a frame (a
/// directory) or joins the top frame as a finished leaf.
#[verifier::loop_isolation(false)]
#[verifier::rlimit(100)]
fn consume_entry(
    frames: &mut Vec<Frame>,
    warnings: &mut Vec<Warning>,
    entries: &Vec<Entry>,
    i: usize,
)
    requires
        entries_wf(entries@),
        leaf_total(entries@) <= u64::MAX,
        1 <= i < entries@.len(),
        old(frames)@.len() >= 1,
        old(frames)@.len() == open_count(entries@[i - 1]),
        frames_ok(old(frames)@),
        frames_size(old(frames)@) == leaf_total(entries@.take(i as int)),
        frames_count(old(frames)@) == i as int,
        frames_pairs(old(frames)@) == entry_pairs(entries@.take(i as int)),
        frames_chain(old(frames)@) == open_chain(entries@, i as int),
        old(frames)@[0].name@ == entries@[0].name@,
        warn_views(old(warnings)@) == warn_list(entries@.take(i as int)),
    ensures
        final(frames)@.len() >= 1,
        final(frames)@.len() == open_count(entries@[i as int]),
        frames_ok(final(frames)@),
        frames_size(final(frames)@) == leaf_total(entries@.take(i + 1)),
        frames_count(final(frames)@) == i + 1,
        frames_pairs(final(frames)@) == entry_pairs(entries@.take(i + 1)),
        frames_chain(final(frames)@) == open_chain(entries@, i + 1),
        final(frames)@[0].name@ == entries@[0].name@,
        warn_views(final(warnings)@) == warn_list(entries@.take(i + 1)),
{
    let e = &entries[i];
    let d = e.depth;
    proof {
        assert(1 <= d);
        assert(d <= entries@[i - 1].depth + 1);
        if entries@[i as int].depth == entries@[i - 1].depth + 1 {
            assert(entries@[i - 1].kind is Directory);
        }
        assert(frames@.len() >= d);
        lemma_frames_chain(frames@);
        assert(open_chain(entries@, i as int).take(frames@.len() as int) =~= open_chain(
            entries@,
            i as int,
        ));
    }
    while frames.len() > d
        invariant
            frames@.len() >= d,
            frames_ok(frames@),
            frames_size(frames@) == leaf_total(entries@.take(i as int)),
            frames_count(frames@) == i as int,
            frames_pairs(frames@) == entry_pairs(entries@.take(i as int)),
            frames@.len() as int <= open_chain(entries@, i as int).len(),
            frames_chain(frames@) == open_chain(entries@, i as int).take(frames@.len() as int),
            frames@[0].name@ == entries@[0].name@,
        decreases frames@.len(),
    {
        proof {
            lemma_leaf_total_prefix(entries@, i as int);
        }
        close_top(frames);
        proof {
            assert(frames_chain(frames@) =~= open_chain(entries@, i as int).take(
                frames@.len() as int,
            ));
        }
    }
    let ghost w0 = warnings@;
    match e.info {
        Err(k) => warnings.push(Warning { path: e.path.clone(), reason: k }),
        Ok(_) => {},
    }
    proof {
        assert(entries@.take(i + 1).drop_last() =~= entries@.take(i as int));
        assert(entries@.take(i + 1).last() == entries@[i as int]);
        assert(entries@.take(i + 1)[i as int] == entries@[i as int]);
        match entries@[i as int].info {
            Result::Err(k) => {
                assert(warn_views(warnings@) =~= warn_views(w0) + seq![
                    (entries@[i as int].path@, k),
                ]);
            },
            Result::Ok(_) => {
                assert(warn_list(entries@.take(i + 1)) =~= warn_list(entries@.take(i as int)));
            },
        }
        assert(warn_views(warnings@) == warn_list(entries@.take(i + 1)));
        lemma_open_chain_prefix(entries@, i + 1, i as int);
        assert(entry_chain(entries@.take(i + 1), i as int) == entry_chain(entries@, i as int));
        assert(entry_item(entries@.take(i + 1), i as int) == entry_item(entries@, i as int));
        assert(entry_pairs(entries@.take(i + 1)) == entry_pairs(entries@.take(i as int)).insert(
            entry_item(entries@, i as int),
        ));
    }
    match e.kind {
        NodeKind::Directory => open_dir_frame(frames, entries, i),
        _ => append_leaf(frames, entries, i),
    }
}

/// Opens a frame for a directory entry whose deeper siblings' frames have
/// already closed.
#[verifier::loop_isolation(false)]
#[verifier::rlimit(100)]
fn open_dir_frame(frames: &mut Vec<Frame>, entries: &Vec<Entry>, i: usize)
    requires
        entries_wf(entries@),
        1 <= i < entries@.len(),
        entries@[i as int].kind is Directory,
        1 <= entries@[i as int].depth,
        old(frames)@.len() == entries@[i as int].depth as int,
        frames_ok(old(frames)@),
        frames_size(old(frames)@) == leaf_total(entries@.take(i as int)),
        frames_count(old(frames)@) == i as int,
        frames_pairs(old(frames)@) == entry_pairs(entries@.take(i as int)),
        frames_chain(old(frames)@) == open_chain(entries@, i as int).take(
            entries@[i as int].depth as int,
        ),
        old(frames)@[0].name@ == entries@[0].name@,
    ensures
        final(frames)@.len() == open_count(entries@[i as int]),
        frames_ok(final(frames)@),
        frames_size(final(frames)@) == leaf_total(entries@.take(i + 1)),
        frames_count(final(frames)@) == i + 1,
        frames_pairs(final(frames)@) == entry_pairs(entries@.take(i + 1)),
        frames_chain(final(frames)@) == open_chain(entries@, i + 1),
        final(frames)@[0].name@ == entries@[0].name@,
{
    let ghost fs1 = frames@;
    let e = &entries[i];
    frames.push(Frame { name: e.name.clone(), children: Vec::new(), size: 0 });
    proof {
        assert(entries@.take(i + 1).drop_last() =~= entries@.take(i as int));
        assert(entries@.take(i + 1).last() == entries@[i as int]);
        assert(entries@.take(i + 1)[i as int] == entries@[i as int]);
        lemma_open_chain_prefix(entries@, i + 1, i as int);
        assert(entry_chain(entries@.take(i + 1), i as int) == entry_chain(entries@, i as int));
        assert(entry_item(entries@.take(i + 1), i as int) == entry_item(entries@, i as int));
        assert(entry_pairs(entries@.take(i + 1)) == entry_pairs(entries@.take(i as int)).insert(
            entry_item(entries@, i as int),
        ));
        assert(views_of(Seq::<FileNode>::empty()) =~= Seq::<NodeV>::empty());
        assert(frames@.drop_last() =~= fs1);
        assert(leaf_size(entries@[i as int]) == 0);
        assert(frames@[0] == fs1[0]);
        assert(frames_chain(frames@) == frames_chain(fs1).push(entries@[i as int].name@));
        assert(open_chain(entries@, i + 1) == open_chain(entries@, i as int).take(
            entries@[i as int].depth as int,
        ).push(entries@[i as int].name@));
        assert(frames_chain(frames@) == open_chain(entries@, i + 1));
        assert(pairs_sum(Seq::<NodeV>::empty(), frames_chain(frames@)) == Multiset::<(
            Seq<Seq<char>>,
            NodeKind,
            int,
        )>::empty());
        assert(frames_pairs(frames@) == frames_pairs(fs1).insert(
            (frames_chain(frames@), NodeKind::Directory, 0int),
        ).add(pairs_sum(views_of(frames@.last().children@), frames_chain(frames@))));
        assert(entry_chain(entries@, i as int) == frames_chain(fs1).push(
            entries@[i as int].name@,
        ));
        assert(entry_item(entries@, i as int) == (
            frames_chain(frames@),
            NodeKind::Directory,
            0int,
        ));
        assert(frames_pairs(frames@) =~= entry_pairs(entries@.take(i + 1)));
    }
}

/// Adds a finished leaf for a non-directory entry to the frame it belongs
/// to, once every deeper frame has closed.
#[verifier::loop_isolation(false)]
#[verifier::rlimit(100)]
fn append_leaf(frames: &mut Vec<Frame>, entries: &Vec<Entry>, i: usize)
    requires
        entries_wf(entries@),
        leaf_total(entries@) <= u64::MAX,
        1 <= i < entries@.len(),
        !(entries@[i as int].kind is Directory),
        1 <= entries@[i as int].depth,
        old(frames)@.len() == entries@[i as int].depth as int,
        frames_ok(old(frames)@),
        frames_size(old(frames)@) == leaf_total(entries@.take(i as int)),
        frames_count(old(frames)@) == i as int,
        frames_pairs(old(frames)@) == entry_pairs(entries@.take(i as int)),
        frames_chain(old(frames)@) == open_chain(entries@, i as int).take(
            entries@[i as int].depth as int,
        ),
        old(frames)@[0].name@ == entries@[0].name@,
    ensures
        final(frames)@.len() == open_count(entries@[i as int]),
        frames_ok(final(frames)@),
        frames_size(final(frames)@) == leaf_total(entries@.take(i + 1)),
        frames_count(final(frames)@) == i + 1,
        frames_pairs(final(frames)@) == entry_pairs(entries@.take(i + 1)),
        frames_chain(final(frames)@) == open_chain(entries@, i + 1),
        final(frames)@[0].name@ == entries@[0].name@,
{
    let ghost fs1 = frames@;
    let e = &entries[i];
    let sz = match e.info {
        Ok(v) => v,
        Err(_) => 0,
    };
    let leaf = FileNode { name: e.name.clone(), kind: e.kind, size: sz, children: None };
    proof {
        assert(entries@.take(i + 1).drop_last() =~= entries@.take(i as int));
        assert(entries@.take(i + 1).last() == entries@[i as int]);
        assert(entries@.take(i + 1)[i as int] == entries@[i as int]);
        lemma_open_chain_prefix(entries@, i + 1, i as int);
        assert(entry_chain(entries@.take(i + 1), i as int) == entry_chain(entries@, i as int));
        assert(entry_item(entries@.take(i + 1), i as int) == entry_item(entries@, i as int));
        assert(entry_pairs(entries@.take(i + 1)) == entry_pairs(entries@.take(i as int)).insert(
            entry_item(entries@, i as int),
        ));
        assert(node_wf(leaf@));
        assert(node_count(leaf@) == 1);
        assert(sz as int == leaf_size(entries@[i as int]));
        lemma_frames_size_nonneg(fs1.drop_last());
        lemma_leaf_total_prefix(entries@, i + 1);
        assert(frame_ok(fs1[fs1.len() - 1]));
        assert(fs1.last() == fs1[fs1.len() - 1]);
    }
    let mut top = frames.pop().unwrap();
    insert_child(&mut top, leaf);
    frames.push(top);
    proof {
        assert(frames@.drop_last() =~= fs1.drop_last());
        assert forall|j: int| 0 <= j < frames@.len() implies frame_ok(#[trigger] frames@[j]) by {
            if j < frames@.len() - 1 {
                assert(frames@[j] == fs1[j]);
            }
        }
        if frames@.len() == 1 {
        } else {
            assert(frames@[0] == fs1[0]);
        }
        lemma_frames_chain(frames@);
        lemma_frames_chain(fs1);
        assert forall|j: int| 0 <= j < frames@.len() implies #[trigger] frames_chain(frames@)[j]
            == frames_chain(fs1)[j] by {
            if j < frames@.len() - 1 {
                assert(frames@[j] == fs1[j]);
            }
        }
        assert(frames_chain(frames@) =~= frames_chain(fs1));
        assert(open_chain(entries@, i + 1) == open_chain(entries@, i as int).take(
            entries@[i as int].depth as int,
        ));
        assert(frames_chain(frames@) == open_chain(entries@, i + 1));
        assert(frames_pairs(fs1) == frames_pairs(fs1.drop_last()).insert(
            (frames_chain(fs1), NodeKind::Directory, 0int),
        ).add(pairs_sum(views_of(fs1.last().children@), frames_chain(fs1))));
        assert(frames_pairs(frames@) == frames_pairs(frames@.drop_last()).insert(
            (frames_chain(frames@), NodeKind::Directory, 0int),
        ).add(pairs_sum(views_of(frames@.last().children@), frames_chain(frames@))));
        assert(pairs_sum(views_of(frames@.last().children@), frames_chain(frames@)) == pairs_sum(
            views_of(fs1.last().children@),
            frames_chain(frames@),
        ).add(node_pairs(leaf@, frames_chain(frames@))));
        assert(node_pairs(leaf@, frames_chain(frames@)) == Multiset::singleton(
            (
                frames_chain(frames@).push(entries@[i as int].name@),
                entries@[i as int].kind,
                leaf_size(entries@[i as int]),
            ),
        ).add(Multiset::<(Seq<Seq<char>>, NodeKind, int)>::empty()));
        assert(entry_chain(entries@, i as int) == frames_chain(frames@).push(
            entries@[i as int].name@,
        ));
        assert(entry_item(entries@, i as int) == (
            entry_chain(entries@, i as int),
            entries@[i as int].kind,
            leaf_size(entries@[i as int]),
        ));
        assert(frames_pairs(frames@) =~= entry_pairs(entries@.take(i + 1)));
    }
}

} // verus!
