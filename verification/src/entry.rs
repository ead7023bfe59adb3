//! The walker's product: a finite depth-first sequence of entries, each with
//! its place in the hierarchy and either its metadata or the recoverable
//! failure met while reading it.

use vstd::prelude::*;
use vstd::multiset::Multiset;
use crate::node::{ErrorKind, NodeKind};

verus! {

/// One element of the depth-first entry sequence.
pub struct Entry {
    /// Path relative to the scan root; warnings refer to it.
    pub path: String,
    /// Base name of the entry.
    pub name: String,
    /// Depth below the root; the root itself is at depth zero.
    pub depth: usize,
    pub kind: NodeKind,
    /// The reported byte length, or the recoverable failure for this entry.
    pub info: Result<u64, ErrorKind>,
}

/// A recoverable per-entry failure: the path it concerns and the reason.
/// Warnings accumulate in walk order and never abort the scan.
pub struct Warning {
    pub path: String,
    pub reason: ErrorKind,
}

/// A well-formed depth-first sequence: it opens with the root directory at
/// depth zero, depth never jumps by more than one step down, and a step down
/// only follows a directory. Names are non-empty base names.
pub open spec fn entries_wf(s: Seq<Entry>) -> bool {
    &&& s.len() >= 1
    &&& s[0].depth == 0
    &&& s[0].kind is Directory
    &&& forall|i: int| 0 <= i < s.len() ==> (#[trigger] s[i]).name@.len() > 0
    &&& forall|i: int| 1 <= i < s.len() ==> 1 <= (#[trigger] s[i]).depth <= s[i - 1].depth + 1
    &&& forall|i: int|
        1 <= i < s.len() && (#[trigger] s[i]).depth == s[i - 1].depth + 1 ==> s[i - 1].kind is Directory
}

/// What one entry contributes to its ancestors' sizes: its reported length
/// for a readable non-directory, and zero otherwise — a directory's size
/// comes from its descendants, and a failed entry becomes a zero-size node.
pub open spec fn leaf_size(e: Entry) -> int {
    if e.kind is Directory {
        0
    } else {
        match e.info {
            Result::Ok(sz) => sz as int,
            Result::Err(_) => 0,
        }
    }
}

/// The total leaf contribution of an entry sequence.
pub open spec fn leaf_total(s: Seq<Entry>) -> int
    decreases s.len(),
{
    if s.len() == 0 {
        0
    } else {
        leaf_total(s.drop_last()) + leaf_size(s.last())
    }
}

/// The warnings an entry sequence gives rise to, in walk order: one
/// `(path, reason)` pair for each failed entry.
pub open spec fn warn_list(s: Seq<Entry>) -> Seq<(Seq<char>, ErrorKind)>
    decreases s.len(),
{
    if s.len() == 0 {
        Seq::empty()
    } else {
        warn_list(s.drop_last()) + match s.last().info {
            Result::Ok(_) => Seq::empty(),
            Result::Err(k) => seq![(s.last().path@, k)],
        }
    }
}

/// The abstract content of a warning list.
pub open spec fn warn_views(w: Seq<Warning>) -> Seq<(Seq<char>, ErrorKind)> {
    Seq::new(w.len(), |i: int| (w[i].path@, w[i].reason))
}

/// The names of the directories left open after the first `i` entries of a
/// walk, outermost first: an entry at depth `d` closes everything deeper
/// than its parent, and a directory entry then opens itself.
pub open spec fn open_chain(s: Seq<Entry>, i: int) -> Seq<Seq<char>>
    decreases i,
{
    if i <= 0 {
        Seq::empty()
    } else {
        let base = open_chain(s, i - 1).take(s[i - 1].depth as int);
        if s[i - 1].kind is Directory {
            base.push(s[i - 1].name@)
        } else {
            base
        }
    }
}

/// The names on the path from the root down to entry `j`, the entry's own
/// name last: its ancestors are the directories still open when it arrives.
pub open spec fn entry_chain(s: Seq<Entry>, j: int) -> Seq<Seq<char>> {
    open_chain(s, j).take(s[j].depth as int).push(s[j].name@)
}

/// What one entry must become in the finished tree: a node whose path of
/// names from the root is the entry's chain, whose kind is the entry's kind,
/// and — for a non-directory — whose size is the entry's leaf contribution.
pub open spec fn entry_item(s: Seq<Entry>, j: int) -> (Seq<Seq<char>>, NodeKind, int) {
    (entry_chain(s, j), s[j].kind, leaf_size(s[j]))
}

/// Every entry's `(path of names, kind, leaf size)` triple, as a multiset.
pub open spec fn entry_pairs(s: Seq<Entry>) -> Multiset<(Seq<Seq<char>>, NodeKind, int)>
    decreases s.len(),
{
    if s.len() == 0 {
        Multiset::empty()
    } else {
        entry_pairs(s.drop_last()).insert(entry_item(s, s.len() - 1))
    }
}

/// The open chain after `i` entries reads nothing past them, so any longer
/// prefix of the walk agrees on it.
pub proof fn lemma_open_chain_prefix(s: Seq<Entry>, m: int, i: int)
    requires
        0 <= i <= m <= s.len(),
    ensures
        open_chain(s.take(m), i) == open_chain(s, i),
    decreases i,
{
    if i > 0 {
        lemma_open_chain_prefix(s, m, i - 1);
        assert(s.take(m)[i - 1] == s[i - 1]);
    }
}

/// A leaf contribution is never negative.
pub proof fn lemma_leaf_total_nonneg(s: Seq<Entry>)
    ensures
        leaf_total(s) >= 0,
    decreases s.len(),
{
    if s.len() > 0 {
        lemma_leaf_total_nonneg(s.drop_last());
    }
}

/// The leaf total of a prefix never exceeds the leaf total of the whole.
pub proof fn lemma_leaf_total_prefix(s: Seq<Entry>, i: int)
    requires
        0 <= i <= s.len(),
    ensures
        leaf_total(s.take(i)) <= leaf_total(s),
    decreases s.len() - i,
{
    if i == s.len() {
        assert(s.take(i) =~= s);
    } else {
        assert(s.take(i + 1).drop_last() =~= s.take(i));
        assert(s.take(i + 1).last() == s[i]);
        lemma_leaf_total_prefix(s, i + 1);
    }
}

/// The conditions `entries_wf` puts on one position: a non-empty name, and —
/// past the root — a depth that steps down by at most one, stepping down
/// only from a directory.
pub open spec fn entry_step_ok(s: Seq<Entry>, j: int) -> bool {
    &&& s[j].name@.len() > 0
    &&& j >= 1 ==> {
        &&& 1 <= s[j].depth <= s[j - 1].depth + 1
        &&& s[j].depth == s[j - 1].depth + 1 ==> s[j - 1].kind is Directory
    }
}

/// A sequence is well formed exactly when its head is a root directory and
/// every position passes its step condition.
pub proof fn lemma_entries_wf_by_steps(s: Seq<Entry>)
    requires
        s.len() >= 1,
        s[0].depth == 0,
        s[0].kind is Directory,
        forall|j: int| 0 <= j < s.len() ==> #[trigger] entry_step_ok(s, j),
    ensures
        entries_wf(s),
{
    assert forall|j: int| 0 <= j < s.len() implies (#[trigger] s[j]).name@.len() > 0 by {
        assert(entry_step_ok(s, j));
    }
    assert forall|j: int| 1 <= j < s.len() implies 1 <= (#[trigger] s[j]).depth <= s[j
        - 1].depth + 1 by {
        assert(entry_step_ok(s, j));
    }
    assert forall|j: int|
        1 <= j < s.len() && (#[trigger] s[j]).depth == s[j - 1].depth + 1 implies s[j
        - 1].kind is Directory by {
        assert(entry_step_ok(s, j));
    }
}

/// Checks that a sequence is a well-formed depth-first walk.
#[verifier::loop_isolation(false)]
#[verifier::rlimit(100)]
pub fn entries_shape_ok(entries: &Vec<Entry>) -> (r: bool)
    ensures
        r == entries_wf(entries@),
{
    if entries.len() == 0 {
        return false;
    }
    {
        let first = &entries[0];
        if first.depth != 0 {
            return false;
        }
        match first.kind {
            NodeKind::Directory => {},
            _ => {
                return false;
            },
        }
    }
    let mut i: usize = 0;
    while i < entries.len()
        invariant
            0 <= i <= entries@.len(),
            forall|j: int| 0 <= j < i ==> #[trigger] entry_step_ok(entries@, j),
        decreases entries@.len() - i,
    {
        let e = &entries[i];
        if e.name.as_str().is_empty() {
            proof {
                assert(entries@[i as int].name@.len() == 0);
                assert(!entry_step_ok(entries@, i as int));
            }
            return false;
        }
        if i >= 1 {
            let prev = &entries[i - 1];
            if e.depth < 1 {
                proof {
                    assert(!entry_step_ok(entries@, i as int));
                }
                return false;
            }
            if e.depth > prev.depth {
                if e.depth - prev.depth != 1 {
                    proof {
                        assert(!(entries@[i as int].depth <= entries@[i - 1].depth + 1));
                        assert(!entry_step_ok(entries@, i as int));
                    }
                    return false;
                }
                let is_dir = match prev.kind {
                    NodeKind::Directory => true,
                    _ => false,
                };
                if !is_dir {
                    proof {
                        assert(!entry_step_ok(entries@, i as int));
                    }
                    return false;
                }
            }
        }
        proof {
            assert(entry_step_ok(entries@, i as int));
        }
        i = i + 1;
    }
    proof {
        lemma_entries_wf_by_steps(entries@);
    }
    true
}

/// Checks that the walk's total leaf size fits in a byte count.
#[verifier::loop_isolation(false)]
#[verifier::rlimit(100)]
pub fn leaf_total_fits(entries: &Vec<Entry>) -> (r: bool)
    ensures
        r == (leaf_total(entries@) <= u64::MAX),
{
    let mut total: u64 = 0;
    let mut i: usize = 0;
    while i < entries.len()
        invariant
            0 <= i <= entries@.len(),
            total as int == leaf_total(entries@.take(i as int)),
        decreases entries@.len() - i,
    {
        let e = &entries[i];
        let contribution: u64 = match e.kind {
            NodeKind::Directory => 0,
            _ => match e.info {
                Ok(sz) => sz,
                Err(_) => 0,
            },
        };
        proof {
            assert(entries@.take(i + 1).drop_last() =~= entries@.take(i as int));
            assert(entries@.take(i + 1).last() == entries@[i as int]);
            assert(contribution as int == leaf_size(entries@[i as int]));
        }
        if contribution > u64::MAX - total {
            proof {
                lemma_leaf_total_prefix(entries@, i + 1);
            }
            return false;
        }
        total = total + contribution;
        i = i + 1;
    }
    proof {
        assert(entries@.take(i as int) =~= entries@);
    }
    true
}

/// Checks the tree builder's whole precondition at run time: the sequence is
/// a well-formed walk and its total leaf size fits in a byte count.
pub fn entries_ok(entries: &Vec<Entry>) -> (r: bool)
    ensures
        r == (entries_wf(entries@) && leaf_total(entries@) <= u64::MAX),
{
    if entries_shape_ok(entries) {
        leaf_total_fits(entries)
    } else {
        false
    }
}

} // verus!
