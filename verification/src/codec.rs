//! The result codec: turns a finished tree and its warnings into a
//! structured document — names, kinds and reasons as text, child order kept —
//! and back. Deserializing a serialized result restores it exactly.

use vstd::prelude::*;
use crate::entry::Warning;
use crate::node::{node_view, views_of, ErrorKind, FileNode, NodeKind, NodeV};

verus! {

broadcast use vstd::std_specs::vec::group_vec_axioms;

/// One node of the document: the kind spelled out as text.
pub struct DocNode {
    pub name: String,
    pub kind: String,
    pub size: u64,
    pub children: Option<Vec<DocNode>>,
}

/// One warning of the document: the reason spelled out as text.
pub struct DocWarning {
    pub path: String,
    pub reason: String,
}

/// The transmissible form of a finished scan: the tree and, beside it, the
/// warnings gathered along the walk.
pub struct ScanDocument {
    pub root: DocNode,
    pub warnings: Vec<DocWarning>,
}

/// The mathematical shape of a document node.
pub struct DocV {
    pub name: Seq<char>,
    pub kind: Seq<char>,
    pub size: u64,
    pub children: Option<Seq<DocV>>,
}

/// The shape of a document node, children recursively.
pub open spec fn doc_view(d: DocNode) -> DocV
    decreases d,
{
    DocV {
        name: d.name@,
        kind: d.kind@,
        size: d.size,
        children: match d.children {
            Option::None => Option::None,
            Option::Some(v) => Option::Some(doc_views_of(v@)),
        },
    }
}

/// The shapes of a sequence of document nodes, elementwise.
pub open spec fn doc_views_of(s: Seq<DocNode>) -> Seq<DocV>
    decreases s,
{
    if s.len() == 0 {
        Seq::empty()
    } else {
        seq![doc_view(s[0])] + doc_views_of(s.skip(1))
    }
}

impl View for DocNode {
    type V = DocV;

    open spec fn view(&self) -> DocV {
        doc_view(*self)
    }
}

/// `doc_views_of` keeps the length and works elementwise.
pub proof fn lemma_doc_views_of(s: Seq<DocNode>)
    ensures
        doc_views_of(s).len() == s.len(),
        forall|i: int| 0 <= i < s.len() ==> #[trigger] doc_views_of(s)[i] == doc_view(s[i]),
    decreases s,
{
    if s.len() > 0 {
        lemma_doc_views_of(s.skip(1));
    }
}

/// The text of each kind.
pub open spec fn kind_text(k: NodeKind) -> Seq<char> {
    match k {
        NodeKind::File => "file"@,
        NodeKind::Directory => "directory"@,
        NodeKind::Symlink => "symlink"@,
        NodeKind::Other => "other"@,
    }
}

/// The kind a text names, if any.
pub open spec fn kind_of_text(s: Seq<char>) -> Option<NodeKind> {
    if s == "file"@ {
        Option::Some(NodeKind::File)
    } else if s == "directory"@ {
        Option::Some(NodeKind::Directory)
    } else if s == "symlink"@ {
        Option::Some(NodeKind::Symlink)
    } else if s == "other"@ {
        Option::Some(NodeKind::Other)
    } else {
        Option::None
    }
}

/// Reading a kind's text back yields the kind: the four texts are distinct.
pub proof fn lemma_kind_text_round(k: NodeKind)
    ensures
        kind_of_text(kind_text(k)) == Option::Some(k),
{
    reveal_strlit("file");
    reveal_strlit("directory");
    reveal_strlit("symlink");
    reveal_strlit("other");
    match k {
        NodeKind::File => {
            assert(kind_text(k).len() == 4);
        },
        NodeKind::Directory => {
            assert(kind_text(k).len() == 9);
        },
        NodeKind::Symlink => {
            assert(kind_text(k).len() == 7);
        },
        NodeKind::Other => {
            assert(kind_text(k).len() == 5);
        },
    }
}

/// The text of each warning reason.
pub open spec fn reason_text(k: ErrorKind) -> Seq<char> {
    match k {
        ErrorKind::InvalidRoot => "invalid root"@,
        ErrorKind::PermissionDenied => "permission denied"@,
        ErrorKind::CycleDetected => "cycle detected"@,
        ErrorKind::TimedOut => "timeout"@,
        ErrorKind::Cancelled => "cancelled"@,
        ErrorKind::IoError => "io error"@,
        ErrorKind::DepthTruncated => "depth truncated"@,
    }
}

/// The reason a text names, if any.
pub open spec fn reason_of_text(s: Seq<char>) -> Option<ErrorKind> {
    if s == "invalid root"@ {
        Option::Some(ErrorKind::InvalidRoot)
    } else if s == "permission denied"@ {
        Option::Some(ErrorKind::PermissionDenied)
    } else if s == "cycle detected"@ {
        Option::Some(ErrorKind::CycleDetected)
    } else if s == "timeout"@ {
        Option::Some(ErrorKind::TimedOut)
    } else if s == "cancelled"@ {
        Option::Some(ErrorKind::Cancelled)
    } else if s == "io error"@ {
        Option::Some(ErrorKind::IoError)
    } else if s == "depth truncated"@ {
        Option::Some(ErrorKind::DepthTruncated)
    } else {
        Option::None
    }
}

/// Reading a reason's text back yields the reason: the seven texts are
/// distinct.
pub proof fn lemma_reason_text_round(k: ErrorKind)
    ensures
        reason_of_text(reason_text(k)) == Option::Some(k),
{
    reveal_strlit("invalid root");
    reveal_strlit("permission denied");
    reveal_strlit("cycle detected");
    reveal_strlit("timeout");
    reveal_strlit("cancelled");
    reveal_strlit("io error");
    reveal_strlit("depth truncated");
    match k {
        ErrorKind::InvalidRoot => {
            assert(reason_text(k).len() == 12);
        },
        ErrorKind::PermissionDenied => {
            assert(reason_text(k).len() == 17);
        },
        ErrorKind::CycleDetected => {
            assert(reason_text(k).len() == 14);
        },
        ErrorKind::TimedOut => {
            assert(reason_text(k).len() == 7);
        },
        ErrorKind::Cancelled => {
            assert(reason_text(k).len() == 9);
        },
        ErrorKind::IoError => {
            assert(reason_text(k).len() == 8);
        },
        ErrorKind::DepthTruncated => {
            assert(reason_text(k).len() == 15);
        },
    }
}

/// What serializing a tree produces: every field carried over, the kind as
/// its text, children in order.
pub open spec fn spec_ser(n: NodeV) -> DocV
    decreases n,
{
    DocV {
        name: n.name,
        kind: kind_text(n.kind),
        size: n.size,
        children: match n.children {
            Option::None => Option::None,
            Option::Some(cs) => Option::Some(spec_ser_seq(cs)),
        },
    }
}

/// Serialization of a child sequence, in order.
pub open spec fn spec_ser_seq(s: Seq<NodeV>) -> Seq<DocV>
    decreases s,
{
    if s.len() == 0 {
        Seq::empty()
    } else {
        seq![spec_ser(s[0])] + spec_ser_seq(s.skip(1))
    }
}

/// What deserializing a document yields: the tree it denotes, or nothing
/// when a kind text is not one of the four.
pub open spec fn spec_deser(d: DocV) -> Option<NodeV>
    decreases d,
{
    match kind_of_text(d.kind) {
        Option::None => Option::None,
        Option::Some(k) => match d.children {
            Option::None => Option::Some(
                NodeV { name: d.name, kind: k, size: d.size, children: Option::None },
            ),
            Option::Some(cs) => match spec_deser_seq(cs) {
                Option::None => Option::None,
                Option::Some(ns) => Option::Some(
                    NodeV { name: d.name, kind: k, size: d.size, children: Option::Some(ns) },
                ),
            },
        },
    }
}

/// Deserialization of a child sequence: all or nothing.
pub open spec fn spec_deser_seq(s: Seq<DocV>) -> Option<Seq<NodeV>>
    decreases s,
{
    if s.len() == 0 {
        Option::Some(Seq::empty())
    } else {
        match spec_deser(s[0]) {
            Option::None => Option::None,
            Option::Some(n) => match spec_deser_seq(s.skip(1)) {
                Option::None => Option::None,
                Option::Some(ns) => Option::Some(seq![n] + ns),
            },
        }
    }
}

/// The round-trip law: deserializing a serialized tree restores it exactly —
/// every tree shape, zero-child directories included.
pub proof fn lemma_round_trip(n: NodeV)
    ensures
        spec_deser(spec_ser(n)) == Option::Some(n),
    decreases n,
{
    lemma_kind_text_round(n.kind);
    match n.children {
        Option::None => {},
        Option::Some(cs) => {
            lemma_round_trip_seq(cs);
        },
    }
}

/// The round-trip law for a child sequence.
pub proof fn lemma_round_trip_seq(s: Seq<NodeV>)
    ensures
        spec_deser_seq(spec_ser_seq(s)) == Option::Some(s),
    decreases s,
{
    if s.len() == 0 {
    } else {
        lemma_round_trip(s[0]);
        lemma_round_trip_seq(s.skip(1));
        assert(spec_ser_seq(s)[0] == spec_ser(s[0]));
        assert(spec_ser_seq(s).skip(1) =~= spec_ser_seq(s.skip(1)));
        assert(seq![s[0]] + s.skip(1) =~= s);
    }
}

/// The text of a kind, as an owned string.
pub fn kind_to_text(k: NodeKind) -> (s: String)
    ensures
        s@ == kind_text(k),
{
    match k {
        NodeKind::File => "file".to_owned(),
        NodeKind::Directory => "directory".to_owned(),
        NodeKind::Symlink => "symlink".to_owned(),
        NodeKind::Other => "other".to_owned(),
    }
}

/// Reads a kind back from its text.
pub fn parse_kind(s: &String) -> (r: Option<NodeKind>)
    ensures
        r == kind_of_text(s@),
{
    if *s == "file".to_owned() {
        Some(NodeKind::File)
    } else if *s == "directory".to_owned() {
        Some(NodeKind::Directory)
    } else if *s == "symlink".to_owned() {
        Some(NodeKind::Symlink)
    } else if *s == "other".to_owned() {
        Some(NodeKind::Other)
    } else {
        None
    }
}

/// The text of a warning reason, as an owned string.
pub fn reason_to_text(k: ErrorKind) -> (s: String)
    ensures
        s@ == reason_text(k),
{
    match k {
        ErrorKind::InvalidRoot => "invalid root".to_owned(),
        ErrorKind::PermissionDenied => "permission denied".to_owned(),
        ErrorKind::CycleDetected => "cycle detected".to_owned(),
        ErrorKind::TimedOut => "timeout".to_owned(),
        ErrorKind::Cancelled => "cancelled".to_owned(),
        ErrorKind::IoError => "io error".to_owned(),
        ErrorKind::DepthTruncated => "depth truncated".to_owned(),
    }
}

/// Reads a warning reason back from its text.
pub fn parse_reason(s: &String) -> (r: Option<ErrorKind>)
    ensures
        r == reason_of_text(s@),
{
    if *s == "invalid root".to_owned() {
        Some(ErrorKind::InvalidRoot)
    } else if *s == "permission denied".to_owned() {
        Some(ErrorKind::PermissionDenied)
    } else if *s == "cycle detected".to_owned() {
        Some(ErrorKind::CycleDetected)
    } else if *s == "timeout".to_owned() {
        Some(ErrorKind::TimedOut)
    } else if *s == "cancelled".to_owned() {
        Some(ErrorKind::Cancelled)
    } else if *s == "io error".to_owned() {
        Some(ErrorKind::IoError)
    } else if *s == "depth truncated".to_owned() {
        Some(ErrorKind::DepthTruncated)
    } else {
        None
    }
}

/// Serializes one tree into its document form.
#[verifier::loop_isolation(false)]
pub fn serialize_node(n: FileNode) -> (d: DocNode)
    ensures
        d@ == spec_ser(n@),
    decreases n,
{
    let ghost n0 = n;
    let FileNode { name, kind, size, children } = n;
    let doc_children: Option<Vec<DocNode>> = match children {
        None => None,
        Some(cs) => {
            let ghost cs0 = cs@;
            proof {
                assert(n0.children->Some_0@ == cs0);
            }
            let mut cs = cs;
            let mut out: Vec<DocNode> = Vec::new();
            proof {
                assert(cs@ =~= cs0.take(cs@.len() as int));
                assert(cs0.skip(cs@.len() as int) =~= Seq::<FileNode>::empty());
                assert(views_of(Seq::<FileNode>::empty()) =~= Seq::<NodeV>::empty());
                assert(doc_views_of(out@) =~= spec_ser_seq(views_of(cs0.skip(cs@.len() as int))));
            }
            while cs.len() > 0
                invariant
                    cs@.len() <= cs0.len(),
                    cs@ == cs0.take(cs@.len() as int),
                    doc_views_of(out@) == spec_ser_seq(views_of(cs0.skip(cs@.len() as int))),
                decreases cs@.len(),
            {
                let ghost j = cs@.len() - 1;
                let ghost out0 = out@;
                let x = cs.pop().unwrap();
                proof {
                    assert(x == cs0[j]);
                    assert(decreases_to!(n0 => n0.children));
                    assert(decreases_to!(n0.children => n0.children->Some_0));
                    assert(decreases_to!(n0 => n0.children->Some_0));
                    assert(decreases_to!(n0.children->Some_0 => n0.children->Some_0@));
                    assert(decreases_to!(n0.children->Some_0@ => n0.children->Some_0@[j]));
                    assert(x == n0.children->Some_0@[j]);
                }
                let d = serialize_node(x);
                out.insert(0, d);
                proof {
                    assert(cs@ =~= cs0.take(cs@.len() as int));
                    assert(out@ =~= seq![d] + out0);
                    let suffix = cs0.skip(j);
                    assert(suffix.len() == cs0.len() - j > 0);
                    assert(suffix[0] == cs0[j]);
                    assert(suffix.skip(1) =~= cs0.skip(j + 1));
                    crate::node::lemma_views_of(suffix);
                    assert(views_of(suffix)[0] == node_view(cs0[j]));
                    assert forall|t: int| 0 <= t < views_of(suffix).skip(1).len() implies #[trigger] views_of(
                        suffix,
                    ).skip(1)[t] == views_of(suffix.skip(1))[t] by {
                        crate::node::lemma_views_of(suffix.skip(1));
                        assert(views_of(suffix)[t + 1] == node_view(suffix[t + 1]));
                        assert(views_of(suffix.skip(1))[t] == node_view(suffix.skip(1)[t]));
                    }
                    crate::node::lemma_views_of(suffix.skip(1));
                    assert(views_of(suffix).skip(1) =~= views_of(suffix.skip(1)));
                    assert(views_of(suffix).len() > 0);
                    assert(spec_ser_seq(views_of(suffix)) == seq![spec_ser(views_of(suffix)[0])]
                        + spec_ser_seq(views_of(suffix).skip(1)));
                    assert(doc_views_of(out@) =~= seq![doc_view(out@[0])] + doc_views_of(
                        out@.skip(1),
                    ));
                    assert(out@[0] == d);
                    assert(out@.skip(1) =~= out0);
                    assert(d@ == spec_ser(x@));
                    assert(doc_view(d) == spec_ser(node_view(cs0[j])));
                    assert(doc_views_of(out@) == spec_ser_seq(views_of(cs0.skip(j))));
                }
            }
            proof {
                assert(cs0.skip(0) =~= cs0);
            }
            Some(out)
        },
    };
    let d = DocNode { name, kind: kind_to_text(kind), size, children: doc_children };
    proof {
        assert(d@.kind == kind_text(n0.kind));
    }
    d
}

/// A failed child fails its whole sequence.
proof fn lemma_deser_seq_fail(s: Seq<DocV>, j: int)
    requires
        0 <= j < s.len(),
        spec_deser(s[j]) is None,
    ensures
        spec_deser_seq(s) is None,
    decreases j,
{
    if j == 0 {
        assert(s.len() > 0);
    } else {
        lemma_deser_seq_fail(s.skip(1), j - 1);
        assert(s.skip(1)[j - 1] == s[j]);
    }
}

/// Reads a tree back from its document form: exactly the tree the document
/// denotes, or nothing when a kind text is not one of the four.
#[verifier::loop_isolation(false)]
pub fn deserialize_node(d: DocNode) -> (r: Option<FileNode>)
    ensures
        match r {
            Option::Some(n) => spec_deser(d@) == Option::Some(n@),
            Option::None => spec_deser(d@) is None,
        },
    decreases d,
{
    let ghost d0 = d;
    let DocNode { name, kind, size, children } = d;
    let k = match parse_kind(&kind) {
        Some(k) => k,
        None => {
            return None;
        },
    };
    match children {
        None => Some(FileNode { name, kind: k, size, children: None }),
        Some(cs) => {
            let ghost cs0 = cs@;
            proof {
                assert(d0.children->Some_0@ == cs0);
            }
            let mut cs = cs;
            let mut out: Vec<FileNode> = Vec::new();
            proof {
                assert(cs@ =~= cs0.take(cs@.len() as int));
                assert(cs0.skip(cs@.len() as int) =~= Seq::<DocNode>::empty());
                assert(doc_views_of(Seq::<DocNode>::empty()) =~= Seq::<DocV>::empty());
                assert(views_of(out@) =~= Seq::<NodeV>::empty());
            }
            while cs.len() > 0
                invariant
                    cs@.len() <= cs0.len(),
                    cs@ == cs0.take(cs@.len() as int),
                    spec_deser_seq(doc_views_of(cs0.skip(cs@.len() as int))) == Option::Some(
                        views_of(out@),
                    ),
                decreases cs@.len(),
            {
                let ghost j = cs@.len() - 1;
                let ghost out0 = out@;
                let x = cs.pop().unwrap();
                proof {
                    assert(x == cs0[j]);
                    assert(decreases_to!(d0 => d0.children));
                    assert(decreases_to!(d0.children => d0.children->Some_0));
                    assert(decreases_to!(d0.children->Some_0 => d0.children->Some_0@));
                    assert(decreases_to!(d0.children->Some_0@ => d0.children->Some_0@[j]));
                    assert(x == d0.children->Some_0@[j]);
                }
                let n = match deserialize_node(x) {
                    Some(n) => n,
                    None => {
                        proof {
                            lemma_doc_views_of(cs0);
                            assert(doc_views_of(cs0)[j] == doc_view(cs0[j]));
                            lemma_deser_seq_fail(doc_views_of(cs0), j);
                            assert(d0@.children == Option::Some(doc_views_of(cs0)));
                        }
                        return None;
                    },
                };
                out.insert(0, n);
                proof {
                    assert(cs@ =~= cs0.take(cs@.len() as int));
                    assert(out@ =~= seq![n] + out0);
                    let suffix = cs0.skip(j);
                    assert(suffix.len() == cs0.len() - j > 0);
                    assert(suffix[0] == cs0[j]);
                    assert(suffix.skip(1) =~= cs0.skip(j + 1));
                    lemma_doc_views_of(suffix);
                    assert(doc_views_of(suffix)[0] == doc_view(cs0[j]));
                    assert forall|t: int| 0 <= t < doc_views_of(suffix).skip(1).len() implies #[trigger] doc_views_of(
                        suffix,
                    ).skip(1)[t] == doc_views_of(suffix.skip(1))[t] by {
                        lemma_doc_views_of(suffix.skip(1));
                        assert(doc_views_of(suffix)[t + 1] == doc_view(suffix[t + 1]));
                        assert(doc_views_of(suffix.skip(1))[t] == doc_view(suffix.skip(1)[t]));
                    }
                    lemma_doc_views_of(suffix.skip(1));
                    assert(doc_views_of(suffix).skip(1) =~= doc_views_of(suffix.skip(1)));
                    assert(doc_views_of(suffix).len() > 0);
                    crate::node::lemma_views_of(out@);
                    crate::node::lemma_views_of(out0);
                    assert forall|t: int| 0 <= t < views_of(out@).len() implies #[trigger] views_of(
                        out@,
                    )[t] == (seq![n@] + views_of(out0))[t] by {
                        if t == 0 {
                            assert(views_of(out@)[0] == node_view(out@[0]));
                        } else {
                            assert(views_of(out@)[t] == node_view(out@[t]));
                            assert(views_of(out0)[t - 1] == node_view(out0[t - 1]));
                        }
                    }
                    assert(views_of(out@) =~= seq![n@] + views_of(out0));
                    assert(spec_deser(doc_views_of(suffix)[0]) == Option::Some(n@));
                    assert(spec_deser_seq(doc_views_of(suffix)) == Option::Some(views_of(out@)));
                }
            }
            proof {
                assert(cs0.skip(0) =~= cs0);
            }
            Some(FileNode { name, kind: k, size, children: Some(out) })
        },
    }
}

/// Serializes a finished scan into its document: the tree and, beside it,
/// the warnings with their reasons spelled out.
#[verifier::loop_isolation(false)]
pub fn serialize_result(tree: FileNode, warnings: Vec<Warning>) -> (doc: ScanDocument)
    ensures
        doc.root@ == spec_ser(tree@),
        doc.warnings@.len() == warnings@.len(),
        forall|i: int|
            0 <= i < warnings@.len() ==> {
                &&& (#[trigger] doc.warnings@[i]).path@ == warnings@[i].path@
                &&& doc.warnings@[i].reason@ == reason_text(warnings@[i].reason)
            },
{
    let root = serialize_node(tree);
    let mut dw: Vec<DocWarning> = Vec::new();
    let mut i: usize = 0;
    while i < warnings.len()
        invariant
            i <= warnings@.len(),
            dw@.len() == i,
            forall|t: int|
                0 <= t < i ==> {
                    &&& (#[trigger] dw@[t]).path@ == warnings@[t].path@
                    &&& dw@[t].reason@ == reason_text(warnings@[t].reason)
                },
        decreases warnings@.len() - i,
    {
        let w = &warnings[i];
        dw.push(DocWarning { path: w.path.clone(), reason: reason_to_text(w.reason) });
        i = i + 1;
    }
    ScanDocument { root, warnings: dw }
}

/// Reads a finished scan back from its document: the tree and the warnings,
/// or nothing when a kind or reason text is unknown.
#[verifier::loop_isolation(false)]
pub fn deserialize_result(doc: ScanDocument) -> (r: Option<(FileNode, Vec<Warning>)>)
    ensures
        match r {
            Option::Some(p) => {
                &&& spec_deser(doc.root@) == Option::Some(p.0@)
                &&& p.1@.len() == doc.warnings@.len()
                &&& forall|i: int|
                    0 <= i < doc.warnings@.len() ==> {
                        &&& (#[trigger] p.1@[i]).path@ == doc.warnings@[i].path@
                        &&& Option::Some(p.1@[i].reason) == reason_of_text(
                            doc.warnings@[i].reason@,
                        )
                    }
            },
            Option::None => spec_deser(doc.root@) is None || exists|i: int|
                0 <= i < doc.warnings@.len() && reason_of_text(
                    (#[trigger] doc.warnings@[i]).reason@,
                ) is None,
        },
{
    let ScanDocument { root, warnings } = doc;
    let tree = match deserialize_node(root) {
        Some(t) => t,
        None => {
            return None;
        },
    };
    let mut out: Vec<Warning> = Vec::new();
    let mut i: usize = 0;
    while i < warnings.len()
        invariant
            i <= warnings@.len(),
            out@.len() == i,
            forall|t: int|
                0 <= t < i ==> {
                    &&& (#[trigger] out@[t]).path@ == warnings@[t].path@
                    &&& Option::Some(out@[t].reason) == reason_of_text(warnings@[t].reason@)
                },
        decreases warnings@.len() - i,
    {
        let w = &warnings[i];
        let reason = match parse_reason(&w.reason) {
            Some(k) => k,
            None => {
                return None;
            },
        };
        out.push(Warning { path: w.path.clone(), reason });
        i = i + 1;
    }
    Some((tree, out))
}

} // verus!
