//! Path resolution: building a candidate's identity.
//!
//! A candidate's canonical identity is a structured platform path: the
//! volume's own location nodes, copied, with one file-path node appended
//! that names the file inside the volume. The alternate identity is a plain
//! display string: a volume label followed by the same in-volume path.

use vstd::prelude::*;

verus! {

/// One node of a structured platform path.
pub enum PathNode {
    /// A node copied verbatim from the volume's own location descriptor.
    /// The library treats its payload as opaque bytes.
    Device { bytes: Vec<u8> },
    /// A node naming a file within the volume.
    FilePath { text: Vec<char> },
}

/// The mathematical value of a path node.
pub enum PathNodeView {
    Device(Seq<u8>),
    FilePath(Seq<char>),
}

impl View for PathNode {
    type V = PathNodeView;

    open spec fn view(&self) -> PathNodeView {
        match self {
            PathNode::Device { bytes } => PathNodeView::Device(bytes@),
            PathNode::FilePath { text } => PathNodeView::FilePath(text@),
        }
    }
}

/// The values of a sequence of nodes.
pub open spec fn nodes_view(ns: Seq<PathNode>) -> Seq<PathNodeView> {
    ns.map_values(|n: PathNode| n@)
}

/// A structured node begins with a four-byte header (a type, a subtype and
/// a sixteen-bit total length), so an opaque node is well formed only when
/// it holds at least its header and no more than the length field can
/// count. A file-path node is built by the library itself and is always
/// well formed.
pub open spec fn node_well_formed(n: PathNode) -> bool {
    match n {
        PathNode::Device { bytes } => 4 <= bytes@.len() && bytes@.len() <= 0xFFFF,
        PathNode::FilePath { text: _ } => true,
    }
}

/// Every node of a volume's location descriptor is well formed.
pub open spec fn origin_well_formed(ns: Seq<PathNode>) -> bool {
    forall|i: int| 0 <= i < ns.len() ==> node_well_formed(ns[i])
}

/// Decides whether one node is well formed.
pub fn check_node(n: &PathNode) -> (r: bool)
    ensures
        r == node_well_formed(*n),
{
    match n {
        PathNode::Device { bytes } => 4 <= bytes.len() && bytes.len() <= 0xFFFF,
        PathNode::FilePath { text: _ } => true,
    }
}

/// The in-volume path written by the given segments, each preceded by the
/// platform's path separator.
pub open spec fn join_segments(segs: Seq<Seq<char>>) -> Seq<char>
    decreases segs.len(),
{
    if segs.len() == 0 {
        Seq::empty()
    } else {
        join_segments(segs.drop_last()) + seq!['\\'] + segs.last()
    }
}

/// Builds the in-volume path text from the given segments.
pub fn join_path(segments: &Vec<Vec<char>>) -> (r: Vec<char>)
    ensures
        r@ == join_segments(segments.deep_view()),
{
    let mut out: Vec<char> = Vec::new();
    let mut i: usize = 0;
    while i < segments.len()
        invariant
            i <= segments.len(),
            segments.deep_view().len() == segments@.len(),
            out@ == join_segments(segments.deep_view().take(i as int)),
        decreases segments.len() - i,
    {
        out.push('\\');
        let seg = &segments[i];
        let ghost pre = out@;
        let mut j: usize = 0;
        while j < seg.len()
            invariant
                j <= seg.len(),
                out@ == pre + seg@.take(j as int),
            decreases seg.len() - j,
        {
            out.push(seg[j]);
            proof {
                assert(out@ =~= pre + seg@.take(j as int + 1));
            }
            j += 1;
        }
        proof {
            let dv = segments.deep_view();
            assert(seg@ =~= dv[i as int]);
            assert(seg@.take(seg@.len() as int) =~= seg@);
            assert(dv.take(i as int + 1).drop_last() =~= dv.take(i as int));
            assert(out@ =~= join_segments(dv.take(i as int + 1)));
        }
        i += 1;
    }
    proof {
        assert(segments.deep_view().take(segments@.len() as int) =~= segments.deep_view());
    }
    out
}

/// Copies a character vector.
pub fn clone_chars(v: &Vec<char>) -> (r: Vec<char>)
    ensures
        r@ == v@,
{
    let mut out: Vec<char> = Vec::new();
    let mut i: usize = 0;
    while i < v.len()
        invariant
            i <= v.len(),
            out@ == v@.take(i as int),
        decreases v.len() - i,
    {
        out.push(v[i]);
        proof {
            assert(out@ =~= v@.take(i as int + 1));
        }
        i += 1;
    }
    proof {
        assert(v@.take(v@.len() as int) =~= v@);
    }
    out
}

/// Copies a byte vector.
pub fn clone_bytes(v: &Vec<u8>) -> (r: Vec<u8>)
    ensures
        r@ == v@,
{
    let mut out: Vec<u8> = Vec::new();
    let mut i: usize = 0;
    while i < v.len()
        invariant
            i <= v.len(),
            out@ == v@.take(i as int),
        decreases v.len() - i,
    {
        out.push(v[i]);
        proof {
            assert(out@ =~= v@.take(i as int + 1));
        }
        i += 1;
    }
    proof {
        assert(v@.take(v@.len() as int) =~= v@);
    }
    out
}

/// Copies one path node.
pub fn clone_node(n: &PathNode) -> (r: PathNode)
    ensures
        r@ == n@,
{
    match n {
        PathNode::Device { bytes } => PathNode::Device { bytes: clone_bytes(bytes) },
        PathNode::FilePath { text } => PathNode::FilePath { text: clone_chars(text) },
    }
}

/// Compares two character vectors.
pub fn chars_eq(a: &Vec<char>, b: &Vec<char>) -> (r: bool)
    ensures
        r == (a@ == b@),
{
    if a.len() != b.len() {
        return false;
    }
    let mut i: usize = 0;
    while i < a.len()
        invariant
            i <= a.len(),
            a@.len() == b@.len(),
            forall|k: int| 0 <= k < i ==> a@[k] == b@[k],
        decreases a.len() - i,
    {
        if a[i] != b[i] {
            return false;
        }
        i += 1;
    }
    proof {
        assert(a@ =~= b@);
    }
    true
}

/// Compares two byte vectors.
pub fn bytes_eq(a: &Vec<u8>, b: &Vec<u8>) -> (r: bool)
    ensures
        r == (a@ == b@),
{
    if a.len() != b.len() {
        return false;
    }
    let mut i: usize = 0;
    while i < a.len()
        invariant
            i <= a.len(),
            a@.len() == b@.len(),
            forall|k: int| 0 <= k < i ==> a@[k] == b@[k],
        decreases a.len() - i,
    {
        if a[i] != b[i] {
            return false;
        }
        i += 1;
    }
    proof {
        assert(a@ =~= b@);
    }
    true
}

/// Compares two path nodes.
pub fn node_eq(a: &PathNode, b: &PathNode) -> (r: bool)
    ensures
        r == (a@ == b@),
{
    match (a, b) {
        (PathNode::Device { bytes: x }, PathNode::Device { bytes: y }) => bytes_eq(x, y),
        (PathNode::FilePath { text: x }, PathNode::FilePath { text: y }) => chars_eq(x, y),
        _ => false,
    }
}

/// A structured platform path: location nodes ending in a file-path node.
pub struct StructuredPath {
    pub nodes: Vec<PathNode>,
}

impl View for StructuredPath {
    type V = Seq<PathNodeView>;

    open spec fn view(&self) -> Seq<PathNodeView> {
        nodes_view(self.nodes@)
    }
}

/// Synthesizes the structured path of a file inside a volume: every node of
/// the volume's own location descriptor is copied, and one file-path node
/// written from the given in-volume segments is appended. Fails, dropping
/// the candidate, exactly when some node of the descriptor is malformed.
pub fn resolve(origin: &Vec<PathNode>, segments: &Vec<Vec<char>>) -> (r: Option<StructuredPath>)
    ensures
        match r {
            Some(p) => origin_well_formed(origin@) && p@ == nodes_view(origin@).push(
                PathNodeView::FilePath(join_segments(segments.deep_view())),
            ),
            None => !origin_well_formed(origin@),
        },
{
    let mut nodes: Vec<PathNode> = Vec::new();
    let mut i: usize = 0;
    while i < origin.len()
        invariant
            i <= origin.len(),
            nodes@.len() == i,
            forall|k: int| 0 <= k < i ==> node_well_formed(origin@[k]),
            forall|k: int| 0 <= k < i ==> nodes@[k]@ == origin@[k]@,
        decreases origin.len() - i,
    {
        let n = &origin[i];
        if !check_node(n) {
            proof {
                assert(!node_well_formed(origin@[i as int]));
            }
            return None;
        }
        nodes.push(clone_node(n));
        i += 1;
    }
    let text = join_path(segments);
    nodes.push(PathNode::FilePath { text });
    proof {
        let target = nodes_view(origin@).push(
            PathNodeView::FilePath(join_segments(segments.deep_view())),
        );
        assert(forall|k: int| 0 <= k < nodes@.len() ==> nodes_view(nodes@)[k] == nodes@[k]@);
        assert(forall|k: int| 0 <= k < origin@.len() ==> nodes_view(origin@)[k] == origin@[k]@);
        assert(nodes_view(nodes@) =~= target);
    }
    Some(StructuredPath { nodes })
}

/// Builds the display-string identity: the volume label followed by the
/// in-volume path written from the given segments.
pub fn resolve_display(label: &Vec<char>, segments: &Vec<Vec<char>>) -> (r: Vec<char>)
    ensures
        r@ == label@ + join_segments(segments.deep_view()),
{
    let mut out = clone_chars(label);
    let mut joined = join_path(segments);
    out.append(&mut joined);
    out
}

/// A candidate's identity: the canonical structured platform path, or the
/// degraded display-string form that only supports buffer loading.
pub enum PathIdentity {
    Structured(StructuredPath),
    Display(Vec<char>),
}

/// The mathematical value of an identity.
pub enum PathIdentityView {
    Structured(Seq<PathNodeView>),
    Display(Seq<char>),
}

impl View for PathIdentity {
    type V = PathIdentityView;

    open spec fn view(&self) -> PathIdentityView {
        match self {
            PathIdentity::Structured(p) => PathIdentityView::Structured(p@),
            PathIdentity::Display(s) => PathIdentityView::Display(s@),
        }
    }
}

/// The human-readable form of an identity: a display identity is its own
/// text; a structured identity reads as the text of its final file-path
/// node, the part of the path a person recognizes.
pub open spec fn spec_display_of(id: PathIdentityView) -> Seq<char> {
    match id {
        PathIdentityView::Display(s) => s,
        PathIdentityView::Structured(nodes) => {
            if nodes.len() == 0 {
                Seq::empty()
            } else {
                match nodes.last() {
                    PathNodeView::FilePath(t) => t,
                    PathNodeView::Device(_) => Seq::empty(),
                }
            }
        },
    }
}

/// Renders an identity for display.
pub fn display_of(id: &PathIdentity) -> (r: Vec<char>)
    ensures
        r@ == spec_display_of(id@),
{
    match id {
        PathIdentity::Display(s) => clone_chars(s),
        PathIdentity::Structured(p) => {
            if p.nodes.len() == 0 {
                Vec::new()
            } else {
                match &p.nodes[p.nodes.len() - 1] {
                    PathNode::FilePath { text } => {
                        proof {
                            assert(p@.last() == p.nodes@.last()@);
                        }
                        clone_chars(text)
                    },
                    PathNode::Device { bytes: _ } => {
                        proof {
                            assert(p@.last() == p.nodes@.last()@);
                        }
                        Vec::new()
                    },
                }
            }
        },
    }
}

} // verus!
