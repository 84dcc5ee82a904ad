//! Independent re-resolution of a candidate's structured path.
//!
//! A structured path can be handed back to the platform, outside the
//! discovery flow, and resolved afresh: match the volume's own nodes, read
//! the file-path node, walk its two in-volume steps, and find the file.
//! This module defines that resolution over the volume model and proves
//! the round trip: every discovered candidate's path resolves to a file
//! whose content length is exactly the length a buffer-strategy load of
//! the candidate would allocate and read.

use vstd::prelude::*;
use crate::finder::{
    candidate_kept, candidate_nodes, candidate_segments, candidate_view, child_scanned,
    children_cands, listing_cands, scan_stop, volume_cands,
};
use crate::path::{join_segments, nodes_view, PathIdentityView, PathNodeView, StructuredPath};
use crate::volume::{ChildDir, DirEntry, VolumeModel};

verus! {

/// The name contains no path separator, as every name a real directory
/// yields does.
pub open spec fn no_separator(s: Seq<char>) -> bool {
    forall|i: int| 0 <= i < s.len() ==> s[i] != '\\'
}

/// No two directory children of the boot directory share a name, and no
/// two regular files of one child share a name — what any one directory
/// of a real filesystem guarantees.
pub open spec fn volume_names_distinct(v: VolumeModel) -> bool {
    match v.boot_dir {
        Option::None => true,
        Option::Some(bd) => {
            &&& forall|a: int, b: int|
                0 <= a < b < bd.children@.len() && bd.children@[a].entry.info.is_dir
                    && bd.children@[b].entry.info.is_dir
                    ==> bd.children@[a].entry.info.name@ != bd.children@[b].entry.info.name@
            &&& forall|j: int, a: int, b: int|
                0 <= j < bd.children@.len() && 0 <= a < b < bd.children@[j].listing.entries@.len()
                    && bd.children@[j].listing.entries@[a].info.is_regular
                    && bd.children@[j].listing.entries@[b].info.is_regular
                    ==> bd.children@[j].listing.entries@[a].info.name@
                    != bd.children@[j].listing.entries@[b].info.name@
        },
    }
}

/// Every name the volume yields is free of the path separator.
pub open spec fn volume_names_separator_free(v: VolumeModel) -> bool {
    match v.boot_dir {
        Option::None => true,
        Option::Some(bd) => {
            &&& forall|j: int|
                0 <= j < bd.children@.len() ==> no_separator(bd.children@[j].entry.info.name@)
            &&& forall|j: int, k: int|
                0 <= j < bd.children@.len() && 0 <= k < bd.children@[j].listing.entries@.len()
                    ==> no_separator(bd.children@[j].listing.entries@[k].info.name@)
        },
    }
}

/// The first separator at or after position `k`, or the text's length.
pub open spec fn sep_index_from(s: Seq<char>, k: int) -> int
    decreases s.len() - k,
{
    if k < 0 || k >= s.len() {
        s.len() as int
    } else if s[k] == '\\' {
        k
    } else {
        sep_index_from(s, k + 1)
    }
}

/// `sep_index_from` names the first separator.
proof fn lemma_sep_index_props(s: Seq<char>, k: int)
    requires
        0 <= k <= s.len(),
    ensures
        k <= sep_index_from(s, k) <= s.len(),
        forall|j: int| k <= j < sep_index_from(s, k) ==> s[j] != '\\',
        sep_index_from(s, k) < s.len() ==> s[sep_index_from(s, k)] == '\\',
    decreases s.len() - k,
{
    if k < s.len() && s[k] != '\\' {
        lemma_sep_index_props(s, k + 1);
    }
}

/// A position with no separator before it, holding a separator or the
/// end, is the first separator.
proof fn lemma_sep_index_determined(s: Seq<char>, k: int, q: int)
    requires
        0 <= k <= q <= s.len(),
        forall|j: int| k <= j < q ==> s[j] != '\\',
        q < s.len() ==> s[q] == '\\',
    ensures
        sep_index_from(s, k) == q,
    decreases q - k,
{
    if k < q {
        lemma_sep_index_determined(s, k + 1, q);
    }
}

/// The text begins with the one fixed step: the top-level boot directory.
pub open spec fn rel_prefix_ok(t: Seq<char>) -> bool {
    t.len() >= 5 && t[0] == '\\' && t[1] == 'e' && t[2] == 'f' && t[3] == 'i' && t[4] == '\\'
}

/// The text reads as exactly two in-volume steps below the boot
/// directory: a child directory and a file name.
pub open spec fn text_parses(t: Seq<char>) -> bool {
    let q = sep_index_from(t, 5);
    rel_prefix_ok(t) && q < t.len() && sep_index_from(t, q + 1) == t.len()
}

/// The child-directory step of a parsed text.
pub open spec fn parsed_child(t: Seq<char>) -> Seq<char> {
    t.subrange(5, sep_index_from(t, 5))
}

/// The file-name step of a parsed text.
pub open spec fn parsed_file(t: Seq<char>) -> Seq<char> {
    t.subrange(sep_index_from(t, 5) + 1, t.len() as int)
}

/// The path a candidate was built from parses back into exactly the child
/// and file names it was built from: the text determines them.
pub proof fn lemma_parse_of_join(child: Seq<char>, file: Seq<char>)
    requires
        no_separator(child),
        no_separator(file),
    ensures
        text_parses(join_segments(candidate_segments(child, file))),
        parsed_child(join_segments(candidate_segments(child, file))) == child,
        parsed_file(join_segments(candidate_segments(child, file))) == file,
{
    let segs = candidate_segments(child, file);
    let t = join_segments(segs);
    let bdn = crate::finder::boot_dir_name();
    assert(seq![bdn].drop_last() =~= Seq::<Seq<char>>::empty());
    assert(join_segments(Seq::<Seq<char>>::empty()) =~= Seq::<char>::empty());
    assert(join_segments(seq![bdn]) =~= seq!['\\', 'e', 'f', 'i']);
    assert(seq![bdn, child].drop_last() =~= seq![bdn]);
    assert(join_segments(seq![bdn, child]) =~= seq!['\\', 'e', 'f', 'i'] + seq!['\\'] + child);
    assert(segs.drop_last() =~= seq![bdn, child]);
    let head = seq!['\\', 'e', 'f', 'i', '\\'];
    assert(t =~= head + child + seq!['\\'] + file);
    let q = 5 + child.len() as int;
    assert(forall|j: int| 5 <= j < q ==> t[j] == child[j - 5] && t[j] != '\\');
    assert(t[q] == '\\');
    lemma_sep_index_determined(t, 5, q);
    assert(forall|j: int| q + 1 <= j < t.len() ==> t[j] == file[j - q - 1] && t[j] != '\\');
    lemma_sep_index_determined(t, q + 1, t.len() as int);
    assert(parsed_child(t) =~= child);
    assert(parsed_file(t) =~= file);
}

/// Candidates from different subdirectories, or with different file
/// names, never share a structured path, even when their base names
/// collide: the file-path node determines both in-volume steps.
pub proof fn lemma_candidate_paths_distinct(
    origin: Seq<crate::path::PathNode>,
    a: Seq<char>,
    b: Seq<char>,
    c: Seq<char>,
    d: Seq<char>,
)
    requires
        no_separator(a),
        no_separator(b),
        no_separator(c),
        no_separator(d),
        a != c || b != d,
    ensures
        candidate_nodes(origin, a, b) != candidate_nodes(origin, c, d),
{
    lemma_parse_of_join(a, b);
    lemma_parse_of_join(c, d);
    if candidate_nodes(origin, a, b) == candidate_nodes(origin, c, d) {
        assert(candidate_nodes(origin, a, b).last() == PathNodeView::FilePath(
            join_segments(candidate_segments(a, b)),
        ));
        assert(candidate_nodes(origin, c, d).last() == PathNodeView::FilePath(
            join_segments(candidate_segments(c, d)),
        ));
        assert(join_segments(candidate_segments(a, b)) == join_segments(candidate_segments(c, d)));
        assert(false);
    }
}

/// A child step resolves through an entry that is a directory of that
/// name.
pub open spec fn child_resolves(c: ChildDir, name: Seq<char>) -> bool {
    c.entry.info.is_dir && c.entry.info.name@ == name
}

/// A file step resolves through an entry that is a regular file of that
/// name.
pub open spec fn entry_resolves(e: DirEntry, name: Seq<char>) -> bool {
    e.info.is_regular && e.info.name@ == name
}

/// The content length found by walking one child's listing for the first
/// regular file of the given name, from position `k` on.
pub open spec fn lookup_file_from(entries: Seq<DirEntry>, name: Seq<char>, k: int) -> Option<u64>
    decreases entries.len() - k,
{
    if k < 0 || k >= entries.len() {
        Option::None
    } else if entry_resolves(entries[k], name) {
        Option::Some(entries[k].info.size)
    } else {
        lookup_file_from(entries, name, k + 1)
    }
}

/// The content length found by opening the first child directory of the
/// given name, from position `k` on, and looking the file up inside it.
pub open spec fn lookup_child_from(
    cs: Seq<ChildDir>,
    child: Seq<char>,
    file: Seq<char>,
    k: int,
) -> Option<u64>
    decreases cs.len() - k,
{
    if k < 0 || k >= cs.len() {
        Option::None
    } else if child_resolves(cs[k], child) {
        lookup_file_from(cs[k].listing.entries@, file, 0)
    } else {
        lookup_child_from(cs, child, file, k + 1)
    }
}

/// The content length the volume yields for the two given in-volume steps.
pub open spec fn lookup_names(v: VolumeModel, child: Seq<char>, file: Seq<char>) -> Option<u64> {
    match v.boot_dir {
        Option::None => Option::None,
        Option::Some(bd) => lookup_child_from(bd.children@, child, file, 0),
    }
}

/// The path's nodes match the volume: its own nodes first, one file-path
/// node last.
pub open spec fn path_matches_volume(v: VolumeModel, nodes: Seq<PathNodeView>) -> bool {
    &&& nodes.len() == v.origin@.len() + 1
    &&& nodes.take(v.origin@.len() as int) == nodes_view(v.origin@)
    &&& nodes.last() is FilePath
}

/// What re-resolving a structured path against a volume yields: the
/// content length of the named file, or nothing when any step fails.
pub open spec fn lookup_spec(v: VolumeModel, nodes: Seq<PathNodeView>) -> Option<u64> {
    if !path_matches_volume(v, nodes) {
        Option::None
    } else {
        match nodes.last() {
            PathNodeView::FilePath(t) => if text_parses(t) {
                lookup_names(v, parsed_child(t), parsed_file(t))
            } else {
                Option::None
            },
            PathNodeView::Device(_) => Option::None,
        }
    }
}

/// Skipping non-resolving children does not change the walk's result.
proof fn lemma_lookup_child_skip(cs: Seq<ChildDir>, child: Seq<char>, file: Seq<char>, m: int, j: int)
    requires
        0 <= m <= j <= cs.len(),
        forall|x: int| m <= x < j ==> !child_resolves(cs[x], child),
    ensures
        lookup_child_from(cs, child, file, m) == lookup_child_from(cs, child, file, j),
    decreases j - m,
{
    if m < j {
        lemma_lookup_child_skip(cs, child, file, m + 1, j);
    }
}

/// Skipping non-resolving entries does not change the walk's result.
proof fn lemma_lookup_file_skip(entries: Seq<DirEntry>, name: Seq<char>, m: int, k: int)
    requires
        0 <= m <= k <= entries.len(),
        forall|x: int| m <= x < k ==> !entry_resolves(entries[x], name),
    ensures
        lookup_file_from(entries, name, m) == lookup_file_from(entries, name, k),
    decreases k - m,
{
    if m < k {
        lemma_lookup_file_skip(entries, name, m + 1, k);
    }
}

/// With unique names, the walk finds exactly the directory child and the
/// regular file a candidate came from.
proof fn lemma_lookup_finds(v: VolumeModel, j: int, k: int)
    requires
        volume_names_distinct(v),
        v.boot_dir is Some,
        0 <= j < v.boot_dir.unwrap().children@.len(),
        v.boot_dir.unwrap().children@[j].entry.info.is_dir,
        0 <= k < v.boot_dir.unwrap().children@[j].listing.entries@.len(),
        v.boot_dir.unwrap().children@[j].listing.entries@[k].info.is_regular,
    ensures
        lookup_names(
            v,
            v.boot_dir.unwrap().children@[j].entry.info.name@,
            v.boot_dir.unwrap().children@[j].listing.entries@[k].info.name@,
        ) == Option::Some(v.boot_dir.unwrap().children@[j].listing.entries@[k].info.size),
{
    let bd = v.boot_dir.unwrap();
    let cs = bd.children@;
    let child = cs[j].entry.info.name@;
    let entries = cs[j].listing.entries@;
    let file = entries[k].info.name@;
    assert(forall|x: int| 0 <= x < j ==> !child_resolves(cs[x], child));
    lemma_lookup_child_skip(cs, child, file, 0, j);
    assert(child_resolves(cs[j], child));
    assert(forall|x: int| 0 <= x < k ==> !entry_resolves(entries[x], file));
    lemma_lookup_file_skip(entries, file, 0, k);
    assert(entry_resolves(entries[k], file));
}

/// Every candidate among a listing's first `n` entries comes from a kept
/// entry of that listing.
proof fn lemma_listing_cands_source(
    origin: Seq<crate::path::PathNode>,
    child: Seq<char>,
    entries: Seq<DirEntry>,
    n: int,
    i: int,
)
    requires
        0 <= n <= entries.len(),
        0 <= i < listing_cands(origin, child, entries, n).len(),
    ensures
        exists|k: int|
            0 <= k < n && candidate_kept(origin, entries[k]) && listing_cands(
                origin,
                child,
                entries,
                n,
            )[i] == candidate_view(origin, child, entries[k].info),
    decreases n,
{
    let cur = listing_cands(origin, child, entries, n);
    let prefix = listing_cands(origin, child, entries, n - 1);
    if i < prefix.len() {
        lemma_listing_cands_source(origin, child, entries, n - 1, i);
        let k = choose|k: int|
            0 <= k < n - 1 && candidate_kept(origin, entries[k]) && prefix[i] == candidate_view(
                origin,
                child,
                entries[k].info,
            );
        assert(cur[i] == prefix[i]);
        assert(0 <= k < n && candidate_kept(origin, entries[k]) && cur[i] == candidate_view(
            origin,
            child,
            entries[k].info,
        ));
    } else {
        assert(candidate_kept(origin, entries[n - 1]));
        assert(cur[i] == candidate_view(origin, child, entries[n - 1].info));
    }
}

/// Every candidate among the first `n` children's contributions comes
/// from a scanned child and a kept entry of its listing.
proof fn lemma_children_cands_source(
    origin: Seq<crate::path::PathNode>,
    cs: Seq<ChildDir>,
    n: int,
    i: int,
)
    requires
        0 <= n <= cs.len(),
        0 <= i < children_cands(origin, cs, n).len(),
    ensures
        exists|j: int, k: int|
            0 <= j < n && child_scanned(cs[j]) && 0 <= k < cs[j].listing.entries@.len()
                && candidate_kept(origin, cs[j].listing.entries@[k]) && children_cands(
                origin,
                cs,
                n,
            )[i] == candidate_view(origin, cs[j].entry.info.name@, cs[j].listing.entries@[k].info),
    decreases n,
{
    let cur = children_cands(origin, cs, n);
    let prefix = children_cands(origin, cs, n - 1);
    if i < prefix.len() {
        lemma_children_cands_source(origin, cs, n - 1, i);
        let (j, k) = choose|j: int, k: int|
            0 <= j < n - 1 && child_scanned(cs[j]) && 0 <= k < cs[j].listing.entries@.len()
                && candidate_kept(origin, cs[j].listing.entries@[k]) && prefix[i] == candidate_view(
                origin,
                cs[j].entry.info.name@,
                cs[j].listing.entries@[k].info,
            );
        assert(cur[i] == prefix[i]);
        assert(0 <= j < n && child_scanned(cs[j]) && 0 <= k < cs[j].listing.entries@.len()
            && candidate_kept(origin, cs[j].listing.entries@[k]) && cur[i] == candidate_view(
            origin,
            cs[j].entry.info.name@,
            cs[j].listing.entries@[k].info,
        ));
    } else {
        let rest = crate::finder::child_cands(origin, cs[n - 1]);
        assert(cur[i] == rest[i - prefix.len()]);
        assert(child_scanned(cs[n - 1]));
        lemma_listing_cands_source(
            origin,
            cs[n - 1].entry.info.name@,
            cs[n - 1].listing.entries@,
            cs[n - 1].listing.entries@.len() as int,
            i - prefix.len(),
        );
        let k = choose|k: int|
            0 <= k < cs[n - 1].listing.entries@.len() && #[trigger] candidate_kept(
                origin,
                cs[n - 1].listing.entries@[k],
            ) && rest[i - prefix.len()] == candidate_view(
                origin,
                cs[n - 1].entry.info.name@,
                cs[n - 1].listing.entries@[k].info,
            );
        assert(0 <= n - 1 < n && child_scanned(cs[n - 1]) && 0 <= k < cs[n
            - 1].listing.entries@.len() && candidate_kept(origin, cs[n - 1].listing.entries@[k])
            && cur[i] == candidate_view(
            origin,
            cs[n - 1].entry.info.name@,
            cs[n - 1].listing.entries@[k].info,
        ));
    }
}

/// The scan never consumes more children than there are.
proof fn lemma_scan_stop_range(cs: Seq<ChildDir>, n: int)
    requires
        0 <= n,
    ensures
        0 <= scan_stop(cs, n) <= n,
    decreases n,
{
    if n > 0 {
        lemma_scan_stop_range(cs, n - 1);
    }
}

/// Round-trip consistency of the two resolution strategies: re-resolving
/// any discovered candidate's structured path against its volume finds a
/// file whose content length is exactly the length recorded in the
/// candidate — the size a buffer-strategy load allocates and reads. Holds
/// for every volume whose directories carry unique, separator-free names,
/// as real directories do.
pub proof fn lemma_candidate_path_round_trip(v: VolumeModel, i: int)
    requires
        volume_names_distinct(v),
        volume_names_separator_free(v),
        0 <= i < volume_cands(v).len(),
    ensures
        volume_cands(v)[i].identity is Structured,
        volume_cands(v)[i].identity matches PathIdentityView::Structured(nodes) ==> lookup_spec(
            v,
            nodes,
        ) == Option::Some(volume_cands(v)[i].size),
{
    let bd = v.boot_dir.unwrap();
    let cs = bd.children@;
    let origin = v.origin@;
    let stop = scan_stop(cs, cs.len() as int);
    lemma_scan_stop_range(cs, cs.len() as int);
    lemma_children_cands_source(origin, cs, stop, i);
    let (j, k) = choose|j: int, k: int|
        0 <= j < stop && child_scanned(cs[j]) && 0 <= k < cs[j].listing.entries@.len()
            && candidate_kept(origin, cs[j].listing.entries@[k]) && children_cands(
            origin,
            cs,
            stop,
        )[i] == candidate_view(origin, cs[j].entry.info.name@, cs[j].listing.entries@[k].info);
    let child = cs[j].entry.info.name@;
    let file = cs[j].listing.entries@[k].info.name@;
    let c = volume_cands(v)[i];
    assert(c == candidate_view(origin, child, cs[j].listing.entries@[k].info));
    let nodes = candidate_nodes(origin, child, file);
    assert(c.identity == PathIdentityView::Structured(nodes));
    assert(nodes.take(origin.len() as int) =~= nodes_view(origin));
    assert(path_matches_volume(v, nodes));
    lemma_parse_of_join(child, file);
    lemma_lookup_finds(v, j, k);
    assert(lookup_spec(v, nodes) == Option::Some(cs[j].listing.entries@[k].info.size));
}

/// Re-resolves a structured path against a volume, outside the discovery
/// flow: checks the volume's own nodes, parses the file-path node's two
/// in-volume steps, and walks the listings for the named file's content
/// length.
#[verifier::loop_isolation(false)]
pub fn open_by_path(v: &VolumeModel, path: &StructuredPath) -> (r: Option<u64>)
    ensures
        r == lookup_spec(*v, path@),
{
    let n = v.origin.len();
    let pl = path.nodes.len();
    if pl == 0 || pl - 1 != n {
        assert(path@.len() != v.origin@.len() + 1);
        return None;
    }
    let mut i: usize = 0;
    while i < n
        invariant
            i <= n,
            n == v.origin@.len(),
            path@.len() == n + 1,
            path.nodes@.len() == n + 1,
            forall|m: int| 0 <= m < i ==> path.nodes@[m]@ == v.origin@[m]@,
        decreases n - i,
    {
        if !crate::path::node_eq(&path.nodes[i], &v.origin[i]) {
            proof {
                assert(path@[i as int] == path.nodes@[i as int]@);
                assert(nodes_view(v.origin@)[i as int] == v.origin@[i as int]@);
                assert(path@.take(v.origin@.len() as int)[i as int] != nodes_view(v.origin@)[i
                    as int]);
            }
            return None;
        }
        i += 1;
    }
    proof {
        assert(path@.take(v.origin@.len() as int) =~= nodes_view(v.origin@));
    }
    let text = match &path.nodes[n] {
        crate::path::PathNode::Device { bytes: _ } => {
            proof {
                assert(path@.last() == path.nodes@.last()@);
            }
            return None;
        },
        crate::path::PathNode::FilePath { text } => text,
    };
    proof {
        assert(path@.last() == path.nodes@.last()@);
        assert(path@.last() == PathNodeView::FilePath(text@));
        assert(path_matches_volume(*v, path@));
    }
    let ghost t = text@;
    let tl = text.len();
    if tl < 5 {
        return None;
    }
    if !(text[0] == '\\' && text[1] == 'e' && text[2] == 'f' && text[3] == 'i' && text[4] == '\\') {
        return None;
    }
    let mut q: usize = 5;
    while q < tl && text[q] != '\\'
        invariant
            5 <= q <= tl,
            tl == t.len(),
            t == text@,
            forall|m: int| 5 <= m < q ==> t[m] != '\\',
        decreases tl - q,
    {
        q += 1;
    }
    proof {
        lemma_sep_index_determined(t, 5, q as int);
    }
    if q == tl {
        return None;
    }
    let mut w: usize = q + 1;
    while w < tl
        invariant
            q + 1 <= w <= tl,
            tl == t.len(),
            t == text@,
            forall|m: int| q + 1 <= m < w ==> t[m] != '\\',
        decreases tl - w,
    {
        if text[w] == '\\' {
            proof {
                lemma_sep_index_props(t, q as int + 1);
                assert(sep_index_from(t, q as int + 1) <= w < t.len());
            }
            return None;
        }
        w += 1;
    }
    proof {
        lemma_sep_index_determined(t, q as int + 1, tl as int);
        assert(text_parses(t));
    }
    let mut child: Vec<char> = Vec::new();
    let mut m: usize = 5;
    while m < q
        invariant
            5 <= m <= q <= tl,
            tl == t.len(),
            t == text@,
            child@ == t.subrange(5, m as int),
        decreases q - m,
    {
        child.push(text[m]);
        proof {
            assert(child@ =~= t.subrange(5, m as int + 1));
        }
        m += 1;
    }
    let mut file: Vec<char> = Vec::new();
    let mut m2: usize = q + 1;
    while m2 < tl
        invariant
            q + 1 <= m2 <= tl,
            tl == t.len(),
            t == text@,
            file@ == t.subrange(q as int + 1, m2 as int),
        decreases tl - m2,
    {
        file.push(text[m2]);
        proof {
            assert(file@ =~= t.subrange(q as int + 1, m2 as int + 1));
        }
        m2 += 1;
    }
    proof {
        assert(child@ == parsed_child(t));
        assert(file@ == parsed_file(t));
    }
    let bd = match &v.boot_dir {
        Option::None => {
            return None;
        },
        Option::Some(bd) => bd,
    };
    let ghost cs = bd.children@;
    let mut j: usize = 0;
    while j < bd.children.len()
        invariant
            j <= cs.len(),
            cs == bd.children@,
            lookup_child_from(cs, child@, file@, 0) == lookup_child_from(cs, child@, file@, j as int),
        decreases cs.len() - j,
    {
        let c = &bd.children[j];
        if c.entry.info.is_dir && crate::path::chars_eq(&c.entry.info.name, &child) {
            let ghost entries = c.listing.entries@;
            let mut k: usize = 0;
            while k < c.listing.entries.len()
                invariant
                    k <= entries.len(),
                    entries == c.listing.entries@,
                    lookup_file_from(entries, file@, 0) == lookup_file_from(
                        entries,
                        file@,
                        k as int,
                    ),
                decreases entries.len() - k,
            {
                let e = &c.listing.entries[k];
                if e.info.is_regular && crate::path::chars_eq(&e.info.name, &file) {
                    return Some(e.info.size);
                }
                k += 1;
            }
            return None;
        }
        j += 1;
    }
    None
}

} // verus!
