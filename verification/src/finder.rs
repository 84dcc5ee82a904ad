//! Boot candidate discovery and the candidate registry.
//!
//! The locator walks a volume's top-level boot directory, descends into
//! each child that re-opens as a directory, and keeps every entry that is
//! a boot-image candidate and re-opens as a regular file, pairing it with
//! the structured path that re-locates it later. A child that is not a
//! directory, an entry whose re-open fails, and a candidate whose path
//! cannot be finalized are each skipped alone; a read error aborts the one
//! volume's scan and leaves every candidate found before it registered.

use vstd::prelude::*;
use crate::cursor::{CursorOutcome, DirCursor};
use crate::path::{
    clone_chars, join_segments, nodes_view, origin_well_formed, resolve, spec_display_of,
    PathIdentity, PathIdentityView, PathNode, PathNodeView,
};
use crate::volume::{ChildDir, DirEntry, DirListing, EntryInfo, VolumeModel, spec_is_boot_image};

verus! {

/// The mathematical value of one registered candidate.
pub struct FileRefView {
    pub identity: PathIdentityView,
    pub size: u64,
}

/// One discovered boot candidate: its identity, and the content length its
/// metadata reported at discovery, which is exactly what a buffer load of
/// the file would allocate and read. Immutable after construction.
pub struct FileRef {
    identity: PathIdentity,
    size: u64,
}

impl View for FileRef {
    type V = FileRefView;

    closed spec fn view(&self) -> FileRefView {
        FileRefView { identity: self.identity@, size: self.size }
    }
}

impl FileRef {
    /// Packs an identity and a reported content length into a candidate.
    pub fn new(identity: PathIdentity, size: u64) -> (r: Self)
        ensures
            r@ == (FileRefView { identity: identity@, size: size }),
    {
        FileRef { identity, size }
    }

    /// The identity that re-locates the file.
    pub fn path(&self) -> (r: &PathIdentity)
        ensures
            r@ == self@.identity,
    {
        &self.identity
    }

    /// The content length reported at discovery: the exact allocation a
    /// buffer-strategy load of this candidate makes.
    pub fn file_size(&self) -> (r: u64)
        ensures
            r == self@.size,
    {
        self.size
    }

    /// The candidate's human-readable path text.
    pub fn display_chars(&self) -> (r: Vec<char>)
        ensures
            r@ == spec_display_of(self@.identity),
    {
        crate::path::display_of(&self.identity)
    }
}

/// The error a volume's scan reports upward. Either way the volume only
/// loses its remaining contribution; the caller goes on to the next volume.
#[derive(Clone, Copy, PartialEq, Eq, Structural, Debug)]
pub enum ScanError {
    /// The volume has no top-level boot directory, or it could not be
    /// opened, or it is not a directory.
    NoBootDirectory,
    /// Enumerating a directory ended in a read error.
    DirectoryReadError,
}

/// The name of the fixed top-level boot directory.
pub open spec fn boot_dir_name() -> Seq<char> {
    seq!['e', 'f', 'i']
}

/// The in-volume path segments of a candidate: the top-level boot
/// directory, the child directory, and the file name.
pub open spec fn candidate_segments(child: Seq<char>, file: Seq<char>) -> Seq<Seq<char>> {
    seq![boot_dir_name(), child, file]
}

/// The structured-path nodes of a candidate: the volume's own nodes with
/// one file-path node appended.
pub open spec fn candidate_nodes(origin: Seq<PathNode>, child: Seq<char>, file: Seq<char>) -> Seq<
    PathNodeView,
> {
    nodes_view(origin).push(PathNodeView::FilePath(join_segments(candidate_segments(child, file))))
}

/// The registered form of one matched file.
pub open spec fn candidate_view(origin: Seq<PathNode>, child: Seq<char>, e: EntryInfo) -> FileRefView {
    FileRefView {
        identity: PathIdentityView::Structured(candidate_nodes(origin, child, e.name@)),
        size: e.size,
    }
}

/// A matched entry becomes a candidate exactly when it re-opened as a
/// regular file and the volume's own nodes could all be copied.
pub open spec fn candidate_kept(origin: Seq<PathNode>, e: DirEntry) -> bool {
    spec_is_boot_image(e.info) && e.opens && origin_well_formed(origin)
}

/// The candidates among the first `n` entries of one child directory's
/// listing, in listing order.
pub open spec fn listing_cands(
    origin: Seq<PathNode>,
    child: Seq<char>,
    entries: Seq<DirEntry>,
    n: int,
) -> Seq<FileRefView>
    decreases n,
{
    if n <= 0 {
        Seq::empty()
    } else {
        listing_cands(origin, child, entries, n - 1) + if candidate_kept(origin, entries[n - 1]) {
            seq![candidate_view(origin, child, entries[n - 1].info)]
        } else {
            Seq::empty()
        }
    }
}

/// A child of the boot directory is descended into exactly when its
/// metadata marks a directory and it re-opened as one.
pub open spec fn child_scanned(c: ChildDir) -> bool {
    c.entry.info.is_dir && c.entry.opens
}

/// What one child of the boot directory contributes.
pub open spec fn child_cands(origin: Seq<PathNode>, c: ChildDir) -> Seq<FileRefView> {
    if child_scanned(c) {
        listing_cands(origin, c.entry.info.name@, c.listing.entries@, c.listing.entries@.len() as int)
    } else {
        Seq::empty()
    }
}

/// A child whose own listing ended in a read error aborts the volume's
/// scan once that child has been consumed.
pub open spec fn child_aborts(c: ChildDir) -> bool {
    child_scanned(c) && c.listing.read_error
}

/// The contributions of the first `n` children, concatenated in order.
pub open spec fn children_cands(origin: Seq<PathNode>, cs: Seq<ChildDir>, n: int) -> Seq<FileRefView>
    decreases n,
{
    if n <= 0 {
        Seq::empty()
    } else {
        children_cands(origin, cs, n - 1) + child_cands(origin, cs[n - 1])
    }
}

/// Some child among the first `n` aborts the scan.
pub open spec fn has_abort(cs: Seq<ChildDir>, n: int) -> bool {
    exists|j: int| 0 <= j < n && child_aborts(cs[j])
}

/// How many children of the volume's boot directory the scan consumes:
/// all of them, or everything up to and including the first child whose
/// listing ended in a read error.
pub open spec fn scan_stop(cs: Seq<ChildDir>, n: int) -> int
    decreases n,
{
    if n <= 0 {
        0
    } else if has_abort(cs, n - 1) {
        scan_stop(cs, n - 1)
    } else {
        n
    }
}

/// Every candidate one volume contributes, in discovery order.
pub open spec fn volume_cands(v: VolumeModel) -> Seq<FileRefView> {
    match v.boot_dir {
        Option::None => Seq::empty(),
        Option::Some(bd) => children_cands(
            v.origin@,
            bd.children@,
            scan_stop(bd.children@, bd.children@.len() as int),
        ),
    }
}

/// A volume scans cleanly when its boot directory opened and no listing
/// ended in a read error.
pub open spec fn volume_ok(v: VolumeModel) -> bool {
    match v.boot_dir {
        Option::None => false,
        Option::Some(bd) => !bd.read_error && (forall|j: int|
            0 <= j < bd.children@.len() ==> !child_aborts(bd.children@[j])),
    }
}

/// The candidates of a whole run: each volume's contribution, in volume
/// order.
pub open spec fn total_cands(vs: Seq<VolumeModel>) -> Seq<FileRefView>
    decreases vs.len(),
{
    if vs.len() == 0 {
        Seq::empty()
    } else {
        total_cands(vs.drop_last()) + volume_cands(vs.last())
    }
}

/// A range of entries without a boot-image match contributes nothing.
proof fn lemma_listing_cands_no_match(
    origin: Seq<PathNode>,
    child: Seq<char>,
    entries: Seq<DirEntry>,
    a: int,
    b: int,
)
    requires
        0 <= a <= b <= entries.len(),
        forall|k: int| a <= k < b ==> !spec_is_boot_image(entries[k].info),
    ensures
        listing_cands(origin, child, entries, b) == listing_cands(origin, child, entries, a),
    decreases b - a,
{
    if a < b {
        lemma_listing_cands_no_match(origin, child, entries, a, b - 1);
        assert(!candidate_kept(origin, entries[b - 1]));
        assert(listing_cands(origin, child, entries, b) =~= listing_cands(
            origin,
            child,
            entries,
            b - 1,
        ));
    }
}

/// With no abort among the first `n` children, the scan consumes all `n`.
proof fn lemma_scan_stop_clean(cs: Seq<ChildDir>, n: int)
    requires
        0 <= n,
        forall|j: int| 0 <= j < n ==> !child_aborts(cs[j]),
    ensures
        scan_stop(cs, n) == n,
{
    if n > 0 {
        assert(!has_abort(cs, n - 1));
    }
}

/// With the first abort at child `i`, the scan consumes `i + 1` children.
proof fn lemma_scan_stop_abort(cs: Seq<ChildDir>, i: int, n: int)
    requires
        0 <= i < n,
        child_aborts(cs[i]),
        forall|j: int| 0 <= j < i ==> !child_aborts(cs[j]),
    ensures
        scan_stop(cs, n) == i + 1,
    decreases n,
{
    if n == i + 1 {
        assert(!has_abort(cs, i));
    } else {
        lemma_scan_stop_abort(cs, i, n - 1);
        assert(has_abort(cs, n - 1));
    }
}

/// The registry: an append-only, index-stable sequence of candidates, in
/// discovery order.
pub struct FileFinder {
    found_files: Vec<FileRef>,
}

impl View for FileFinder {
    type V = Seq<FileRefView>;

    closed spec fn view(&self) -> Seq<FileRefView> {
        self.found_files@.map_values(|f: FileRef| f@)
    }
}

impl FileFinder {
    /// An empty registry.
    pub fn new() -> (r: Self)
        ensures
            r@ == Seq::<FileRefView>::empty(),
    {
        let r = FileFinder { found_files: Vec::new() };
        proof {
            assert(r@ =~= Seq::<FileRefView>::empty());
        }
        r
    }

    /// Appends one candidate; every earlier index keeps its candidate.
    pub fn append(&mut self, file: FileRef)
        ensures
            final(self)@ == old(self)@.push(file@),
    {
        self.found_files.push(file);
        proof {
            assert(self@ =~= old(self)@.push(self.found_files@.last()@));
        }
    }

    /// How many candidates have been discovered.
    pub fn len(&self) -> (r: usize)
        ensures
            r == self@.len(),
    {
        self.found_files.len()
    }

    /// The candidate at one index. Indexing past the end is a programmer
    /// error, ruled out here rather than recovered from.
    pub fn get(&self, index: usize) -> (r: &FileRef)
        requires
            index < self@.len(),
        ensures
            r@ == self@[index as int],
    {
        &self.found_files[index]
    }

    /// Scans one child directory of the volume's boot directory: walks the
    /// listing with a fresh cursor, and registers every match that
    /// re-opens and whose structured path finalizes. Reports whether the
    /// listing ended in a read error.
    fn scan_boot_subdir(
        &mut self,
        origin: &Vec<PathNode>,
        child: &Vec<char>,
        listing: &DirListing,
    ) -> (aborted: bool)
        ensures
            final(self)@ == old(self)@ + listing_cands(
                origin@,
                child@,
                listing.entries@,
                listing.entries@.len() as int,
            ),
            aborted == listing.read_error,
    {
        let mut cursor = DirCursor::new();
        proof {
            assert(self@ =~= self@ + listing_cands(origin@, child@, listing.entries@, 0));
        }
        loop
            invariant
                cursor.pos <= listing.entries@.len(),
                self@ == old(self)@ + listing_cands(
                    origin@,
                    child@,
                    listing.entries@,
                    cursor.pos as int,
                ),
            decreases listing.entries@.len() - cursor.pos,
        {
            let ghost prev = cursor.pos as int;
            match cursor.find_next_matching(listing) {
                CursorOutcome::Found(j) => {
                    proof {
                        lemma_listing_cands_no_match(
                            origin@,
                            child@,
                            listing.entries@,
                            prev,
                            j as int,
                        );
                    }
                    let entry = &listing.entries[j];
                    if entry.opens {
                        let mut efi: Vec<char> = Vec::new();
                        efi.push('e');
                        efi.push('f');
                        efi.push('i');
                        let mut segments: Vec<Vec<char>> = Vec::new();
                        segments.push(efi);
                        segments.push(clone_chars(child));
                        segments.push(clone_chars(&entry.info.name));
                        proof {
                            assert(segments.deep_view() =~~= candidate_segments(
                                child@,
                                entry.info.name@,
                            ));
                        }
                        match resolve(origin, &segments) {
                            Option::Some(p) => {
                                let file = FileRef {
                                    identity: PathIdentity::Structured(p),
                                    size: entry.info.size,
                                };
                                let ghost cv = file@;
                                let ghost pre = self@;
                                proof {
                                    assert(cv == candidate_view(origin@, child@, entry.info));
                                    assert(candidate_kept(origin@, listing.entries@[j as int]));
                                }
                                self.found_files.push(file);
                                proof {
                                    assert(self@ =~= pre.push(cv));
                                    assert(listing_cands(
                                        origin@,
                                        child@,
                                        listing.entries@,
                                        j as int + 1,
                                    ) =~= listing_cands(origin@, child@, listing.entries@, prev)
                                        + seq![cv]);
                                    assert(self@ =~= old(self)@ + listing_cands(
                                        origin@,
                                        child@,
                                        listing.entries@,
                                        j as int + 1,
                                    ));
                                }
                            },
                            Option::None => {
                                proof {
                                    assert(!candidate_kept(origin@, listing.entries@[j as int]));
                                    assert(listing_cands(
                                        origin@,
                                        child@,
                                        listing.entries@,
                                        j as int + 1,
                                    ) =~= listing_cands(origin@, child@, listing.entries@, prev));
                                }
                            },
                        }
                    } else {
                        proof {
                            assert(!candidate_kept(origin@, listing.entries@[j as int]));
                            assert(listing_cands(origin@, child@, listing.entries@, j as int + 1)
                                =~= listing_cands(origin@, child@, listing.entries@, prev));
                        }
                    }
                },
                CursorOutcome::Exhausted => {
                    proof {
                        lemma_listing_cands_no_match(
                            origin@,
                            child@,
                            listing.entries@,
                            prev,
                            listing.entries@.len() as int,
                        );
                    }
                    return false;
                },
                CursorOutcome::ReadError => {
                    proof {
                        lemma_listing_cands_no_match(
                            origin@,
                            child@,
                            listing.entries@,
                            prev,
                            listing.entries@.len() as int,
                        );
                    }
                    return true;
                },
            }
        }
    }

    /// Scans one volume. Every child of the top-level boot directory that
    /// re-opens as a directory is searched for boot-image candidates, and
    /// each registered candidate keeps its index for good. A missing boot
    /// directory or a read error costs only this volume's remaining
    /// contribution; everything registered before the error stays.
    pub fn locate_normal_boot_files_in_fs(&mut self, v: &VolumeModel) -> (r: Result<(), ScanError>)
        ensures
            final(self)@ == old(self)@ + volume_cands(*v),
            (r is Ok) == volume_ok(*v),
            (r == Result::<(), ScanError>::Err(ScanError::NoBootDirectory)) == (
            v.boot_dir is None),
    {
        match &v.boot_dir {
            Option::None => {
                proof {
                    assert(self@ =~= self@ + volume_cands(*v));
                }
                Err(ScanError::NoBootDirectory)
            },
            Option::Some(bd) => {
                proof {
                    assert(self@ =~= self@ + children_cands(v.origin@, bd.children@, 0));
                }
                let mut i: usize = 0;
                while i < bd.children.len()
                    invariant
                        i <= bd.children@.len(),
                        v.boot_dir == Option::Some(*bd),
                        forall|j: int| 0 <= j < i ==> !child_aborts(bd.children@[j]),
                        self@ == old(self)@ + children_cands(v.origin@, bd.children@, i as int),
                    decreases bd.children@.len() - i,
                {
                    let c = &bd.children[i];
                    if c.entry.info.is_dir && c.entry.opens {
                        let aborted = self.scan_boot_subdir(&v.origin, &c.entry.info.name, &c.listing);
                        proof {
                            assert(child_scanned(bd.children@[i as int]));
                            assert(self@ == old(self)@ + children_cands(
                                v.origin@,
                                bd.children@,
                                i as int + 1,
                            ));
                        }
                        if aborted {
                            proof {
                                assert(child_aborts(bd.children@[i as int]));
                                lemma_scan_stop_abort(
                                    bd.children@,
                                    i as int,
                                    bd.children@.len() as int,
                                );
                            }
                            return Err(ScanError::DirectoryReadError);
                        }
                        proof {
                            assert(!child_aborts(bd.children@[i as int]));
                        }
                    } else {
                        proof {
                            assert(!child_scanned(bd.children@[i as int]));
                            assert(self@ =~= old(self)@ + children_cands(
                                v.origin@,
                                bd.children@,
                                i as int + 1,
                            ));
                        }
                    }
                    i += 1;
                }
                proof {
                    lemma_scan_stop_clean(bd.children@, bd.children@.len() as int);
                }
                if bd.read_error {
                    Err(ScanError::DirectoryReadError)
                } else {
                    Ok(())
                }
            },
        }
    }

    /// Scans every volume in turn. A volume's failure costs only that
    /// volume's remaining contribution, never the whole run.
    pub fn locate_all(&mut self, volumes: &Vec<VolumeModel>)
        ensures
            final(self)@ == old(self)@ + total_cands(volumes@),
    {
        proof {
            assert(self@ =~= self@ + total_cands(volumes@.take(0)));
        }
        let mut i: usize = 0;
        while i < volumes.len()
            invariant
                i <= volumes@.len(),
                self@ == old(self)@ + total_cands(volumes@.take(i as int)),
            decreases volumes@.len() - i,
        {
            let _ = self.locate_normal_boot_files_in_fs(&volumes[i]);
            proof {
                assert(volumes@.take(i as int + 1).drop_last() =~= volumes@.take(i as int));
                assert(volumes@.take(i as int + 1).last() == volumes@[i as int]);
            }
            i += 1;
        }
        proof {
            assert(volumes@.take(volumes@.len() as int) =~= volumes@);
        }
    }
}

/// Volumes without a usable boot directory contribute nothing: scanning
/// any number of them leaves the registry empty.
pub proof fn lemma_no_boot_dirs_no_candidates(vs: Seq<VolumeModel>)
    requires
        forall|i: int| 0 <= i < vs.len() ==> vs[i].boot_dir is None,
    ensures
        total_cands(vs).len() == 0,
    decreases vs.len(),
{
    if vs.len() > 0 {
        lemma_no_boot_dirs_no_candidates(vs.drop_last());
        assert(vs[vs.len() - 1].boot_dir is None);
    }
}

/// Two listings that agree on their first `n` entries agree on the
/// candidates among them.
proof fn lemma_listing_cands_prefix_agree(
    origin: Seq<PathNode>,
    child: Seq<char>,
    e1: Seq<DirEntry>,
    e2: Seq<DirEntry>,
    n: int,
)
    requires
        0 <= n <= e1.len(),
        n <= e2.len(),
        forall|j: int| 0 <= j < n ==> e1[j] == e2[j],
    ensures
        listing_cands(origin, child, e1, n) == listing_cands(origin, child, e2, n),
    decreases n,
{
    if n > 0 {
        lemma_listing_cands_prefix_agree(origin, child, e1, e2, n - 1);
    }
}

/// An entry whose re-open fails is skipped and costs nothing else: the
/// listing yields exactly the candidates of the same listing with that
/// entry gone. The rest of the directory's scan is unaffected.
pub proof fn lemma_failed_reopen_skipped(
    origin: Seq<PathNode>,
    child: Seq<char>,
    entries: Seq<DirEntry>,
    k: int,
)
    requires
        0 <= k < entries.len(),
        !entries[k].opens,
    ensures
        listing_cands(origin, child, entries, entries.len() as int) == listing_cands(
            origin,
            child,
            entries.remove(k),
            entries.len() - 1,
        ),
{
    lemma_remove_upto(origin, child, entries, k, entries.len() as int);
}

/// The inductive core of `lemma_failed_reopen_skipped`.
proof fn lemma_remove_upto(
    origin: Seq<PathNode>,
    child: Seq<char>,
    entries: Seq<DirEntry>,
    k: int,
    n: int,
)
    requires
        0 <= k < n <= entries.len(),
        !entries[k].opens,
    ensures
        listing_cands(origin, child, entries, n) == listing_cands(
            origin,
            child,
            entries.remove(k),
            n - 1,
        ),
    decreases n,
{
    if n == k + 1 {
        assert(!candidate_kept(origin, entries[k]));
        lemma_listing_cands_prefix_agree(origin, child, entries, entries.remove(k), k);
        assert(listing_cands(origin, child, entries, n) =~= listing_cands(
            origin,
            child,
            entries,
            k,
        ));
    } else {
        lemma_remove_upto(origin, child, entries, k, n - 1);
        assert(entries.remove(k)[n - 2] == entries[n - 1]);
    }
}

} // verus!
