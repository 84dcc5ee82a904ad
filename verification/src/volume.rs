//! Plain-data model of one storage volume, as the discovery scan sees it.
//!
//! The firmware's directory protocol yields entries one at a time, in
//! whatever order it likes, and every open may fail independently. The model
//! records exactly that: each listing is the sequence of entries the protocol
//! yielded, a flag says whether the listing ended in a read error instead of
//! a clean end, and each entry carries the outcome of re-opening it by name.

use vstd::prelude::*;
use crate::path::PathNode;

verus! {

/// One directory entry as reported by the volume: its name and the kind
/// flags from its metadata, plus the content length for regular files.
pub struct EntryInfo {
    /// The entry's file name, one Unicode scalar per element.
    pub name: Vec<char>,
    /// The metadata marks the entry as a directory.
    pub is_dir: bool,
    /// The metadata marks the entry as a regular file.
    pub is_regular: bool,
    /// The content length the metadata reports (meaningful for regular files).
    pub size: u64,
}

/// An entry together with the outcome of re-opening it by name as the kind
/// its metadata advertises. The open can fail even for an entry whose
/// metadata looked right: the volume may have changed between the listing
/// and the open.
pub struct DirEntry {
    pub info: EntryInfo,
    /// Re-opening the entry as its advertised kind succeeded.
    pub opens: bool,
}

/// What one directory yielded: its entries in protocol order, and whether
/// the enumeration ended with a read error rather than a clean end.
pub struct DirListing {
    pub entries: Vec<DirEntry>,
    /// The read that would have followed the last entry failed.
    pub read_error: bool,
}

/// One immediate child of the top-level boot directory, paired with the
/// listing obtained by opening it as a directory. For a child that is not a
/// directory, or whose open failed, the listing is never consulted.
pub struct ChildDir {
    pub entry: DirEntry,
    pub listing: DirListing,
}

/// The top-level boot directory of one volume: its children in protocol
/// order, and whether enumerating them ended in a read error.
pub struct BootDir {
    pub children: Vec<ChildDir>,
    /// The read that would have followed the last child failed.
    pub read_error: bool,
}

/// One volume: its own location in the platform's device graph, and its
/// top-level boot directory, if one could be opened as a directory at all.
pub struct VolumeModel {
    /// The device-path nodes locating the volume itself.
    pub origin: Vec<PathNode>,
    /// `None` when the volume has no top-level boot directory, or it could
    /// not be opened, or it is not in fact a directory.
    pub boot_dir: Option<BootDir>,
}

/// The file-name suffix that marks a bootable image.
pub open spec fn has_boot_suffix(name: Seq<char>) -> bool {
    &&& name.len() >= 4
    &&& name[name.len() - 4] == '.'
    &&& name[name.len() - 3] == 'e'
    &&& name[name.len() - 2] == 'f'
    &&& name[name.len() - 1] == 'i'
}

/// An entry is a boot-image candidate when its metadata marks it as a
/// regular file and its name carries the boot-image suffix. The comparison
/// is case sensitive: `.EFI` does not match.
pub open spec fn spec_is_boot_image(e: EntryInfo) -> bool {
    e.is_regular && has_boot_suffix(e.name@)
}

/// Decides whether an entry is a boot-image candidate.
pub fn is_boot_image(e: &EntryInfo) -> (r: bool)
    ensures
        r == spec_is_boot_image(*e),
{
    let n = e.name.len();
    if !e.is_regular || n < 4 {
        return false;
    }
    e.name[n - 4] == '.' && e.name[n - 3] == 'e' && e.name[n - 2] == 'f' && e.name[n - 1] == 'i'
}

} // verus!
