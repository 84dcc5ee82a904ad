//! Directory entry cursor: a single-pass, non-resettable walk over one
//! directory's listing, looking for boot-image candidates.
//!
//! The underlying protocol only offers "read the next entry or none", so
//! the cursor keeps a position, never visits an entry twice, and skips
//! rejected entries for good. Callers that need a second pass must start
//! a fresh cursor over a freshly opened directory.

use vstd::prelude::*;
use crate::volume::{DirListing, spec_is_boot_image, is_boot_image};

verus! {

/// What one search step yields: the index of the next matching entry, a
/// clean end of the listing, or the listing's trailing read error.
pub enum CursorOutcome {
    Found(usize),
    Exhausted,
    ReadError,
}

/// The cursor's position within a listing: the number of entries already
/// consumed.
pub struct DirCursor {
    pub pos: usize,
}

impl DirCursor {
    /// A cursor that has consumed nothing.
    pub fn new() -> (r: Self)
        ensures
            r.pos == 0,
    {
        DirCursor { pos: 0 }
    }

    /// Consumes entries until one is a boot-image candidate, the listing
    /// ends, or the listing's read error is reached. Skipped entries are
    /// never candidates and are never visited again.
    pub fn find_next_matching(&mut self, listing: &DirListing) -> (r: CursorOutcome)
        requires
            old(self).pos <= listing.entries@.len(),
        ensures
            match r {
                CursorOutcome::Found(j) => {
                    &&& old(self).pos <= j < listing.entries@.len()
                    &&& spec_is_boot_image(listing.entries@[j as int].info)
                    &&& forall|k: int|
                        old(self).pos <= k < j ==> !spec_is_boot_image(listing.entries@[k].info)
                    &&& final(self).pos == j + 1
                },
                CursorOutcome::Exhausted => {
                    &&& !listing.read_error
                    &&& forall|k: int|
                        old(self).pos <= k < listing.entries@.len()
                            ==> !spec_is_boot_image(listing.entries@[k].info)
                    &&& final(self).pos == listing.entries@.len()
                },
                CursorOutcome::ReadError => {
                    &&& listing.read_error
                    &&& forall|k: int|
                        old(self).pos <= k < listing.entries@.len()
                            ==> !spec_is_boot_image(listing.entries@[k].info)
                    &&& final(self).pos == listing.entries@.len()
                },
            },
    {
        while self.pos < listing.entries.len()
            invariant
                old(self).pos <= self.pos <= listing.entries@.len(),
                forall|k: int|
                    old(self).pos <= k < self.pos
                        ==> !spec_is_boot_image(listing.entries@[k].info),
            decreases listing.entries@.len() - self.pos,
        {
            if is_boot_image(&listing.entries[self.pos].info) {
                let j = self.pos;
                self.pos = self.pos + 1;
                return CursorOutcome::Found(j);
            }
            self.pos = self.pos + 1;
        }
        if listing.read_error {
            CursorOutcome::ReadError
        } else {
            CursorOutcome::Exhausted
        }
    }
}

} // verus!
