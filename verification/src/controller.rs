//! The selection controller: drives selection flags on the directory while
//! keeping the filter view consistent with it.
use vstd::prelude::*;

use crate::directory::{
    Directory, addr_index, all_set, has_address, lemma_addr_index_unique, selected_models,
};
use crate::record::{AccountRecord, RecordModel, with_selected, clone_bytes};
use crate::view::{FilterView, lemma_matching_indices_sound, lemma_matching_indices_mint_only};

verus! {

/// One interactive session: the directory of discovered accounts and the
/// filter view derived from it.
pub struct Session {
    pub directory: Directory,
    pub view: FilterView,
}

impl Session {
    /// The session's invariant: the directory is well-formed and the view is
    /// a faithful projection of it.
    pub open spec fn wf(self) -> bool {
        &&& self.directory.wf()
        &&& self.view.wf(self.directory)
    }

    /// The selection flag the view shows for view row `i`.
    pub open spec fn view_flag(self, i: int) -> bool {
        self.directory@[self.view.indices@[i] as int].selected
    }

    /// The directory address underlying view row `i`.
    pub open spec fn address_at(self, i: int) -> Seq<u8> {
        self.directory@[self.view.indices@[i] as int].address
    }

    /// The selection flag of the directory record that address `a` resolves
    /// to.
    pub open spec fn directory_flag(self, a: Seq<u8>) -> bool {
        self.directory@[addr_index(self.directory@, a)].selected
    }

    /// Law: in a well-formed session the flag shown for every view row
    /// equals the directory's flag for the address underlying that row;
    /// since every operation below ensures well-formedness, the view is
    /// never observably stale across an operation boundary.
    pub proof fn lemma_selection_filter_consistent(self, i: int)
        requires
            self.wf(),
            0 <= i < self.view.indices@.len(),
        ensures
            self.view_flag(i) == self.directory_flag(self.address_at(i)),
    {
        lemma_matching_indices_sound(self.directory@, self.view.predicate@);
        let k = self.view.indices@[i] as int;
        lemma_addr_index_unique(self.directory@, k);
    }

    /// Starts a session over a loaded directory, with an empty predicate.
    pub fn new(directory: Directory) -> (r: Session)
        requires
            directory.wf(),
        ensures
            r.wf(),
            r.directory == directory,
            r.view.applied(directory, Seq::<u8>::empty()),
    {
        let mut view = FilterView { predicate: Vec::new(), indices: Vec::new(), cursor: None };
        view.clear_predicate(&directory);
        Session { directory, view }
    }

    /// Resolves the view cursor to the underlying directory address and
    /// flips that record's selection flag; a no-op when the cursor is none.
    /// The view itself (predicate, entries, cursor) is unchanged, and stays
    /// consistent because matching depends only on mint texts.
    pub fn toggle_current(&mut self)
        requires
            old(self).wf(),
        ensures
            final(self).wf(),
            final(self).view == old(self).view,
            match old(self).view.cursor {
                None => final(self).directory@ == old(self).directory@,
                Some(c) => {
                    let k = old(self).view.indices@[c as int] as int;
                    final(self).directory@ == old(self).directory@.update(
                        k,
                        with_selected(
                            old(self).directory@[k],
                            !old(self).directory@[k].selected,
                        ),
                    )
                },
            },
    {
        proof {
            lemma_matching_indices_sound(old(self).directory@, old(self).view.predicate@);
        }
        match self.view.current() {
            None => (),
            Some(c) => {
                let i = self.view.indices[c];
                let address = clone_bytes(&self.directory.records[i].address);
                proof {
                    lemma_addr_index_unique(self.directory@, i as int);
                }
                self.directory.toggle(&address);
                proof {
                    let ghost p = self.view.predicate@;
                    assert(forall|t: int|
                        0 <= t < self.directory@.len() ==> (#[trigger] self.directory@[t]).mint
                            == old(self).directory@[t].mint);
                    lemma_matching_indices_mint_only(self.directory@, old(self).directory@, p);
                }
            },
        }
    }

    /// Selects every record in the directory; the view is unchanged and
    /// stays consistent.
    pub fn select_all(&mut self)
        requires
            old(self).wf(),
        ensures
            final(self).wf(),
            final(self).view == old(self).view,
            final(self).directory@ == all_set(old(self).directory@, true),
    {
        self.set_all_flags(true);
    }

    /// Clears every record's selection; the view is unchanged and stays
    /// consistent.
    pub fn clear_all(&mut self)
        requires
            old(self).wf(),
        ensures
            final(self).wf(),
            final(self).view == old(self).view,
            final(self).directory@ == all_set(old(self).directory@, false),
    {
        self.set_all_flags(false);
    }

    /// Sets every record's flag to the given value; the view is unchanged.
    fn set_all_flags(&mut self, value: bool)
        requires
            old(self).wf(),
        ensures
            final(self).wf(),
            final(self).view == old(self).view,
            final(self).directory@ == all_set(old(self).directory@, value),
    {
        self.directory.set_all(value);
        proof {
            let ghost p = self.view.predicate@;
            assert(forall|t: int|
                0 <= t < self.directory@.len() ==> (#[trigger] self.directory@[t]).mint == old(
                    self,
                ).directory@[t].mint);
            lemma_matching_indices_mint_only(self.directory@, old(self).directory@, p);
        }
    }

    /// Recomputes the view under the given predicate text, resetting the
    /// cursor to the first match or to none.
    pub fn apply_predicate(&mut self, text: Vec<u8>)
        requires
            old(self).wf(),
        ensures
            final(self).wf(),
            final(self).directory == old(self).directory,
            final(self).view.applied(old(self).directory, text@),
    {
        self.view.apply_predicate(&self.directory, text);
    }

    /// Clears the predicate: the view becomes the full directory.
    pub fn clear_predicate(&mut self)
        requires
            old(self).wf(),
        ensures
            final(self).wf(),
            final(self).directory == old(self).directory,
            final(self).view.applied(old(self).directory, Seq::<u8>::empty()),
    {
        self.view.clear_predicate(&self.directory);
    }

    /// Moves the view cursor forward with wraparound.
    pub fn cursor_next(&mut self)
        requires
            old(self).wf(),
        ensures
            final(self).wf(),
            final(self).directory == old(self).directory,
            final(self).view.predicate == old(self).view.predicate,
            final(self).view.indices == old(self).view.indices,
            final(self).view.cursor == FilterView::next_cursor(
                old(self).view.cursor,
                old(self).view.indices@.len(),
            ),
    {
        self.view.cursor_next();
    }

    /// Moves the view cursor back with wraparound.
    pub fn cursor_prev(&mut self)
        requires
            old(self).wf(),
        ensures
            final(self).wf(),
            final(self).directory == old(self).directory,
            final(self).view.predicate == old(self).view.predicate,
            final(self).view.indices == old(self).view.indices,
            final(self).view.cursor == FilterView::prev_cursor(
                old(self).view.cursor,
                old(self).view.indices@.len(),
            ),
    {
        self.view.cursor_prev();
    }

    /// The cursor's position in the view, or none when the view is empty.
    pub fn current(&self) -> (r: Option<usize>)
        ensures
            r == self.view.cursor,
    {
        self.view.current()
    }

    /// A snapshot of all currently selected records, in directory order.
    pub fn selected_records(&self) -> (r: Vec<AccountRecord>)
        ensures
            crate::directory::models_of(r@) == selected_models(self.directory@),
    {
        self.directory.selected_records()
    }
}

} // verus!
