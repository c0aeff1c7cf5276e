//! The filter view: a derived, recomputed-on-demand projection of the
//! directory under a text predicate, carrying the cursor.
use vstd::prelude::*;

use crate::directory::Directory;
use crate::record::{RecordModel, matches_predicate};
use crate::text::contains_ci_exec;

verus! {

/// The indices of the records of `s` that match predicate `p`, in order.
pub open spec fn matching_indices(s: Seq<RecordModel>, p: Seq<u8>) -> Seq<usize>
    decreases s.len(),
{
    if s.len() == 0 {
        Seq::empty()
    } else {
        let prefix = matching_indices(s.drop_last(), p);
        if matches_predicate(s.last(), p) {
            prefix.push((s.len() - 1) as usize)
        } else {
            prefix
        }
    }
}

/// The records of `s` listed by the view under predicate `p`.
pub open spec fn view_records(s: Seq<RecordModel>, p: Seq<u8>) -> Seq<RecordModel> {
    matching_indices(s, p).map_values(|i: usize| s[i as int])
}

/// The records of `s` that match `p`, in order.
pub open spec fn matching_records(s: Seq<RecordModel>, p: Seq<u8>) -> Seq<RecordModel> {
    s.filter(|m: RecordModel| matches_predicate(m, p))
}

/// The cursor position after a recomputation: the first entry, or nothing
/// when the view is empty.
pub open spec fn reset_cursor(len: nat) -> Option<usize> {
    if len == 0 {
        None
    } else {
        Some(0usize)
    }
}

/// Matching indices are in range, strictly increasing, and point at matching
/// records.
pub proof fn lemma_matching_indices_sound(s: Seq<RecordModel>, p: Seq<u8>)
    requires
        s.len() <= usize::MAX,
    ensures
        forall|k: int|
            0 <= k < matching_indices(s, p).len() ==> (#[trigger] matching_indices(s, p)[k])
                < s.len() && matches_predicate(s[matching_indices(s, p)[k] as int], p),
        forall|k1: int, k2: int|
            0 <= k1 < k2 < matching_indices(s, p).len() ==> matching_indices(s, p)[k1]
                < matching_indices(s, p)[k2],
        matching_indices(s, p).len() <= s.len(),
    decreases s.len(),
{
    if s.len() > 0 {
        lemma_matching_indices_sound(s.drop_last(), p);
        let mi = matching_indices(s, p);
        let mip = matching_indices(s.drop_last(), p);
        assert(forall|k: int|
            0 <= k < mip.len() ==> s.drop_last()[(#[trigger] mip[k]) as int] == s[mip[k] as int]);
        if matches_predicate(s.last(), p) {
            assert(mi == mip.push((s.len() - 1) as usize));
            assert(forall|k: int| 0 <= k < mip.len() ==> mi[k] == #[trigger] mip[k]);
            assert(mi[mi.len() - 1] == (s.len() - 1) as usize);
        } else {
            assert(mi == mip);
        }
    }
}

/// The matching indices depend only on the records' mint texts.
pub proof fn lemma_matching_indices_mint_only(s1: Seq<RecordModel>, s2: Seq<RecordModel>, p: Seq<u8>)
    requires
        s1.len() == s2.len(),
        forall|i: int| 0 <= i < s1.len() ==> (#[trigger] s1[i]).mint == s2[i].mint,
    ensures
        matching_indices(s1, p) == matching_indices(s2, p),
    decreases s1.len(),
{
    if s1.len() > 0 {
        assert(s1.drop_last().len() == s2.drop_last().len());
        assert(forall|i: int|
            0 <= i < s1.drop_last().len() ==> (#[trigger] s1.drop_last()[i]).mint
                == s2.drop_last()[i].mint);
        lemma_matching_indices_mint_only(s1.drop_last(), s2.drop_last(), p);
        assert(s1.last().mint == s2.last().mint);
    }
}

/// Law: the view under predicate `p` lists exactly the records whose mint
/// text contains `p` case-insensitively, in directory order.
pub proof fn lemma_filter_correct(s: Seq<RecordModel>, p: Seq<u8>)
    requires
        s.len() <= usize::MAX,
    ensures
        view_records(s, p) == matching_records(s, p),
    decreases s.len(),
{
    reveal(Seq::filter);
    if s.len() == 0 {
        assert(view_records(s, p) =~= matching_records(s, p));
    } else {
        lemma_filter_correct(s.drop_last(), p);
        lemma_matching_indices_sound(s.drop_last(), p);
        let mi = matching_indices(s, p);
        let mip = matching_indices(s.drop_last(), p);
        assert(forall|k: int|
            0 <= k < mip.len() ==> s[(#[trigger] mip[k]) as int] == s.drop_last()[mip[k] as int]);
        if matches_predicate(s.last(), p) {
            assert(mi == mip.push((s.len() - 1) as usize));
            assert(view_records(s, p) =~= view_records(s.drop_last(), p).push(s.last()));
            assert(matching_records(s, p) == matching_records(s.drop_last(), p).push(s.last()));
        } else {
            assert(mi == mip);
            assert(view_records(s, p) =~= view_records(s.drop_last(), p));
            assert(matching_records(s, p) == matching_records(s.drop_last(), p));
        }
    }
}

/// A derived, predicate-filtered, cursor-bearing projection of the directory.
pub struct FilterView {
    /// The current filter text.
    pub predicate: Vec<u8>,
    /// Indices into the directory of the records that match the predicate.
    pub indices: Vec<usize>,
    /// The position of the highlighted row within `indices`, or none when
    /// the view is empty.
    pub cursor: Option<usize>,
}

impl FilterView {
    /// The view's invariant relative to the directory it projects: its
    /// entries are exactly the matching indices and the cursor is in range
    /// exactly when the view is non-empty.
    pub open spec fn wf(self, dir: Directory) -> bool {
        &&& self.indices@ == matching_indices(dir@, self.predicate@)
        &&& match self.cursor {
            Some(c) => c < self.indices@.len(),
            None => self.indices@.len() == 0,
        }
    }

    /// The state apply_predicate leaves the view in: determined by the
    /// directory and the predicate alone.
    pub open spec fn applied(self, dir: Directory, p: Seq<u8>) -> bool {
        &&& self.predicate@ == p
        &&& self.indices@ == matching_indices(dir@, p)
        &&& self.cursor == reset_cursor(matching_indices(dir@, p).len())
    }

    /// Law: re-applying the same predicate yields the same view as applying
    /// it once — the recomputed view depends only on the directory and the
    /// predicate, never on the prior view state.
    pub proof fn lemma_refilter_idempotent(v1: FilterView, v2: FilterView, dir: Directory, p: Seq<u8>)
        requires
            v1.applied(dir, p),
            v2.applied(dir, p),
        ensures
            v1.predicate@ == v2.predicate@,
            v1.indices@ == v2.indices@,
            v1.cursor == v2.cursor,
    {
    }

    /// Recomputes the view under the given predicate text and resets the
    /// cursor to the first matching entry, or to none when no record
    /// matches.
    pub fn apply_predicate(&mut self, dir: &Directory, text: Vec<u8>)
        ensures
            final(self).applied(*dir, text@),
            final(self).wf(*dir),
    {
        let mut indices: Vec<usize> = Vec::new();
        let mut i: usize = 0;
        while i < dir.records.len()
            invariant
                i <= dir.records@.len(),
                dir@.len() == dir.records@.len(),
                indices@ == matching_indices(dir@.subrange(0, i as int), text@),
            decreases dir.records@.len() - i,
        {
            let ghost prefix = dir@.subrange(0, i as int);
            proof {
                assert(dir@.subrange(0, i + 1).drop_last() =~= prefix);
                assert(dir@.subrange(0, i + 1).last() == dir@[i as int]);
                assert(dir@.subrange(0, i + 1).len() == i + 1);
            }
            if contains_ci_exec(&dir.records[i].mint, &text) {
                indices.push(i);
            }
            i += 1;
        }
        proof {
            assert(dir@.subrange(0, dir@.len() as int) =~= dir@);
        }
        let cursor: Option<usize> = if indices.len() == 0 {
            None
        } else {
            Some(0usize)
        };
        self.predicate = text;
        self.indices = indices;
        self.cursor = cursor;
    }

    /// Clears the predicate: equivalent to applying the empty predicate.
    pub fn clear_predicate(&mut self, dir: &Directory)
        ensures
            final(self).applied(*dir, Seq::<u8>::empty()),
            final(self).wf(*dir),
    {
        let empty: Vec<u8> = Vec::new();
        proof {
            assert(empty@ =~= Seq::<u8>::empty());
        }
        self.apply_predicate(dir, empty);
    }

    /// Where the cursor lands after a step forward: wraps from the last
    /// entry to the first; a view that was never navigated starts at the
    /// first entry; an empty view stays without a cursor.
    pub open spec fn next_cursor(c: Option<usize>, len: nat) -> Option<usize> {
        if len == 0 {
            None
        } else {
            match c {
                None => Some(0usize),
                Some(k) => if k + 1 >= len {
                    Some(0usize)
                } else {
                    Some((k + 1) as usize)
                },
            }
        }
    }

    /// Where the cursor lands after a step back: wraps from the first entry
    /// to the last.
    pub open spec fn prev_cursor(c: Option<usize>, len: nat) -> Option<usize> {
        if len == 0 {
            None
        } else {
            match c {
                None => Some(0usize),
                Some(k) => if k == 0 {
                    Some((len - 1) as usize)
                } else {
                    Some((k - 1) as usize)
                },
            }
        }
    }

    /// Moves the cursor forward with wraparound; a no-op on an empty view.
    pub fn cursor_next(&mut self)
        requires
            match old(self).cursor {
                Some(c) => c < old(self).indices@.len(),
                None => true,
            },
        ensures
            final(self).predicate == old(self).predicate,
            final(self).indices == old(self).indices,
            final(self).cursor == Self::next_cursor(old(self).cursor, old(self).indices@.len()),
    {
        let len = self.indices.len();
        if len == 0 {
            return ;
        }
        let c: usize = match self.cursor {
            None => 0,
            Some(k) => if k + 1 >= len {
                0
            } else {
                k + 1
            },
        };
        self.cursor = Some(c);
    }

    /// Moves the cursor back with wraparound; a no-op on an empty view.
    pub fn cursor_prev(&mut self)
        requires
            match old(self).cursor {
                Some(c) => c < old(self).indices@.len(),
                None => true,
            },
        ensures
            final(self).predicate == old(self).predicate,
            final(self).indices == old(self).indices,
            final(self).cursor == Self::prev_cursor(old(self).cursor, old(self).indices@.len()),
    {
        let len = self.indices.len();
        if len == 0 {
            return ;
        }
        let c: usize = match self.cursor {
            None => 0,
            Some(k) => if k == 0 {
                len - 1
            } else {
                k - 1
            },
        };
        self.cursor = Some(c);
    }

    /// The cursor's position in the view, or none when the view is empty.
    pub fn current(&self) -> (r: Option<usize>)
        ensures
            r == self.cursor,
    {
        self.cursor
    }
}

} // verus!
