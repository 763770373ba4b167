//! Aggregate sizes and the sum of blob lengths over a finite map.

use vstd::prelude::*;
use crate::keyed::{is_listing, lemma_paired_dom, lemma_paired_push, paired, views};

verus! {

/// The byte totals of the three categories of stored state.
#[derive(Clone, Copy, Debug, PartialEq, Eq, Structural)]
pub struct StoredSizes {
    /// Sum of the lengths of all stored changes.
    pub changes: usize,
    /// Length of the stored document snapshot, zero when there is none.
    pub document: usize,
    /// Sum of the lengths of all stored sync states.
    pub sync_states: usize,
}

impl Default for StoredSizes {
    fn default() -> (s: Self)
        ensures
            s.changes == 0,
            s.document == 0,
            s.sync_states == 0,
    {
        StoredSizes { changes: 0, document: 0, sync_states: 0 }
    }
}

impl StoredSizes {
    /// Accounts for a change that was stored: `replaced` is the length of the
    /// blob that the same identity held before, if it held one.
    pub fn change_stored(&mut self, replaced: Option<usize>, len: usize)
        requires
            stored_fits(old(self).changes, replaced, len),
        ensures
            final(self).changes == after_store(old(self).changes, replaced, len),
            final(self).document == old(self).document,
            final(self).sync_states == old(self).sync_states,
    {
        self.changes = settle(self.changes, replaced, len);
    }

    /// Accounts for a change of length `len` that was removed.
    pub fn change_removed(&mut self, len: usize)
        requires
            len <= old(self).changes,
        ensures
            final(self).changes == old(self).changes - len,
            final(self).document == old(self).document,
            final(self).sync_states == old(self).sync_states,
    {
        self.changes = self.changes - len;
    }

    /// Accounts for a document of length `len` that took the place of
    /// whatever document was stored before.
    pub fn document_stored(&mut self, len: usize)
        ensures
            final(self).document == len,
            final(self).changes == old(self).changes,
            final(self).sync_states == old(self).sync_states,
    {
        self.document = len;
    }

    /// Accounts for a sync state that was stored: `replaced` is the length of
    /// the blob that the same peer held before, if it held one.
    pub fn sync_state_stored(&mut self, replaced: Option<usize>, len: usize)
        requires
            stored_fits(old(self).sync_states, replaced, len),
        ensures
            final(self).sync_states == after_store(old(self).sync_states, replaced, len),
            final(self).changes == old(self).changes,
            final(self).document == old(self).document,
    {
        self.sync_states = settle(self.sync_states, replaced, len);
    }

    /// Accounts for a sync state of length `len` that was removed.
    pub fn sync_state_removed(&mut self, len: usize)
        requires
            len <= old(self).sync_states,
        ensures
            final(self).sync_states == old(self).sync_states - len,
            final(self).changes == old(self).changes,
            final(self).document == old(self).document,
    {
        self.sync_states = self.sync_states - len;
    }
}

/// A total after a blob of length `len` took the place of one of length
/// `replaced`, or was added where `replaced` is `None`.
pub open spec fn after_store(total: usize, replaced: Option<usize>, len: usize) -> int {
    match replaced {
        Some(old_len) => total - old_len + len,
        None => total + len,
    }
}

/// Whether [`after_store`] stays within the total's range.
pub open spec fn stored_fits(total: usize, replaced: Option<usize>, len: usize) -> bool {
    &&& after_store(total, replaced, len) <= usize::MAX
    &&& replaced matches Some(old_len) ==> old_len <= total
}

/// Whether a store can be accounted for, see [`stored_fits`].
pub fn can_store(total: usize, replaced: Option<usize>, len: usize) -> (b: bool)
    ensures
        b == stored_fits(total, replaced, len),
{
    match replaced {
        Some(old_len) => old_len <= total && len <= usize::MAX - (total - old_len),
        None => len <= usize::MAX - total,
    }
}

/// The total after a store, see [`after_store`].
fn settle(total: usize, replaced: Option<usize>, len: usize) -> (r: usize)
    requires
        stored_fits(total, replaced, len),
    ensures
        r == after_store(total, replaced, len),
{
    match replaced {
        Some(old_len) => total - old_len + len,
        None => total + len,
    }
}

/// Sum of the lengths of the blobs of a finite map; zero for an infinite one.
pub open spec fn total_len<K>(m: Map<K, Seq<u8>>) -> nat
    decreases m.dom().len(),
    when m.dom().finite()
{
    if m.dom().len() == 0 {
        0
    } else {
        let k = m.dom().choose();
        m[k].len() + total_len(m.remove(k))
    }
}

/// Length of an optional blob, zero when it is absent.
pub open spec fn blob_len(blob: Option<Seq<u8>>) -> nat {
    match blob {
        Some(b) => b.len(),
        None => 0,
    }
}

/// What a reader sees of a stored blob: an empty blob reads as absent.
pub open spec fn visible(blob: Option<Seq<u8>>) -> Option<Seq<u8>> {
    match blob {
        Some(b) => if b.len() == 0 { None } else { Some(b) },
        None => None,
    }
}

/// Any stored key can be split off the total.
pub proof fn lemma_total_remove<K>(m: Map<K, Seq<u8>>, k: K)
    requires
        m.dom().finite(),
        m.contains_key(k),
    ensures
        total_len(m) == total_len(m.remove(k)) + m[k].len(),
    decreases m.dom().len(),
{
    let c = m.dom().choose();
    if c != k {
        let mc = m.remove(c);
        let mk = m.remove(k);
        lemma_total_remove(mc, k);
        lemma_total_remove(mk, c);
        assert(mc.remove(k) =~= mk.remove(c));
    }
}

/// Storing a blob under a key replaces what the key held before.
pub proof fn lemma_total_insert<K>(m: Map<K, Seq<u8>>, k: K, v: Seq<u8>)
    requires
        m.dom().finite(),
    ensures
        total_len(m.insert(k, v)) == total_len(m.remove(k)) + v.len(),
        total_len(m.remove(k)) <= total_len(m),
        m.contains_key(k) ==> total_len(m) == total_len(m.remove(k)) + m[k].len(),
        !m.contains_key(k) ==> m.remove(k) == m,
{
    let mi = m.insert(k, v);
    lemma_total_remove(mi, k);
    assert(mi.remove(k) =~= m.remove(k));
    if m.contains_key(k) {
        lemma_total_remove(m, k);
    } else {
        assert(m.remove(k) =~= m);
    }
}

/// Sum of the lengths of a list of blobs.
pub open spec fn sum_len(blobs: Seq<Seq<u8>>) -> nat
    decreases blobs.len(),
{
    if blobs.len() == 0 {
        0
    } else {
        sum_len(blobs.drop_last()) + blobs.last().len()
    }
}

/// Sum of the lengths of a list of blobs, `None` where it exceeds `usize`.
pub fn total_of(blobs: &Vec<Vec<u8>>) -> (r: Option<usize>)
    ensures
        match r {
            Some(n) => n == sum_len(views(blobs@)),
            None => sum_len(views(blobs@)) > usize::MAX,
        },
{
    let ghost all = views(blobs@);
    let mut total: usize = 0;
    let mut i: usize = 0;
    proof {
        assert(all.take(0) =~= Seq::empty());
    }
    while i < blobs.len()
        invariant
            i <= blobs.len(),
            all == views(blobs@),
            total == sum_len(all.take(i as int)),
        decreases blobs.len() - i,
    {
        proof {
            assert(all.take(i + 1).drop_last() =~= all.take(i as int));
            lemma_sum_len_take(all, i + 1);
        }
        match total.checked_add(blobs[i].len()) {
            Some(t) => {
                total = t;
            },
            None => {
                return None;
            },
        }
        i = i + 1;
    }
    proof {
        assert(all.take(blobs.len() as int) =~= all);
    }
    Some(total)
}

/// A prefix of a list is no longer in sum than the list.
pub proof fn lemma_sum_len_take(blobs: Seq<Seq<u8>>, n: int)
    requires
        0 <= n <= blobs.len(),
    ensures
        sum_len(blobs.take(n)) <= sum_len(blobs),
    decreases blobs.len(),
{
    if n == blobs.len() {
        assert(blobs.take(n) =~= blobs);
    } else {
        assert(blobs.take(n) =~= blobs.drop_last().take(n));
        lemma_sum_len_take(blobs.drop_last(), n);
    }
}

/// The blobs of a listing of a map add up to the map's total.
pub proof fn lemma_listing_total<K>(keys: Seq<K>, blobs: Seq<Seq<u8>>, m: Map<K, Seq<u8>>)
    requires
        is_listing(keys, blobs, m),
    ensures
        sum_len(blobs) == total_len(m),
        m.dom().finite(),
    decreases keys.len(),
{
    lemma_paired_dom(keys, blobs);
    if keys.len() == 0 {
        assert(m.dom() =~= Set::<K>::empty());
    } else {
        let ks = keys.drop_last();
        let bs = blobs.drop_last();
        let k = keys.last();
        let b = blobs.last();
        assert(ks.push(k) =~= keys);
        assert(bs.push(b) =~= blobs);
        assert(ks.no_duplicates());
        assert(!ks.contains(k)) by {
            if ks.contains(k) {
                let i = ks.index_of(k);
                assert(keys[i] == keys[keys.len() - 1]);
            }
        }
        let inner = paired(ks, bs);
        lemma_paired_push(ks, bs, k, b);
        lemma_listing_total(ks, bs, inner);
        lemma_paired_dom(ks, bs);
        assert(!inner.contains_key(k));
        lemma_total_insert(inner, k, b);
    }
}

} // verus!
