//! Laws of the model: what holds of every state and of every sequence of
//! operations, whatever the backend.

use vstd::prelude::*;
use crate::model::{
    held_len, insert_all, lemma_batch_of_one, lookup, remove_all, Op, Stored,
};
use crate::sizes::{
    after_store, lemma_total_insert, lemma_total_remove, stored_fits, total_len, visible,
};

verus! {

/// The length that a store under `k` replaces, as the accountant takes it.
pub open spec fn replaced_by<K>(m: Map<K, Seq<u8>>, k: K) -> Option<usize> {
    if m.contains_key(k) {
        Some(m[k].len() as usize)
    } else {
        None
    }
}

/// A blob of a finite map is no longer than the total.
pub proof fn law_blob_within_total<K>(m: Map<K, Seq<u8>>, k: K)
    requires
        m.dom().finite(),
    ensures
        held_len(m, k) <= total_len(m),
        total_len(m.remove(k)) == total_len(m) - held_len(m, k),
        m.remove(k).dom().finite(),
{
    if m.contains_key(k) {
        lemma_total_remove(m, k);
    } else {
        assert(m.remove(k) =~= m);
    }
}

/// Size accounting of a store is exact: where the total was the sum of the
/// stored lengths and the length that the store replaces is taken off, the
/// new total is the sum of the stored lengths again.
pub proof fn law_store_is_exact<K>(m: Map<K, Seq<u8>>, k: K, v: Seq<u8>, total: usize)
    requires
        m.dom().finite(),
        total == total_len(m),
        total_len(m.insert(k, v)) <= usize::MAX,
    ensures
        stored_fits(total, replaced_by(m, k), v.len() as usize),
        after_store(total, replaced_by(m, k), v.len() as usize) == total_len(m.insert(k, v)),
        total_len(m.insert(k, v)) == total_len(m) - held_len(m, k) + v.len(),
        m.insert(k, v).dom().finite(),
{
    lemma_total_insert(m, k, v);
    law_blob_within_total(m, k);
}

/// Size accounting of a removal is exact: taking off the length of the
/// removed blob, or nothing where the key held none, gives the sum of the
/// stored lengths again.
pub proof fn law_removal_is_exact<K>(m: Map<K, Seq<u8>>, k: K, total: usize)
    requires
        m.dom().finite(),
        total == total_len(m),
    ensures
        held_len(m, k) <= total,
        total - held_len(m, k) == total_len(m.remove(k)),
{
    law_blob_within_total(m, k);
}

/// Running keeps a finite state finite.
pub proof fn law_run_is_finite<C, P>(s: Stored<C, P>, ops: Seq<Op<C, P>>)
    requires
        s.finite(),
    ensures
        s.run(ops).finite(),
    decreases ops.len(),
{
    if ops.len() > 0 {
        law_run_is_finite(s, ops.drop_last());
    }
}

/// Size accounting is exact along every sequence of operations: sizes that
/// start as the sums of the stored lengths and are kept step by step are the
/// sums of the stored lengths after the sequence.
pub proof fn law_sizes_exact<C, P>(s: Stored<C, P>, ops: Seq<Op<C, P>>)
    requires
        s.finite(),
    ensures
        s.tally_run(s.tally(), ops) == s.run(ops).tally(),
    decreases ops.len(),
{
    if ops.len() > 0 {
        let before = s.run(ops.drop_last());
        law_sizes_exact(s, ops.drop_last());
        law_run_is_finite(s, ops.drop_last());
        match ops.last() {
            Op::InsertChange(c, blob) => {
                lemma_total_insert(before.changes, c, blob);
                law_blob_within_total(before.changes, c);
            },
            Op::RemoveChange(c) => {
                law_blob_within_total(before.changes, c);
            },
            Op::SetDocument(data) => {},
            Op::SetSyncState(p, state) => {
                lemma_total_insert(before.sync_states, p, state);
                law_blob_within_total(before.sync_states, p);
            },
            Op::RemoveSyncState(p) => {
                law_blob_within_total(before.sync_states, p);
            },
        }
    }
}

/// The operations that store the changes of a batch, one by one.
pub open spec fn insert_ops<C, P>(batch: Seq<(C, Seq<u8>)>) -> Seq<Op<C, P>> {
    Seq::new(batch.len(), |i: int| Op::InsertChange(batch[i].0, batch[i].1))
}

/// The operations that remove the changes of a batch, one by one.
pub open spec fn remove_ops<C, P>(ids: Seq<C>) -> Seq<Op<C, P>> {
    Seq::new(ids.len(), |i: int| Op::RemoveChange(ids[i]))
}

/// The operations that remove the sync states of a batch, one by one.
pub open spec fn forget_ops<C, P>(peers: Seq<P>) -> Seq<Op<C, P>> {
    Seq::new(peers.len(), |i: int| Op::RemoveSyncState(peers[i]))
}

/// A batch is the sequence of its single operations.
pub proof fn law_batch_is_sequence<C, P>(s: Stored<C, P>, batch: Seq<(C, Seq<u8>)>, ids: Seq<C>, peers: Seq<P>)
    ensures
        s.insert_changes(batch) == s.run(insert_ops(batch)),
        s.remove_changes(ids) == s.run(remove_ops(ids)),
        s.remove_sync_states(peers) == s.run(forget_ops(peers)),
    decreases batch.len() + ids.len() + peers.len(),
{
    if batch.len() > 0 {
        law_batch_is_sequence(s, batch.drop_last(), Seq::empty(), Seq::empty());
        assert(insert_ops::<C, P>(batch).drop_last() =~= insert_ops::<C, P>(batch.drop_last()));
    }
    if ids.len() > 0 {
        law_batch_is_sequence(s, Seq::empty(), ids.drop_last(), Seq::empty());
        assert(remove_ops::<C, P>(ids).drop_last() =~= remove_ops::<C, P>(ids.drop_last()));
    }
    if peers.len() > 0 {
        law_batch_is_sequence(s, Seq::empty(), Seq::empty(), peers.drop_last());
        assert(forget_ops::<C, P>(peers).drop_last() =~= forget_ops::<C, P>(peers.drop_last()));
    }
    assert(s.insert_changes(batch) =~= s.run(insert_ops(batch)));
    assert(s.remove_changes(ids) =~= s.run(remove_ops(ids)));
    assert(s.remove_sync_states(peers) =~= s.run(forget_ops(peers)));
}

/// Setting the document twice leaves the second document and its size: the
/// first one does not count.
pub proof fn law_document_is_replaced<C, P>(s: Stored<C, P>, a: Seq<u8>, b: Seq<u8>)
    ensures
        s.set_document(a).set_document(b) == s.set_document(b),
        s.set_document(a).set_document(b).get_document() == visible(Some(b)),
        s.set_document(a).set_document(b).document_size() == b.len(),
        s.set_document(a).set_document(b).changes_size() == s.changes_size(),
        s.set_document(a).set_document(b).sync_states_size() == s.sync_states_size(),
{
}

/// A document that is not empty reads back as it was set; an empty one
/// reads back as absent.
pub proof fn law_document_round_trip<C, P>(s: Stored<C, P>, data: Seq<u8>)
    ensures
        data.len() > 0 ==> s.set_document(data).get_document() == Some(data),
        data.len() == 0 ==> s.set_document(data).get_document() == None::<Seq<u8>>,
{
}

/// A sync state that is not empty reads back as it was set, an empty one
/// reads back as absent, and other peers read as before.
pub proof fn law_sync_state_round_trip<C, P>(s: Stored<C, P>, peer: P, other: P, state: Seq<u8>)
    ensures
        state.len() > 0 ==> s.set_sync_state(peer, state).get_sync_state(peer) == Some(state),
        state.len() == 0 ==> s.set_sync_state(peer, state).get_sync_state(peer) == None::<
            Seq<u8>,
        >,
        other != peer ==> s.set_sync_state(peer, state).get_sync_state(other) == s.get_sync_state(
            other,
        ),
{
}

/// Removing a change that is not stored changes nothing, and so does
/// storing a change and removing it twice where it was not stored before.
pub proof fn law_removal_is_idempotent<C, P>(s: Stored<C, P>, c: C, blob: Seq<u8>)
    requires
        !s.changes.contains_key(c),
    ensures
        s.remove_changes(seq![c]) == s,
        s.insert_changes(seq![(c, blob)]).remove_changes(seq![c]).remove_changes(seq![c]) == s,
        s.insert_changes(seq![(c, blob)]).remove_changes(seq![c]) == s,
{
    let one = seq![c];
    let entry = seq![(c, blob)];
    lemma_batch_of_one(s.changes, c, blob);
    lemma_batch_of_one(s.changes.insert(c, blob), c, blob);
    assert(remove_all(s.changes, one) == s.changes.remove(c));
    assert(s.changes.remove(c) =~= s.changes);
    assert(insert_all(s.changes, entry) == s.changes.insert(c, blob));
    let stored = s.changes.insert(c, blob);
    assert(remove_all(stored, one) == stored.remove(c));
    assert(stored.remove(c) =~= s.changes);
    assert(s.remove_changes(one) =~= s);
    assert(s.insert_changes(entry).remove_changes(one) =~= s);
}

/// Removing a change a second time changes nothing, whatever was stored.
pub proof fn law_second_removal_changes_nothing<C, P>(s: Stored<C, P>, c: C)
    ensures
        s.remove_changes(seq![c]).remove_changes(seq![c]) == s.remove_changes(seq![c]),
        s.remove_changes(seq![c, c]) == s.remove_changes(seq![c]),
{
    let one = seq![c];
    let two = seq![c, c];
    assert(two.drop_last() =~= one);
    lemma_batch_of_one(s.changes, c, Seq::empty());
    lemma_batch_of_one(s.changes.remove(c), c, Seq::empty());
    assert(remove_all(s.changes, one) == s.changes.remove(c));
    let m = s.changes.remove(c);
    assert(remove_all(m, one) == m.remove(c));
    assert(m.remove(c) =~= m);
    assert(s.remove_changes(one).remove_changes(one) =~= s.remove_changes(one));
    assert(s.remove_changes(two) =~= s.remove_changes(one));
}

/// After sync states were set for two different peers and the first peer
/// was removed, the second peer is listed and the first is not; where no
/// other peer was stored, the second peer is the only one.
pub proof fn law_peer_enumeration<C, P>(s: Stored<C, P>, gone: P, gone_state: Seq<u8>, kept: P, kept_state: Seq<u8>)
    requires
        gone != kept,
    ensures
        ({
            let after = s.set_sync_state(gone, gone_state).set_sync_state(kept, kept_state).remove_sync_states(
                seq![gone],
            );
            &&& after.get_peer_ids() == s.get_peer_ids().remove(gone).insert(kept)
            &&& after.get_peer_ids().contains(kept)
            &&& !after.get_peer_ids().contains(gone)
            &&& s.get_peer_ids() =~= Set::<P>::empty() ==> after.get_peer_ids() == set![kept]
            &&& after.get_sync_state(kept) == visible(Some(kept_state))
        }),
{
    let one = seq![gone];
    let m = s.sync_states.insert(gone, gone_state).insert(kept, kept_state);
    lemma_batch_of_one(m, gone, gone_state);
    assert(remove_all(m, one) == m.remove(gone));
    assert(m.remove(gone).dom() =~= s.sync_states.dom().remove(gone).insert(kept));
    if s.get_peer_ids() =~= Set::<P>::empty() {
        assert(s.sync_states.dom().remove(gone).insert(kept) =~= set![kept]);
    }
}

/// The map that stores under `f(k)` what `m` stores under `k`. It is meant
/// for an `f` that sends different keys of `m` to different keys.
pub open spec fn rekey<A, B>(m: Map<A, Seq<u8>>, f: spec_fn(A) -> B) -> Map<B, Seq<u8>> {
    Map::new(
        |b: B| exists|a: A| m.contains_key(a) && f(a) == b,
        |b: B| m[choose|a: A| m.contains_key(a) && f(a) == b],
    )
}

/// Whether `f` sends different elements of `s` to different values.
pub open spec fn injective_on<A, B>(f: spec_fn(A) -> B, s: Set<A>) -> bool {
    forall|x: A, y: A| s.contains(x) && s.contains(y) && #[trigger] f(x) == #[trigger] f(y) ==> x == y
}

/// Under an encoding of the keys that keeps different keys apart, a key is
/// found under its code with the blob it holds.
pub proof fn law_rekey_lookup<A, B>(m: Map<A, Seq<u8>>, f: spec_fn(A) -> B, k: A)
    requires
        injective_on(f, m.dom().insert(k)),
    ensures
        lookup(rekey(m, f), f(k)) == lookup(m, k),
        held_len(rekey(m, f), f(k)) == held_len(m, k),
{
    let r = rekey(m, f);
    if r.contains_key(f(k)) {
        let a = choose|a: A| m.contains_key(a) && f(a) == f(k);
        assert(a == k);
    }
    if m.contains_key(k) {
        assert(r.contains_key(f(k)));
    }
}

/// Storing under the code of a key is storing under the key, seen through
/// the encoding.
pub proof fn law_rekey_insert<A, B>(m: Map<A, Seq<u8>>, f: spec_fn(A) -> B, k: A, v: Seq<u8>)
    requires
        injective_on(f, m.dom().insert(k)),
    ensures
        rekey(m.insert(k, v), f) == rekey(m, f).insert(f(k), v),
{
    let m2 = m.insert(k, v);
    let r1 = rekey(m2, f);
    let r2 = rekey(m, f).insert(f(k), v);
    assert forall|b: B| r1.contains_key(b) <==> r2.contains_key(b) by {
        if r1.contains_key(b) {
            let a = choose|a: A| m2.contains_key(a) && f(a) == b;
            if a != k {
                assert(m.contains_key(a));
            }
        }
        if r2.contains_key(b) {
            if b == f(k) {
                assert(m2.contains_key(k));
            } else {
                let a = choose|a: A| m.contains_key(a) && f(a) == b;
                assert(m2.contains_key(a));
            }
        }
    }
    assert forall|b: B| r1.contains_key(b) implies r1[b] == r2[b] by {
        let a = choose|a: A| m2.contains_key(a) && f(a) == b;
        if b == f(k) {
            assert(a == k);
        } else {
            assert(m.contains_key(a));
            let a0 = choose|a0: A| m.contains_key(a0) && f(a0) == b;
            assert(a0 == a);
        }
    }
    assert(r1 =~= r2);
}

/// Removing the code of a key is removing the key, seen through the
/// encoding.
pub proof fn law_rekey_remove<A, B>(m: Map<A, Seq<u8>>, f: spec_fn(A) -> B, k: A)
    requires
        injective_on(f, m.dom().insert(k)),
    ensures
        rekey(m.remove(k), f) == rekey(m, f).remove(f(k)),
{
    let m2 = m.remove(k);
    let r1 = rekey(m2, f);
    let r2 = rekey(m, f).remove(f(k));
    assert forall|b: B| r1.contains_key(b) <==> r2.contains_key(b) by {
        if r1.contains_key(b) {
            let a = choose|a: A| m2.contains_key(a) && f(a) == b;
            assert(m.contains_key(a));
            assert(a != k);
        }
        if r2.contains_key(b) {
            let a = choose|a: A| m.contains_key(a) && f(a) == b;
            assert(a != k);
            assert(m2.contains_key(a));
        }
    }
    assert forall|b: B| r1.contains_key(b) implies r1[b] == r2[b] by {
        let a = choose|a: A| m2.contains_key(a) && f(a) == b;
        assert(m.contains_key(a));
        let a0 = choose|a0: A| m.contains_key(a0) && f(a0) == b;
        assert(a0 == a);
    }
    assert(r1 =~= r2);
}

/// An encoding of the keys that keeps different keys apart does not change
/// the sum of the stored lengths.
pub proof fn law_rekey_total<A, B>(m: Map<A, Seq<u8>>, f: spec_fn(A) -> B)
    requires
        m.dom().finite(),
        injective_on(f, m.dom()),
    ensures
        rekey(m, f).dom().finite(),
        total_len(rekey(m, f)) == total_len(m),
    decreases m.dom().len(),
{
    if m.dom().len() == 0 {
        assert(m.dom() =~= Set::<A>::empty());
        assert(rekey(m, f).dom() =~= Set::<B>::empty());
    } else {
        let k = m.dom().choose();
        let rest = m.remove(k);
        assert(injective_on(f, rest.dom()));
        law_rekey_total(rest, f);
        assert(rest.insert(k, m[k]) =~= m);
        assert(rest.dom().insert(k) =~= m.dom());
        law_rekey_insert(rest, f, k, m[k]);
        lemma_total_insert(rekey(rest, f), f(k), m[k]);
        lemma_total_remove(m, k);
        law_rekey_lookup(rest, f, k);
        assert(!rekey(rest, f).contains_key(f(k)));
    }
}

/// What is stored, seen through an encoding of the identities of changes
/// and one of the identifiers of peers.
pub open spec fn rekeyed<C, P, D, Q>(
    s: Stored<C, P>,
    fc: spec_fn(C) -> D,
    fp: spec_fn(P) -> Q,
) -> Stored<D, Q> {
    Stored {
        changes: rekey(s.changes, fc),
        document: s.document,
        sync_states: rekey(s.sync_states, fp),
    }
}

/// An operation, seen through the two encodings.
pub open spec fn rekeyed_op<C, P, D, Q>(
    op: Op<C, P>,
    fc: spec_fn(C) -> D,
    fp: spec_fn(P) -> Q,
) -> Op<D, Q> {
    match op {
        Op::InsertChange(c, blob) => Op::InsertChange(fc(c), blob),
        Op::RemoveChange(c) => Op::RemoveChange(fc(c)),
        Op::SetDocument(data) => Op::SetDocument(data),
        Op::SetSyncState(p, state) => Op::SetSyncState(fp(p), state),
        Op::RemoveSyncState(p) => Op::RemoveSyncState(fp(p)),
    }
}

/// The identity of the change that an operation names, if it names one.
pub open spec fn op_change<C, P>(op: Op<C, P>) -> Option<C> {
    match op {
        Op::InsertChange(c, _) => Some(c),
        Op::RemoveChange(c) => Some(c),
        _ => None,
    }
}

/// The peer that an operation names, if it names one.
pub open spec fn op_peer<C, P>(op: Op<C, P>) -> Option<P> {
    match op {
        Op::SetSyncState(p, _) => Some(p),
        Op::RemoveSyncState(p) => Some(p),
        _ => None,
    }
}

/// A backend that stores under codes of the identities does what the
/// baseline does and reports the same sizes, as long as the codes keep
/// apart the identities that are stored and the one that the operation
/// names.
pub proof fn law_encoded_backend_matches<C, P, D, Q>(
    s: Stored<C, P>,
    fc: spec_fn(C) -> D,
    fp: spec_fn(P) -> Q,
    op: Op<C, P>,
)
    requires
        s.finite(),
        match op_change(op) {
            Some(c) => injective_on(fc, s.changes.dom().insert(c)),
            None => injective_on(fc, s.changes.dom()),
        },
        match op_peer(op) {
            Some(p) => injective_on(fp, s.sync_states.dom().insert(p)),
            None => injective_on(fp, s.sync_states.dom()),
        },
    ensures
        rekeyed(s, fc, fp).apply(rekeyed_op(op, fc, fp)) == rekeyed(s.apply(op), fc, fp),
        rekeyed(s, fc, fp).tally() == s.tally(),
        rekeyed(s.apply(op), fc, fp).tally() == s.apply(op).tally(),
        rekeyed(s, fc, fp).get_document() == s.get_document(),
{
    let e = rekeyed(s, fc, fp);
    match op {
        Op::InsertChange(c, blob) => {
            law_rekey_insert(s.changes, fc, c, blob);
            assert(s.changes.insert(c, blob).dom() =~= s.changes.dom().insert(c));
        },
        Op::RemoveChange(c) => {
            law_rekey_remove(s.changes, fc, c);
        },
        Op::SetDocument(data) => {},
        Op::SetSyncState(p, state) => {
            law_rekey_insert(s.sync_states, fp, p, state);
            assert(s.sync_states.insert(p, state).dom() =~= s.sync_states.dom().insert(p));
        },
        Op::RemoveSyncState(p) => {
            law_rekey_remove(s.sync_states, fp, p);
        },
    }
    law_rekey_total(s.changes, fc);
    law_rekey_total(s.sync_states, fp);
    let after = s.apply(op);
    law_rekey_total(after.changes, fc);
    law_rekey_total(after.sync_states, fp);
    assert(e.apply(rekeyed_op(op, fc, fp)) =~= rekeyed(after, fc, fp));
}

/// The identities of the changes that a sequence of operations names.
pub open spec fn named_changes<C, P>(ops: Seq<Op<C, P>>) -> Set<C> {
    Set::new(|c: C| exists|i: int| 0 <= i < ops.len() && op_change(#[trigger] ops[i]) == Some(c))
}

/// The peers that a sequence of operations names.
pub open spec fn named_peers<C, P>(ops: Seq<Op<C, P>>) -> Set<P> {
    Set::new(|p: P| exists|i: int| 0 <= i < ops.len() && op_peer(#[trigger] ops[i]) == Some(p))
}

/// A sequence of operations, seen through the two encodings.
pub open spec fn rekeyed_ops<C, P, D, Q>(
    ops: Seq<Op<C, P>>,
    fc: spec_fn(C) -> D,
    fp: spec_fn(P) -> Q,
) -> Seq<Op<D, Q>> {
    Seq::new(ops.len(), |i: int| rekeyed_op(ops[i], fc, fp))
}

/// What all operations but the last name, the whole sequence names too.
pub proof fn lemma_named_in_front<C, P>(ops: Seq<Op<C, P>>)
    requires
        ops.len() > 0,
    ensures
        named_changes(ops.drop_last()).subset_of(named_changes(ops)),
        named_peers(ops.drop_last()).subset_of(named_peers(ops)),
{
    let front = ops.drop_last();
    assert forall|c: C| named_changes(front).contains(c) implies named_changes(ops).contains(
        c,
    ) by {
        let i = choose|i: int| 0 <= i < front.len() && op_change(#[trigger] front[i]) == Some(c);
        assert(op_change(ops[i]) == Some(c));
    }
    assert forall|p: P| named_peers(front).contains(p) implies named_peers(ops).contains(p) by {
        let i = choose|i: int| 0 <= i < front.len() && op_peer(#[trigger] front[i]) == Some(p);
        assert(op_peer(ops[i]) == Some(p));
    }
}

/// What is stored after a sequence of operations was stored before it or is
/// named by the sequence.
pub proof fn law_run_stores_what_is_named<C, P>(s: Stored<C, P>, ops: Seq<Op<C, P>>)
    ensures
        s.run(ops).changes.dom().subset_of(s.changes.dom() + named_changes(ops)),
        s.run(ops).sync_states.dom().subset_of(s.sync_states.dom() + named_peers(ops)),
    decreases ops.len(),
{
    if ops.len() > 0 {
        let front = ops.drop_last();
        law_run_stores_what_is_named(s, front);
        let n = ops.len() - 1;
        lemma_named_in_front(ops);
        match ops.last() {
            Op::InsertChange(c, blob) => {
                assert(op_change(ops[n]) == Some(c));
            },
            Op::SetSyncState(p, state) => {
                assert(op_peer(ops[n]) == Some(p));
            },
            _ => {},
        }
    }
}

/// A backend that stores under codes of the identities does along every
/// sequence of operations what the baseline does, and reports the same
/// sizes, as long as the codes keep apart the identities that are stored
/// and those that the sequence names.
pub proof fn law_encoded_backend_matches_run<C, P, D, Q>(
    s: Stored<C, P>,
    fc: spec_fn(C) -> D,
    fp: spec_fn(P) -> Q,
    ops: Seq<Op<C, P>>,
)
    requires
        s.finite(),
        injective_on(fc, s.changes.dom() + named_changes(ops)),
        injective_on(fp, s.sync_states.dom() + named_peers(ops)),
    ensures
        rekeyed(s, fc, fp).run(rekeyed_ops(ops, fc, fp)) == rekeyed(s.run(ops), fc, fp),
        rekeyed(s.run(ops), fc, fp).tally() == s.run(ops).tally(),
        rekeyed(s.run(ops), fc, fp).get_document() == s.run(ops).get_document(),
        rekeyed(s, fc, fp).tally_run(rekeyed(s, fc, fp).tally(), rekeyed_ops(ops, fc, fp))
            == s.run(ops).tally(),
    decreases ops.len(),
{
    law_run_is_finite(s, ops);
    law_run_stores_what_is_named(s, ops);
    assert(injective_on(fc, s.changes.dom()));
    assert(injective_on(fp, s.sync_states.dom()));
    law_rekey_total(s.changes, fc);
    law_rekey_total(s.sync_states, fp);
    law_sizes_exact(rekeyed(s, fc, fp), rekeyed_ops(ops, fc, fp));
    let after = s.run(ops);
    assert(injective_on(fc, after.changes.dom()));
    assert(injective_on(fp, after.sync_states.dom()));
    law_rekey_total(after.changes, fc);
    law_rekey_total(after.sync_states, fp);
    if ops.len() > 0 {
        let front = ops.drop_last();
        let n = ops.len() - 1;
        let op = ops.last();
        lemma_named_in_front(ops);
        law_encoded_backend_matches_run(s, fc, fp, front);
        law_run_is_finite(s, front);
        law_run_stores_what_is_named(s, front);
        let before = s.run(front);
        assert(op_change(ops[n]) == op_change(op));
        assert(op_peer(ops[n]) == op_peer(op));
        match op_change(op) {
            Some(c) => {
                assert(named_changes(ops).contains(c));
                assert(injective_on(fc, before.changes.dom().insert(c)));
            },
            None => {
                assert(injective_on(fc, before.changes.dom()));
            },
        }
        match op_peer(op) {
            Some(p) => {
                assert(named_peers(ops).contains(p));
                assert(injective_on(fp, before.sync_states.dom().insert(p)));
            },
            None => {
                assert(injective_on(fp, before.sync_states.dom()));
            },
        }
        law_encoded_backend_matches(before, fc, fp, op);
        assert(rekeyed_ops(ops, fc, fp).drop_last() =~= rekeyed_ops(front, fc, fp));
        assert(rekeyed_ops(ops, fc, fp).last() == rekeyed_op(op, fc, fp));
    }
}

} // verus!
