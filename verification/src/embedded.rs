//! The key scheme of the embedded-store backend.
//!
//! The backend keeps changes in one ordered collection and the document in
//! another. A change is stored under the bytes of its actor followed by its
//! sequence number as eight big-endian bytes, so that the changes of one
//! actor are ordered by sequence number. The document is stored under one
//! fixed key.

use vstd::prelude::*;
use crate::actor::ActorId;
use crate::laws::injective_on;

verus! {

/// The byte of `n` that lies `shift` bits above its lowest bit.
pub open spec fn byte_at(n: u64, shift: u64) -> u8 {
    ((n >> shift) & 0xff) as u8
}

/// The eight bytes of `n`, highest first.
pub open spec fn be_bytes(n: u64) -> Seq<u8> {
    seq![
        byte_at(n, 56),
        byte_at(n, 48),
        byte_at(n, 40),
        byte_at(n, 32),
        byte_at(n, 24),
        byte_at(n, 16),
        byte_at(n, 8),
        byte_at(n, 0),
    ]
}

/// The key of a change: the bytes of the actor, then the sequence number as
/// eight big-endian bytes.
pub open spec fn store_key(actor: Seq<u8>, seq: u64) -> Seq<u8> {
    actor + be_bytes(seq)
}

/// The key of the document: the ASCII text `document`.
pub open spec fn document_key_bytes() -> Seq<u8> {
    seq![100u8, 111u8, 99u8, 117u8, 109u8, 101u8, 110u8, 116u8]
}

/// Whether `a` comes before `b` in the order of an ordered collection of
/// byte strings: at the first position where they differ `a` has the smaller
/// byte, or `a` ends there and `b` goes on.
pub open spec fn lex_less(a: Seq<u8>, b: Seq<u8>) -> bool {
    exists|i: int|
        0 <= i <= a.len() && i <= b.len() && #[trigger] a.take(i) == b.take(i) && i < b.len() && (i
            == a.len() || a[i] < b[i])
}

fn byte_of(n: u64, shift: u64) -> (b: u8)
    requires
        shift < 64,
    ensures
        b == byte_at(n, shift),
{
    let v: u64 = (n >> shift) & 0xff;
    assert(v <= 0xff) by (bit_vector)
        requires
            v == (n >> shift) & 0xff,
    ;
    v as u8
}

/// The eight bytes of `n`, highest first.
pub fn to_be_bytes(n: u64) -> (bytes: Vec<u8>)
    ensures
        bytes@ == be_bytes(n),
{
    let mut bytes: Vec<u8> = Vec::new();
    bytes.push(byte_of(n, 56));
    bytes.push(byte_of(n, 48));
    bytes.push(byte_of(n, 40));
    bytes.push(byte_of(n, 32));
    bytes.push(byte_of(n, 24));
    bytes.push(byte_of(n, 16));
    bytes.push(byte_of(n, 8));
    bytes.push(byte_of(n, 0));
    assert(bytes@ =~= be_bytes(n));
    bytes
}

/// Make a key from the actor and the sequence number.
pub fn make_key(actor_id: &ActorId, seq: u64) -> (key: Vec<u8>)
    ensures
        key@ == store_key(actor_id@, seq),
{
    let mut key = actor_id.to_bytes();
    let mut tail = to_be_bytes(seq);
    key.append(&mut tail);
    key
}

/// The key under which the document is stored.
pub fn document_key() -> (key: Vec<u8>)
    ensures
        key@ == document_key_bytes(),
{
    let mut key: Vec<u8> = Vec::new();
    key.push(100);
    key.push(111);
    key.push(99);
    key.push(117);
    key.push(109);
    key.push(101);
    key.push(110);
    key.push(116);
    assert(key@ =~= document_key_bytes());
    key
}

/// The value of the byte at `shift`, as a number.
proof fn lemma_byte_at(n: u64, shift: u64)
    requires
        shift < 64,
    ensures
        byte_at(n, shift) as u64 == (n >> shift) & 0xff,
{
    let v: u64 = (n >> shift) & 0xff;
    assert(v <= 0xff) by (bit_vector)
        requires
            v == (n >> shift) & 0xff,
    ;
}

/// The eight bytes of every shift, as numbers.
proof fn lemma_bytes(n: u64)
    ensures
        be_bytes(n).len() == 8,
        be_bytes(n)[0] as u64 == (n >> 56) & 0xff,
        be_bytes(n)[1] as u64 == (n >> 48) & 0xff,
        be_bytes(n)[2] as u64 == (n >> 40) & 0xff,
        be_bytes(n)[3] as u64 == (n >> 32) & 0xff,
        be_bytes(n)[4] as u64 == (n >> 24) & 0xff,
        be_bytes(n)[5] as u64 == (n >> 16) & 0xff,
        be_bytes(n)[6] as u64 == (n >> 8) & 0xff,
        be_bytes(n)[7] as u64 == (n >> 0) & 0xff,
{
    lemma_byte_at(n, 56);
    lemma_byte_at(n, 48);
    lemma_byte_at(n, 40);
    lemma_byte_at(n, 32);
    lemma_byte_at(n, 24);
    lemma_byte_at(n, 16);
    lemma_byte_at(n, 8);
    lemma_byte_at(n, 0);
}

/// Different numbers have different big-endian bytes.
pub proof fn lemma_be_bytes_injective(a: u64, b: u64)
    requires
        be_bytes(a) == be_bytes(b),
    ensures
        a == b,
{
    lemma_bytes(a);
    lemma_bytes(b);
    assert(a == b) by (bit_vector)
        requires
            (a >> 56) & 0xff == (b >> 56) & 0xff,
            (a >> 48) & 0xff == (b >> 48) & 0xff,
            (a >> 40) & 0xff == (b >> 40) & 0xff,
            (a >> 32) & 0xff == (b >> 32) & 0xff,
            (a >> 24) & 0xff == (b >> 24) & 0xff,
            (a >> 16) & 0xff == (b >> 16) & 0xff,
            (a >> 8) & 0xff == (b >> 8) & 0xff,
            (a >> 0) & 0xff == (b >> 0) & 0xff,
    ;
}

/// Two changes share a key only if they share actor and sequence number.
pub proof fn lemma_store_key_injective(actor1: Seq<u8>, seq1: u64, actor2: Seq<u8>, seq2: u64)
    requires
        store_key(actor1, seq1) == store_key(actor2, seq2),
    ensures
        actor1 == actor2,
        seq1 == seq2,
{
    let k1 = store_key(actor1, seq1);
    let k2 = store_key(actor2, seq2);
    assert(k1.len() == actor1.len() + 8);
    assert(k2.len() == actor2.len() + 8);
    assert(actor1 =~= k1.take(actor1.len() as int));
    assert(actor2 =~= k2.take(actor2.len() as int));
    assert(be_bytes(seq1) =~= k1.skip(actor1.len() as int));
    assert(be_bytes(seq2) =~= k2.skip(actor2.len() as int));
    lemma_be_bytes_injective(seq1, seq2);
}

/// The key of a change, as a function of the identity of the change.
pub open spec fn store_key_of() -> spec_fn((Seq<u8>, u64)) -> Seq<u8> {
    |id: (Seq<u8>, u64)| store_key(id.0, id.1)
}

/// The keys of the embedded-store backend keep all changes apart.
pub proof fn law_store_keys_keep_apart(changes: Set<(Seq<u8>, u64)>)
    ensures
        injective_on(store_key_of(), changes),
{
    assert forall|x: (Seq<u8>, u64), y: (Seq<u8>, u64)|
        changes.contains(x) && changes.contains(y) && #[trigger] store_key_of()(x)
            == #[trigger] store_key_of()(y) implies x == y by {
        lemma_store_key_injective(x.0, x.1, y.0, y.1);
    }
}

/// Whether the bytes of `a` come before the bytes of `b`, position by
/// position from the highest.
spec fn bytes_before(a: u64, b: u64) -> bool {
    let a0 = (a >> 56) & 0xff;
    let b0 = (b >> 56) & 0xff;
    let a1 = (a >> 48) & 0xff;
    let b1 = (b >> 48) & 0xff;
    let a2 = (a >> 40) & 0xff;
    let b2 = (b >> 40) & 0xff;
    let a3 = (a >> 32) & 0xff;
    let b3 = (b >> 32) & 0xff;
    let a4 = (a >> 24) & 0xff;
    let b4 = (b >> 24) & 0xff;
    let a5 = (a >> 16) & 0xff;
    let b5 = (b >> 16) & 0xff;
    let a6 = (a >> 8) & 0xff;
    let b6 = (b >> 8) & 0xff;
    let a7 = (a >> 0) & 0xff;
    let b7 = (b >> 0) & 0xff;
    a0 < b0 || (a0 == b0 && (a1 < b1 || (a1 == b1 && (a2 < b2 || (a2 == b2 && (a3 < b3 || (a3 == b3
        && (a4 < b4 || (a4 == b4 && (a5 < b5 || (a5 == b5 && (a6 < b6 || (a6 == b6 && a7
        < b7)))))))))))))
}

proof fn lemma_bytes_before(a: u64, b: u64)
    ensures
        bytes_before(a, b) <==> a < b,
{
    assert((a < b) <==> ({
        let a0 = (a >> 56) & 0xff;
        let b0 = (b >> 56) & 0xff;
        let a1 = (a >> 48) & 0xff;
        let b1 = (b >> 48) & 0xff;
        let a2 = (a >> 40) & 0xff;
        let b2 = (b >> 40) & 0xff;
        let a3 = (a >> 32) & 0xff;
        let b3 = (b >> 32) & 0xff;
        let a4 = (a >> 24) & 0xff;
        let b4 = (b >> 24) & 0xff;
        let a5 = (a >> 16) & 0xff;
        let b5 = (b >> 16) & 0xff;
        let a6 = (a >> 8) & 0xff;
        let b6 = (b >> 8) & 0xff;
        let a7 = (a >> 0) & 0xff;
        let b7 = (b >> 0) & 0xff;
        a0 < b0 || (a0 == b0 && (a1 < b1 || (a1 == b1 && (a2 < b2 || (a2 == b2 && (a3 < b3 || (a3
            == b3 && (a4 < b4 || (a4 == b4 && (a5 < b5 || (a5 == b5 && (a6 < b6 || (a6 == b6 && a7
            < b7)))))))))))))
    })) by (bit_vector);
}

/// Big-endian bytes are ordered as the numbers are.
pub proof fn lemma_be_bytes_ordered(a: u64, b: u64)
    ensures
        lex_less(be_bytes(a), be_bytes(b)) <==> a < b,
{
    let x = be_bytes(a);
    let y = be_bytes(b);
    lemma_bytes(a);
    lemma_bytes(b);
    lemma_bytes_before(a, b);
    if a < b {
        let j: int = if x[0] != y[0] {
            0
        } else if x[1] != y[1] {
            1
        } else if x[2] != y[2] {
            2
        } else if x[3] != y[3] {
            3
        } else if x[4] != y[4] {
            4
        } else if x[5] != y[5] {
            5
        } else if x[6] != y[6] {
            6
        } else {
            7
        };
        assert(x.take(j) =~= y.take(j));
        assert(x[j] < y[j]);
        assert(lex_less(x, y));
    }
    if lex_less(x, y) {
        let i = choose|i: int|
            0 <= i <= x.len() && i <= y.len() && #[trigger] x.take(i) == y.take(i) && i < y.len()
                && (i == x.len() || x[i] < y[i]);
        assert(0 <= i < 8);
        assert forall|k: int| 0 <= k < i implies x[k] == y[k] by {
            assert(x.take(i)[k] == y.take(i)[k]);
        }
        assert(bytes_before(a, b));
    }
}

/// The changes of one actor are ordered by sequence number.
pub proof fn lemma_keys_sort_by_sequence(actor: Seq<u8>, seq1: u64, seq2: u64)
    ensures
        lex_less(store_key(actor, seq1), store_key(actor, seq2)) <==> seq1 < seq2,
{
    let n = actor.len() as int;
    let x = be_bytes(seq1);
    let y = be_bytes(seq2);
    let k1 = store_key(actor, seq1);
    let k2 = store_key(actor, seq2);
    lemma_be_bytes_ordered(seq1, seq2);
    if lex_less(x, y) {
        let j = choose|j: int|
            0 <= j <= x.len() && j <= y.len() && #[trigger] x.take(j) == y.take(j) && j < y.len()
                && (j == x.len() || x[j] < y[j]);
        assert(k1.take(n + j) =~= actor + x.take(j));
        assert(k2.take(n + j) =~= actor + y.take(j));
        assert(k1[n + j] == x[j]);
        assert(k2[n + j] == y[j]);
        assert(lex_less(k1, k2));
    }
    if lex_less(k1, k2) {
        let i = choose|i: int|
            0 <= i <= k1.len() && i <= k2.len() && #[trigger] k1.take(i) == k2.take(i) && i
                < k2.len() && (i == k1.len() || k1[i] < k2[i]);
        assert(i >= n) by {
            if i < n {
                assert(k1[i] == actor[i]);
                assert(k2[i] == actor[i]);
            }
        }
        let j = i - n;
        assert(x.take(j) =~= y.take(j)) by {
            assert forall|k: int| 0 <= k < j implies x[k] == y[k] by {
                assert(k1.take(i)[n + k] == k2.take(i)[n + k]);
                assert(k1[n + k] == x[k]);
                assert(k2[n + k] == y[k]);
            }
        }
        assert(k1[i] == x[j]);
        assert(k2[i] == y[j]);
        assert(lex_less(x, y));
    }
}

} // verus!
