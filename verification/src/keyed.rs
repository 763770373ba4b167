//! A map from keys to byte blobs, kept as two lists without duplicate keys.

use vstd::prelude::*;

verus! {

/// A key of a [`BlobMap`]: it stands for the mathematical value `self@`, can
/// be compared with another key and can be copied.
pub trait Key: View + Sized {
    /// Whether two keys stand for the same value.
    fn same(&self, other: &Self) -> (b: bool)
        ensures
            b == (self@ == other@),
    ;

    /// A second key for the same value.
    fn duplicate(&self) -> (c: Self)
        ensures
            c@ == self@,
    ;
}

/// The views of the elements of a sequence, in order.
pub open spec fn views<T: View>(s: Seq<T>) -> Seq<T::V> {
    Seq::new(s.len(), |i: int| s[i]@)
}

/// The map that sends `keys[i]` to `blobs[i]`. It is meant for keys without
/// duplicates and as many blobs as keys.
pub open spec fn paired<A>(keys: Seq<A>, blobs: Seq<Seq<u8>>) -> Map<A, Seq<u8>> {
    Map::new(|k: A| keys.contains(k), |k: A| blobs[keys.index_of(k)])
}

/// `keys` names every key of `m` exactly once and `blobs` holds the value of
/// each, at the same position.
pub open spec fn is_listing<A>(keys: Seq<A>, blobs: Seq<Seq<u8>>, m: Map<A, Seq<u8>>) -> bool {
    &&& keys.no_duplicates()
    &&& keys.len() == blobs.len()
    &&& m == paired(keys, blobs)
}

/// `blobs` holds the value of every key of `m`, once per key, in some order.
pub open spec fn lists_values<A>(blobs: Seq<Seq<u8>>, m: Map<A, Seq<u8>>) -> bool {
    exists|keys: Seq<A>| #[trigger] is_listing(keys, blobs, m)
}

/// `keys` holds every key of `m` exactly once, in some order.
pub open spec fn lists_keys<A, B>(keys: Seq<A>, m: Map<A, B>) -> bool {
    &&& keys.no_duplicates()
    &&& keys.to_set() == m.dom()
}

/// A copy of a byte vector.
pub fn copy_bytes(data: &Vec<u8>) -> (out: Vec<u8>)
    ensures
        out@ == data@,
{
    let mut out: Vec<u8> = Vec::new();
    let mut i: usize = 0;
    while i < data.len()
        invariant
            i <= data.len(),
            out@ == data@.take(i as int),
        decreases data.len() - i,
    {
        out.push(data[i]);
        i = i + 1;
        assert(out@ =~= data@.take(i as int));
    }
    assert(data@.take(data.len() as int) =~= data@);
    out
}

/// Whether two byte slices hold the same bytes.
pub fn same_bytes(a: &[u8], b: &[u8]) -> (r: bool)
    ensures
        r == (a@ == b@),
{
    if a.len() != b.len() {
        return false;
    }
    let mut i: usize = 0;
    while i < a.len()
        invariant
            i <= a.len(),
            a.len() == b.len(),
            a@.take(i as int) == b@.take(i as int),
        decreases a.len() - i,
    {
        if a[i] != b[i] {
            return false;
        }
        i = i + 1;
        assert(a@.take(i as int) =~= a@.take(i - 1).push(a@[i - 1]));
        assert(b@.take(i as int) =~= b@.take(i - 1).push(b@[i - 1]));
    }
    assert(a@.take(a.len() as int) =~= a@);
    assert(b@.take(b.len() as int) =~= b@);
    true
}

impl Key for Vec<u8> {
    fn same(&self, other: &Self) -> (b: bool) {
        same_bytes(self.as_slice(), other.as_slice())
    }

    fn duplicate(&self) -> (c: Self) {
        copy_bytes(self)
    }
}

impl Key for String {
    fn same(&self, other: &Self) -> (b: bool) {
        *self == *other
    }

    fn duplicate(&self) -> (c: Self) {
        self.clone()
    }
}

/// Position `i` of a listing without duplicates is where `keys[i]` is found.
pub proof fn lemma_paired_at<A>(keys: Seq<A>, blobs: Seq<Seq<u8>>, i: int)
    requires
        keys.no_duplicates(),
        0 <= i < keys.len(),
    ensures
        keys.contains(keys[i]),
        keys.index_of(keys[i]) == i,
        paired(keys, blobs).contains_key(keys[i]),
        paired(keys, blobs)[keys[i]] == blobs[i],
{
    assert(keys.contains(keys[i]));
    let j = keys.index_of(keys[i]);
    assert(0 <= j < keys.len() && keys[j] == keys[i]);
}

/// The keys of a pairing are the listed keys, finitely many.
pub proof fn lemma_paired_dom<A>(keys: Seq<A>, blobs: Seq<Seq<u8>>)
    ensures
        paired(keys, blobs).dom() == keys.to_set(),
        paired(keys, blobs).dom().finite(),
{
    vstd::seq_lib::seq_to_set_is_finite(keys);
    assert(paired(keys, blobs).dom() =~= keys.to_set());
}

/// Listing one more key, which is new, stores its blob.
pub proof fn lemma_paired_push<A>(keys: Seq<A>, blobs: Seq<Seq<u8>>, k: A, b: Seq<u8>)
    requires
        keys.no_duplicates(),
        keys.len() == blobs.len(),
        !keys.contains(k),
    ensures
        keys.push(k).no_duplicates(),
        paired(keys.push(k), blobs.push(b)) == paired(keys, blobs).insert(k, b),
{
    let keys2 = keys.push(k);
    let blobs2 = blobs.push(b);
    assert(keys2.no_duplicates()) by {
        assert forall|i: int, j: int|
            0 <= i < keys2.len() && 0 <= j < keys2.len() && i != j implies keys2[i] != keys2[j] by {
            if i < keys.len() {
                assert(keys.contains(keys[i]));
            }
            if j < keys.len() {
                assert(keys.contains(keys[j]));
            }
        }
    }
    let m1 = paired(keys2, blobs2);
    let m2 = paired(keys, blobs).insert(k, b);
    assert forall|x: A| m1.contains_key(x) <==> m2.contains_key(x) by {
        if keys2.contains(x) {
            let i = keys2.index_of(x);
            if i < keys.len() {
                assert(keys[i] == x);
            }
        }
        if keys.contains(x) {
            let i = keys.index_of(x);
            assert(keys2[i] == x);
        }
        if x == k {
            assert(keys2[keys.len() as int] == k);
        }
    }
    assert forall|x: A| m1.contains_key(x) implies m1[x] == m2[x] by {
        let i = keys2.index_of(x);
        lemma_paired_at(keys2, blobs2, i);
        if i < keys.len() {
            assert(keys[i] == x);
            lemma_paired_at(keys, blobs, i);
        }
    }
    assert(m1 =~= m2);
}

/// Replacing the blob at position `i` stores it under `keys[i]`.
pub proof fn lemma_paired_update<A>(keys: Seq<A>, blobs: Seq<Seq<u8>>, i: int, b: Seq<u8>)
    requires
        keys.no_duplicates(),
        keys.len() == blobs.len(),
        0 <= i < keys.len(),
    ensures
        paired(keys, blobs.update(i, b)) == paired(keys, blobs).insert(keys[i], b),
{
    let blobs2 = blobs.update(i, b);
    let m1 = paired(keys, blobs2);
    let m2 = paired(keys, blobs).insert(keys[i], b);
    lemma_paired_at(keys, blobs, i);
    assert forall|x: A| m1.contains_key(x) implies m1[x] == m2[x] by {
        let j = keys.index_of(x);
        lemma_paired_at(keys, blobs2, j);
        lemma_paired_at(keys, blobs, j);
    }
    assert(m1 =~= m2);
}

/// Moving the last entry into position `i` and dropping the last position
/// removes `keys[i]` and nothing else.
pub proof fn lemma_paired_swap_remove<A>(keys: Seq<A>, blobs: Seq<Seq<u8>>, i: int)
    requires
        keys.no_duplicates(),
        keys.len() == blobs.len(),
        0 <= i < keys.len(),
    ensures
        keys.update(i, keys.last()).drop_last().no_duplicates(),
        paired(keys.update(i, keys.last()).drop_last(), blobs.update(i, blobs.last()).drop_last())
            == paired(keys, blobs).remove(keys[i]),
{
    let n = keys.len() as int;
    let keys2 = keys.update(i, keys.last()).drop_last();
    let blobs2 = blobs.update(i, blobs.last()).drop_last();
    // where position `j` of the new listing comes from
    let from = |j: int| if j == i { n - 1 } else { j };
    assert forall|j: int| 0 <= j < keys2.len() implies keys2[j] == keys[from(j)] && blobs2[j]
        == blobs[from(j)] && 0 <= from(j) < n && (from(j) != i || i == n - 1) by {}
    assert(keys2.no_duplicates()) by {
        assert forall|a: int, c: int|
            0 <= a < keys2.len() && 0 <= c < keys2.len() && a != c implies keys2[a] != keys2[c] by {
            assert(keys2[a] == keys[from(a)]);
            assert(keys2[c] == keys[from(c)]);
            assert(from(a) != from(c));
        }
    }
    let m1 = paired(keys2, blobs2);
    let m2 = paired(keys, blobs).remove(keys[i]);
    assert forall|x: A| m1.contains_key(x) <==> m2.contains_key(x) by {
        if keys2.contains(x) {
            let j = keys2.index_of(x);
            assert(keys[from(j)] == x);
            assert(keys.contains(x));
            assert(from(j) != i);
            assert(x != keys[i]);
        }
        if keys.contains(x) && x != keys[i] {
            let j = keys.index_of(x);
            if j == n - 1 {
                assert(keys2[i] == x);
            } else {
                assert(keys2[j] == x);
            }
        }
    }
    assert forall|x: A| m1.contains_key(x) implies m1[x] == m2[x] by {
        let j = keys2.index_of(x);
        lemma_paired_at(keys2, blobs2, j);
        assert(keys[from(j)] == x);
        lemma_paired_at(keys, blobs, from(j));
    }
    assert(m1 =~= m2);
}

/// A key that is listed nowhere is no key of the pairing.
pub proof fn lemma_paired_absent<A>(keys: Seq<A>, blobs: Seq<Seq<u8>>, k: A)
    requires
        forall|i: int| 0 <= i < keys.len() ==> keys[i] != k,
    ensures
        !paired(keys, blobs).contains_key(k),
{
}

/// A map from keys to byte blobs. Each key is stored at most once.
#[derive(Debug)]
pub struct BlobMap<K: Key> {
    keys: Vec<K>,
    blobs: Vec<Vec<u8>>,
}

impl<K: Key> View for BlobMap<K> {
    type V = Map<K::V, Seq<u8>>;

    closed spec fn view(&self) -> Map<K::V, Seq<u8>> {
        paired(views(self.keys@), views(self.blobs@))
    }
}

impl<K: Key> BlobMap<K> {
    /// The invariant of the map: one blob per key, and no key twice.
    pub closed spec fn wf(&self) -> bool {
        &&& self.keys@.len() == self.blobs@.len()
        &&& views(self.keys@).no_duplicates()
    }

    /// The stored keys, in the order in which the map holds them.
    pub closed spec fn key_seq(&self) -> Seq<K::V> {
        views(self.keys@)
    }

    /// The stored blobs, position by position with [`BlobMap::key_seq`].
    pub closed spec fn blob_seq(&self) -> Seq<Seq<u8>> {
        views(self.blobs@)
    }

    /// The two sequences list the map.
    pub proof fn lemma_listing(&self)
        requires
            self.wf(),
        ensures
            is_listing(self.key_seq(), self.blob_seq(), self@),
            lists_keys(self.key_seq(), self@),
            lists_values(self.blob_seq(), self@),
            self.key_seq().len() == self@.dom().len(),
            self@.dom().finite(),
    {
        let ks = views(self.keys@);
        lemma_paired_dom(ks, views(self.blobs@));
        ks.unique_seq_to_set();
        assert(is_listing(self.key_seq(), self.blob_seq(), self@));
    }

    /// An empty map.
    pub fn new() -> (m: Self)
        ensures
            m.wf(),
            m@ == Map::<K::V, Seq<u8>>::empty(),
    {
        let m = BlobMap { keys: Vec::new(), blobs: Vec::new() };
        proof {
            assert(m@ =~= Map::<K::V, Seq<u8>>::empty());
            assert(views(m.keys@) =~= Seq::<K::V>::empty());
        }
        m
    }

    /// A well-formed map has finitely many keys.
    pub proof fn lemma_finite(&self)
        ensures
            self@.dom().finite(),
    {
        lemma_paired_dom(views(self.keys@), views(self.blobs@));
    }

    /// Position of `key`, if it is stored.
    fn find(&self, key: &K) -> (r: Option<usize>)
        requires
            self.wf(),
        ensures
            match r {
                Some(i) => i < self.keys@.len() && self.keys@[i as int]@ == key@
                    && self@.contains_key(key@) && self@[key@] == self.blobs@[i as int]@,
                None => !self@.contains_key(key@),
            },
    {
        let ghost ks = views(self.keys@);
        let ghost bs = views(self.blobs@);
        let mut i: usize = 0;
        while i < self.keys.len()
            invariant
                i <= self.keys@.len(),
                self.wf(),
                ks == views(self.keys@),
                bs == views(self.blobs@),
                forall|j: int| 0 <= j < i ==> ks[j] != key@,
            decreases self.keys@.len() - i,
        {
            if self.keys[i].same(key) {
                proof {
                    lemma_paired_at(ks, bs, i as int);
                }
                return Some(i);
            }
            i = i + 1;
        }
        proof {
            lemma_paired_absent(ks, bs, key@);
        }
        None
    }

    /// Whether `key` is stored.
    pub fn contains(&self, key: &K) -> (r: bool)
        requires
            self.wf(),
        ensures
            r == self@.contains_key(key@),
    {
        self.find(key).is_some()
    }

    /// The blob stored under `key`.
    pub fn get(&self, key: &K) -> (r: Option<&Vec<u8>>)
        requires
            self.wf(),
        ensures
            match r {
                Some(b) => self@.contains_key(key@) && b@ == self@[key@],
                None => !self@.contains_key(key@),
            },
    {
        match self.find(key) {
            Some(i) => Some(&self.blobs[i]),
            None => None,
        }
    }

    /// Stores `blob` under `key` and returns what the key held before.
    pub fn insert(&mut self, key: K, blob: Vec<u8>) -> (r: Option<Vec<u8>>)
        requires
            old(self).wf(),
        ensures
            final(self).wf(),
            final(self)@ == old(self)@.insert(key@, blob@),
            match r {
                Some(b) => old(self)@.contains_key(key@) && b@ == old(self)@[key@],
                None => !old(self)@.contains_key(key@),
            },
    {
        let ghost ks = views(self.keys@);
        let ghost bs = views(self.blobs@);
        match self.find(&key) {
            Some(i) => {
                self.blobs.push(blob);
                let old_blob = self.blobs.swap_remove(i);
                proof {
                    assert(views(self.blobs@) =~= bs.update(i as int, blob@));
                    lemma_paired_update(ks, bs, i as int, blob@);
                }
                Some(old_blob)
            },
            None => {
                self.keys.push(key);
                self.blobs.push(blob);
                proof {
                    assert(views(self.keys@) =~= ks.push(key@));
                    assert(views(self.blobs@) =~= bs.push(blob@));
                    assert(!ks.contains(key@));
                    lemma_paired_push(ks, bs, key@, blob@);
                }
                None
            },
        }
    }

    /// Removes `key` and returns what it held.
    pub fn remove(&mut self, key: &K) -> (r: Option<Vec<u8>>)
        requires
            old(self).wf(),
        ensures
            final(self).wf(),
            final(self)@ == old(self)@.remove(key@),
            match r {
                Some(b) => old(self)@.contains_key(key@) && b@ == old(self)@[key@],
                None => !old(self)@.contains_key(key@),
            },
    {
        let ghost ks = views(self.keys@);
        let ghost bs = views(self.blobs@);
        let ghost m = self@;
        match self.find(key) {
            Some(i) => {
                self.keys.swap_remove(i);
                let old_blob = self.blobs.swap_remove(i);
                proof {
                    assert(views(self.keys@) =~= ks.update(i as int, ks.last()).drop_last());
                    assert(views(self.blobs@) =~= bs.update(i as int, bs.last()).drop_last());
                    lemma_paired_swap_remove(ks, bs, i as int);
                }
                Some(old_blob)
            },
            None => {
                proof {
                    assert(m.remove(key@) =~= m);
                }
                None
            },
        }
    }

    /// Number of stored keys.
    pub fn len(&self) -> (n: usize)
        requires
            self.wf(),
        ensures
            n == self@.dom().len(),
    {
        proof {
            let ks = views(self.keys@);
            lemma_paired_dom(ks, views(self.blobs@));
            ks.unique_seq_to_set();
        }
        self.keys.len()
    }

    /// The stored keys, position by position with [`BlobMap::blobs`].
    pub fn keys(&self) -> (r: &Vec<K>)
        requires
            self.wf(),
        ensures
            views(r@) == self.key_seq(),
            lists_keys(views(r@), self@),
    {
        proof {
            self.lemma_listing();
        }
        &self.keys
    }

    /// The stored blobs, position by position with [`BlobMap::keys`].
    pub fn blobs(&self) -> (r: &Vec<Vec<u8>>)
        requires
            self.wf(),
        ensures
            views(r@) == self.blob_seq(),
            lists_values(views(r@), self@),
    {
        proof {
            self.lemma_listing();
        }
        &self.blobs
    }

    /// Copies of the stored blobs, one per key.
    pub fn values(&self) -> (r: Vec<Vec<u8>>)
        requires
            self.wf(),
        ensures
            lists_values(views(r@), self@),
    {
        let r = copy_blobs(&self.blobs);
        proof {
            assert(views(r@) =~= views(self.blobs@));
            assert(is_listing(views(self.keys@), views(r@), self@));
        }
        r
    }
}

/// Copies of all blobs of a list, in order.
pub fn copy_blobs(blobs: &Vec<Vec<u8>>) -> (out: Vec<Vec<u8>>)
    ensures
        views(out@) == views(blobs@),
{
    let mut out: Vec<Vec<u8>> = Vec::new();
    let mut i: usize = 0;
    while i < blobs.len()
        invariant
            i <= blobs.len(),
            out@.len() == i,
            forall|j: int| 0 <= j < i ==> out@[j]@ == blobs@[j]@,
        decreases blobs.len() - i,
    {
        out.push(copy_bytes(&blobs[i]));
        i = i + 1;
    }
    assert(views(out@) =~= views(blobs@));
    out
}

} // verus!
