//! The index of the cached pages: a segmented LRU cache of the `caches` crate, keyed by a
//! database's id and a page number. A key enters the probationary segment and moves to the
//! protected one when it is used again; each segment drops its least recently used key when
//! it is full.

use vstd::prelude::*;

verus! {

/// What stands for a cached page in the index: the id of its database and its number.
pub type PageKey = (u32, u32);

/// The index: a segmented cache from page keys to nothing.
pub type PageIndex = caches::SegmentedCache<PageKey, ()>;

/// The most keys that a segment is made for.
pub const MAX_SEGMENT: usize = 0x10_0000;

#[verifier::external_type_specification]
#[verifier::external_body]
#[verifier::reject_recursive_types(K)]
#[verifier::reject_recursive_types(V)]
#[verifier::reject_recursive_types(FH)]
#[verifier::reject_recursive_types(RH)]
pub struct ExSegmentedCache<K, V, FH, RH>(caches::SegmentedCache<K, V, FH, RH>);

/// The keys of the probationary segment, from the least to the most recently used.
pub uninterp spec fn probationary(index: PageIndex) -> Seq<PageKey>;

/// The keys of the protected segment, from the least to the most recently used.
pub uninterp spec fn protected(index: PageIndex) -> Seq<PageKey>;

/// The number of keys that the probationary segment was made for.
pub uninterp spec fn probationary_cap(index: PageIndex) -> nat;

/// The number of keys that the protected segment was made for.
pub uninterp spec fn protected_cap(index: PageIndex) -> nat;

/// What holds of every index: no key stands twice in it, and neither segment holds more
/// than it was made for.
pub open spec fn index_inv(index: PageIndex) -> bool {
    &&& (probationary(index) + protected(index)).no_duplicates()
    &&& probationary(index).len() <= probationary_cap(index)
    &&& protected(index).len() <= protected_cap(index)
    &&& 1 <= probationary_cap(index)
    &&& 1 <= protected_cap(index)
}

/// `keys` without `k`.
pub open spec fn without(keys: Seq<PageKey>, k: PageKey) -> Seq<PageKey> {
    if keys.contains(k) {
        keys.remove(keys.index_of(k))
    } else {
        keys
    }
}

/// The probationary segment after the key `k` has been used. A key of the protected segment
/// leaves this one alone. A key of this segment leaves it for the protected one, and takes in
/// the key that the protected segment drops for it, if that was full. A new key enters as the
/// most recently used, and the least recently used goes if there is no room.
pub open spec fn used_probationary(
    prob: Seq<PageKey>,
    prot: Seq<PageKey>,
    prob_cap: nat,
    prot_cap: nat,
    k: PageKey,
) -> Seq<PageKey> {
    if prot.contains(k) {
        prob
    } else if prob.contains(k) {
        if prot.len() >= prot_cap {
            without(prob, k).push(prot[0])
        } else {
            without(prob, k)
        }
    } else if prob.len() >= prob_cap {
        prob.drop_first().push(k)
    } else {
        prob.push(k)
    }
}

/// The protected segment after the key `k` has been used. A key of this segment becomes its
/// most recently used one. A key of the probationary segment enters as the most recently
/// used, and the least recently used goes back if there is no room. A new key leaves this
/// segment alone.
pub open spec fn used_protected(
    prob: Seq<PageKey>,
    prot: Seq<PageKey>,
    prot_cap: nat,
    k: PageKey,
) -> Seq<PageKey> {
    if prot.contains(k) {
        without(prot, k).push(k)
    } else if prob.contains(k) {
        if prot.len() >= prot_cap {
            prot.drop_first().push(k)
        } else {
            prot.push(k)
        }
    } else {
        prot
    }
}

/// `SegmentedCache::new`: an empty index with segments for `probationary_size` and
/// `protected_size` keys. The crate refuses a segment for no key at all.
#[verifier::external_body]
pub(crate) fn lru_new(probationary_size: usize, protected_size: usize) -> (r: Option<PageIndex>)
    requires
        probationary_size <= MAX_SEGMENT,
        protected_size <= MAX_SEGMENT,
    ensures
        r is Some <==> (probationary_size >= 1 && protected_size >= 1),
        r is Some ==> probationary(r->0) == Seq::<PageKey>::empty(),
        r is Some ==> protected(r->0) == Seq::<PageKey>::empty(),
        r is Some ==> probationary_cap(r->0) == probationary_size,
        r is Some ==> protected_cap(r->0) == protected_size,
{
    caches::SegmentedCache::new(probationary_size, protected_size).ok()
}

/// `Cache::len`: the number of keys in both segments.
#[verifier::external_body]
pub(crate) fn lru_len(index: &PageIndex) -> (r: usize)
    ensures
        r == probationary(*index).len() + protected(*index).len(),
{
    caches::Cache::len(index)
}

/// `Cache::put`: uses the key `k`, which enters the index if it is new.
#[verifier::external_body]
pub(crate) fn lru_put(index: &mut PageIndex, k: PageKey)
    ensures
        probationary(*final(index)) == used_probationary(
            probationary(*old(index)),
            protected(*old(index)),
            probationary_cap(*old(index)),
            protected_cap(*old(index)),
            k,
        ),
        protected(*final(index)) == used_protected(
            probationary(*old(index)),
            protected(*old(index)),
            protected_cap(*old(index)),
            k,
        ),
        probationary_cap(*final(index)) == probationary_cap(*old(index)),
        protected_cap(*final(index)) == protected_cap(*old(index)),
        index_inv(*final(index)),
{
    let _ = caches::Cache::put(index, k, ());
}

/// `Cache::get`: uses the key `k` if the index holds it, and says whether it does. A key
/// that the index does not hold changes nothing.
#[verifier::external_body]
pub(crate) fn lru_get(index: &mut PageIndex, k: PageKey) -> (r: bool)
    ensures
        r == (probationary(*old(index)) + protected(*old(index))).contains(k),
        r ==> probationary(*final(index)) == used_probationary(
            probationary(*old(index)),
            protected(*old(index)),
            probationary_cap(*old(index)),
            protected_cap(*old(index)),
            k,
        ),
        r ==> protected(*final(index)) == used_protected(
            probationary(*old(index)),
            protected(*old(index)),
            protected_cap(*old(index)),
            k,
        ),
        !r ==> probationary(*final(index)) == probationary(*old(index)),
        !r ==> protected(*final(index)) == protected(*old(index)),
        probationary_cap(*final(index)) == probationary_cap(*old(index)),
        protected_cap(*final(index)) == protected_cap(*old(index)),
        index_inv(*final(index)),
{
    caches::Cache::get(index, &k).is_some()
}

/// `Cache::remove`: takes the key `k` out of the segment that holds it, and says whether
/// one did.
#[verifier::external_body]
pub(crate) fn lru_remove(index: &mut PageIndex, k: PageKey) -> (r: bool)
    ensures
        r == (probationary(*old(index)) + protected(*old(index))).contains(k),
        probationary(*final(index)) == without(probationary(*old(index)), k),
        protected(*final(index)) == without(protected(*old(index)), k),
        probationary_cap(*final(index)) == probationary_cap(*old(index)),
        protected_cap(*final(index)) == protected_cap(*old(index)),
        index_inv(*final(index)),
{
    caches::Cache::remove(index, &k).is_some()
}

/// `SegmentedCache::remove_lru_from_probationary`: takes the least recently used key out
/// of the probationary segment and hands it out, unless the segment is empty.
#[verifier::external_body]
pub(crate) fn lru_remove_lru_from_probationary(index: &mut PageIndex) -> (r: Option<PageKey>)
    ensures
        r is None <==> probationary(*old(index)).len() == 0,
        r matches Some(k) ==> k == probationary(*old(index))[0] && probationary(*final(index))
            == probationary(*old(index)).drop_first(),
        r is None ==> probationary(*final(index)) == probationary(*old(index)),
        protected(*final(index)) == protected(*old(index)),
        probationary_cap(*final(index)) == probationary_cap(*old(index)),
        protected_cap(*final(index)) == protected_cap(*old(index)),
        index_inv(*final(index)),
{
    index.remove_lru_from_probationary().map(|e| e.0)
}

/// `SegmentedCache::remove_lru_from_protected`: takes the least recently used key out of
/// the protected segment and hands it out, unless the segment is empty.
#[verifier::external_body]
pub(crate) fn lru_remove_lru_from_protected(index: &mut PageIndex) -> (r: Option<PageKey>)
    ensures
        r is None <==> protected(*old(index)).len() == 0,
        r matches Some(k) ==> k == protected(*old(index))[0] && protected(*final(index))
            == protected(*old(index)).drop_first(),
        r is None ==> protected(*final(index)) == protected(*old(index)),
        probationary(*final(index)) == probationary(*old(index)),
        probationary_cap(*final(index)) == probationary_cap(*old(index)),
        protected_cap(*final(index)) == protected_cap(*old(index)),
        index_inv(*final(index)),
{
    index.remove_lru_from_protected().map(|e| e.0)
}

/// Taking a key out of keys without repetition leaves exactly the others.
pub proof fn lemma_without(keys: Seq<PageKey>, k: PageKey)
    requires
        keys.no_duplicates(),
    ensures
        forall|x: PageKey| without(keys, k).contains(x) <==> keys.contains(x) && x != k,
        without(keys, k).no_duplicates(),
        without(keys, k).len() == keys.len() - if keys.contains(k) {
            1int
        } else {
            0int
        },
{
    if keys.contains(k) {
        let at = keys.index_of(k);
        let rest = keys.remove(at);
        assert forall|x: PageKey| rest.contains(x) <==> keys.contains(x) && x != k by {
            if rest.contains(x) {
                let i = choose|i: int| 0 <= i < rest.len() && rest[i] == x;
                let j = if i < at { i } else { i + 1 };
                assert(keys[j] == x);
            }
            if keys.contains(x) && x != k {
                let j = choose|j: int| 0 <= j < keys.len() && keys[j] == x;
                let i = if j < at { j } else { j - 1 };
                assert(rest[i] == x);
            }
        }
        assert forall|i: int, j: int| 0 <= i < rest.len() && 0 <= j < rest.len() && i
            != j implies rest[i] != rest[j] by {
            let i0 = if i < at { i } else { i + 1 };
            let j0 = if j < at { j } else { j + 1 };
            assert(keys[i0] != keys[j0]);
        }
    }
}

/// What a sequence holds when two are joined, and when a key is added or the first is dropped.
pub proof fn lemma_joined(a: Seq<PageKey>, b: Seq<PageKey>)
    ensures
        forall|x: PageKey| (a + b).contains(x) <==> a.contains(x) || b.contains(x),
        (a + b).no_duplicates() <==> a.no_duplicates() && b.no_duplicates() && forall|x: PageKey|
            !(a.contains(x) && b.contains(x)),
{
    let ab = a + b;
    assert forall|x: PageKey| ab.contains(x) <==> a.contains(x) || b.contains(x) by {
        if ab.contains(x) {
            let i = choose|i: int| 0 <= i < ab.len() && ab[i] == x;
            if i < a.len() {
                assert(a[i] == x);
            } else {
                assert(b[i - a.len()] == x);
            }
        }
        if a.contains(x) {
            let i = choose|i: int| 0 <= i < a.len() && a[i] == x;
            assert(ab[i] == x);
        }
        if b.contains(x) {
            let i = choose|i: int| 0 <= i < b.len() && b[i] == x;
            assert(ab[i + a.len()] == x);
        }
    }
    if ab.no_duplicates() {
        assert forall|i: int, j: int| 0 <= i < a.len() && 0 <= j < a.len() && i != j implies a[i]
            != a[j] by {
            assert(ab[i] == a[i] && ab[j] == a[j]);
        }
        assert forall|i: int, j: int| 0 <= i < b.len() && 0 <= j < b.len() && i != j implies b[i]
            != b[j] by {
            assert(ab[i + a.len()] == b[i] && ab[j + a.len()] == b[j]);
        }
        assert forall|x: PageKey| !(a.contains(x) && b.contains(x)) by {
            if a.contains(x) && b.contains(x) {
                let i = choose|i: int| 0 <= i < a.len() && a[i] == x;
                let j = choose|j: int| 0 <= j < b.len() && b[j] == x;
                assert(ab[i] == x && ab[j + a.len()] == x);
            }
        }
    }
    if a.no_duplicates() && b.no_duplicates() && forall|x: PageKey|
        !(a.contains(x) && b.contains(x)) {
        assert forall|i: int, j: int| 0 <= i < ab.len() && 0 <= j < ab.len() && i
            != j implies ab[i] != ab[j] by {
            if i < a.len() && j >= a.len() {
                assert(a.contains(a[i]) && b.contains(b[j - a.len()]));
            }
            if j < a.len() && i >= a.len() {
                assert(a.contains(a[j]) && b.contains(b[i - a.len()]));
            }
        }
    }
}

/// What a sequence holds once a key is added at its end or its first key is dropped.
pub proof fn lemma_push_drop(s: Seq<PageKey>, k: PageKey)
    ensures
        forall|x: PageKey| s.push(k).contains(x) <==> s.contains(x) || x == k,
        s.len() > 0 ==> forall|x: PageKey|
            s.contains(x) <==> s.drop_first().contains(x) || x == s[0],
        s.len() > 0 && s.no_duplicates() ==> !s.drop_first().contains(s[0])
            && s.drop_first().no_duplicates(),
{
    let grown = s.push(k);
    assert forall|x: PageKey| grown.contains(x) <==> s.contains(x) || x == k by {
        if grown.contains(x) {
            let i = choose|i: int| 0 <= i < grown.len() && grown[i] == x;
            if i < s.len() {
                assert(s[i] == x);
            }
        }
        if s.contains(x) {
            let i = choose|i: int| 0 <= i < s.len() && s[i] == x;
            assert(grown[i] == x);
        }
        assert(grown[s.len() as int] == k);
    }
    if s.len() > 0 {
        let rest = s.drop_first();
        assert forall|x: PageKey| s.contains(x) <==> rest.contains(x) || x == s[0] by {
            if s.contains(x) {
                let i = choose|i: int| 0 <= i < s.len() && s[i] == x;
                if i > 0 {
                    assert(rest[i - 1] == x);
                }
            }
            if rest.contains(x) {
                let i = choose|i: int| 0 <= i < rest.len() && rest[i] == x;
                assert(s[i + 1] == x);
            }
        }
        if s.no_duplicates() {
            if rest.contains(s[0]) {
                let i = choose|i: int| 0 <= i < rest.len() && rest[i] == s[0];
                assert(s[i + 1] == s[0]);
            }
            assert forall|i: int, j: int| 0 <= i < rest.len() && 0 <= j < rest.len() && i
                != j implies rest[i] != rest[j] by {
                assert(s[i + 1] != s[j + 1]);
            }
        }
    }
}

/// What using a key does to the index as a whole: the key is in the index afterwards;
/// a key that was there already displaces nothing; a new key displaces at most the least
/// recently used key of the probationary segment, and that only if the segment is full.
pub proof fn lemma_used(
    prob: Seq<PageKey>,
    prot: Seq<PageKey>,
    prob_cap: nat,
    prot_cap: nat,
    k: PageKey,
)
    requires
        (prob + prot).no_duplicates(),
        prob.len() <= prob_cap,
        prot.len() <= prot_cap,
        prob_cap >= 1,
        prot_cap >= 1,
    ensures
        ({
            let now_prob = used_probationary(prob, prot, prob_cap, prot_cap, k);
            let now_prot = used_protected(prob, prot, prot_cap, k);
            &&& (now_prob + now_prot).contains(k)
            &&& forall|x: PageKey| (now_prob + now_prot).contains(x) ==> (prob + prot).contains(x) || x == k
            &&& forall|x: PageKey|
                (prob + prot).contains(x) && !(now_prob + now_prot).contains(x) ==> !(prob + prot).contains(k)
                    && prob.len() == prob_cap && x == prob[0]
            &&& (prob + prot).contains(k) ==> now_prob.len() + now_prot.len() == prob.len() + prot.len()
            &&& !(prob + prot).contains(k) ==> now_prob.len() + now_prot.len() == if prob.len() == prob_cap {
                prob.len() + prot.len()
            } else {
                prob.len() + prot.len() + 1
            }
        }),
{
    let now_prob = used_probationary(prob, prot, prob_cap, prot_cap, k);
    let now_prot = used_protected(prob, prot, prot_cap, k);
    lemma_joined(prob, prot);
    lemma_joined(now_prob, now_prot);
    lemma_without(prob, k);
    lemma_without(prot, k);
    if prot.contains(k) {
        lemma_push_drop(without(prot, k), k);
        assert(now_prob == prob);
        assert(now_prot == without(prot, k).push(k));
        assert forall|x: PageKey| now_prot.contains(x) <==> prot.contains(x) by {}
        assert(now_prot.len() == prot.len());
    } else if prob.contains(k) {
        if prot.len() >= prot_cap {
            assert(prot.contains(prot[0]));
            lemma_push_drop(prot, k);
            lemma_push_drop(prot.drop_first(), k);
            lemma_push_drop(without(prob, k), prot[0]);
            assert(now_prob == without(prob, k).push(prot[0]));
            assert(now_prot == prot.drop_first().push(k));
            assert forall|x: PageKey| now_prob.contains(x) <==> (prob.contains(x) && x != k) || x
                == prot[0] by {}
            assert forall|x: PageKey| now_prot.contains(x) <==> (prot.contains(x) && x != prot[0]) || x
                == k by {}
        } else {
            lemma_push_drop(prot, k);
            assert(now_prob == without(prob, k));
            assert(now_prot == prot.push(k));
        }
    } else if prob.len() >= prob_cap {
        assert(prob.contains(prob[0]));
        lemma_push_drop(prob, k);
        lemma_push_drop(prob.drop_first(), k);
        assert(now_prob == prob.drop_first().push(k));
        assert(now_prot == prot);
        assert forall|x: PageKey| now_prob.contains(x) <==> (prob.contains(x) && x != prob[0]) || x
            == k by {}
    } else {
        lemma_push_drop(prob, k);
        assert(now_prob == prob.push(k));
        assert(now_prot == prot);
    }
    assert((now_prob + now_prot).contains(k) <==> now_prob.contains(k) || now_prot.contains(k));
    assert forall|x: PageKey| (now_prob + now_prot).contains(x) implies (prob + prot).contains(x) || x
        == k by {
        assert(now_prob.contains(x) || now_prot.contains(x));
        assert((prob + prot).contains(x) <==> prob.contains(x) || prot.contains(x));
    }
    assert forall|x: PageKey| (prob + prot).contains(x) && !(now_prob + now_prot).contains(x) implies !(prob
        + prot).contains(k) && prob.len() == prob_cap && x == prob[0] by {
        assert(prob.contains(x) || prot.contains(x));
        assert(!now_prob.contains(x) && !now_prot.contains(x));
        assert((prob + prot).contains(k) <==> prob.contains(k) || prot.contains(k));
    }
}

} // verus!
