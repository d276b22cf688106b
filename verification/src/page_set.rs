//! A set of page numbers that is walked in ascending order.

use crate::types::PageNum;
use vstd::prelude::*;

verus! {

/// Whether each number of `s` is a page number and smaller than the one after it.
pub open spec fn ascending_pages(s: Seq<u32>) -> bool {
    &&& forall|i: int| 0 <= i < s.len() ==> #[trigger] s[i] >= 1
    &&& forall|i: int, j: int| 0 <= i < j < s.len() ==> #[trigger] s[i] < #[trigger] s[j]
}

/// A set of page numbers. Its view is the sequence of its members in ascending order.
#[derive(Debug)]
pub struct PageSet {
    pages: Vec<u32>,
}

impl View for PageSet {
    type V = Seq<u32>;

    closed spec fn view(&self) -> Seq<u32> {
        self.pages@
    }
}

impl Clone for PageSet {
    fn clone(&self) -> (r: PageSet)
        ensures
            r@ == self@,
    {
        proof {
            use_type_invariant(self);
        }
        PageSet { pages: self.pages.clone() }
    }
}

impl PageSet {
    #[verifier::type_invariant]
    spec fn inv(&self) -> bool {
        ascending_pages(self.pages@)
    }

    /// The empty set.
    pub fn new() -> (r: PageSet)
        ensures
            r@.len() == 0,
    {
        PageSet { pages: Vec::new() }
    }

    /// Says what every set is: ascending, without a zero and without a number twice.
    pub fn ascending(&self)
        ensures
            ascending_pages(self@),
    {
        proof {
            use_type_invariant(self);
        }
    }

    /// The number of members.
    pub fn len(&self) -> (r: usize)
        ensures
            r == self@.len(),
    {
        self.pages.len()
    }

    /// Whether the set has no member.
    pub fn is_empty(&self) -> (r: bool)
        ensures
            r == (self@.len() == 0),
    {
        self.pages.len() == 0
    }

    /// The member at place `i` of the ascending order.
    pub fn get(&self, i: usize) -> (r: PageNum)
        requires
            i < self@.len(),
        ensures
            r@ == self@[i as int],
    {
        proof {
            use_type_invariant(self);
        }
        let n = self.pages[i];
        PageNum::new(n).unwrap()
    }

    /// The place at which `n` stands, or would have to stand.
    fn position(&self, n: u32) -> (r: usize)
        ensures
            r <= self@.len(),
            forall|i: int| 0 <= i < r ==> self@[i] < n,
            forall|i: int| r <= i < self@.len() ==> self@[i] >= n,
    {
        proof {
            use_type_invariant(self);
        }
        let mut i: usize = 0;
        while i < self.pages.len() && self.pages[i] < n
            invariant
                i <= self.pages@.len(),
                ascending_pages(self.pages@),
                forall|k: int| 0 <= k < i ==> self.pages@[k] < n,
            decreases self.pages@.len() - i,
        {
            i += 1;
        }
        i
    }

    /// Whether `n` is a member.
    pub fn contains(&self, n: PageNum) -> (r: bool)
        ensures
            r == self@.contains(n@),
    {
        let v = n.into_inner();
        let at = self.position(v);
        let r = at < self.pages.len() && self.pages[at] == v;
        proof {
            use_type_invariant(self);
            if r {
                assert(self@[at as int] == v);
            }
            if !r && self@.contains(v) {
                let k = choose|k: int| 0 <= k < self@.len() && self@[k] == v;
                assert(k >= at);
                assert(self@[at as int] < self@[k] || k == at);
            }
        }
        r
    }

    /// Adds `n` and says whether it was new.
    pub fn insert(&mut self, n: PageNum) -> (r: bool)
        ensures
            r == !old(self)@.contains(n@),
            final(self)@.contains(n@),
            forall|m: u32| final(self)@.contains(m) <==> old(self)@.contains(m) || m == n@,
            final(self)@.len() == old(self)@.len() + if r {
                1int
            } else {
                0int
            },
    {
        let (_at, r) = self.insert_at(n);
        r
    }

    /// Adds `n`, and says at which place of the ascending order it stands and whether it
    /// was new.
    pub fn insert_at(&mut self, n: PageNum) -> (r: (usize, bool))
        ensures
            r.1 == !old(self)@.contains(n@),
            r.0 < final(self)@.len(),
            final(self)@[r.0 as int] == n@,
            r.1 ==> final(self)@ == old(self)@.insert(r.0 as int, n@),
            !r.1 ==> final(self)@ == old(self)@,
            final(self)@.contains(n@),
            forall|m: u32| final(self)@.contains(m) <==> old(self)@.contains(m) || m == n@,
            final(self)@.len() == old(self)@.len() + if r.1 {
                1int
            } else {
                0int
            },
    {
        proof {
            use_type_invariant(&*self);
        }
        let v = n.into_inner();
        let at = self.position(v);
        if at < self.pages.len() && self.pages[at] == v {
            assert(self@[at as int] == v);
            return (at, false);
        }
        let ghost before = self.pages@;
        let mut pages = self.pages.clone();
        pages.insert(at, v);
        proof {
            let after = pages@;
            assert(after == before.insert(at as int, v));
            assert(after[at as int] == v);
            assert forall|m: u32| after.contains(m) <==> before.contains(m) || m == v by {
                if after.contains(m) {
                    let k = choose|k: int| 0 <= k < after.len() && after[k] == m;
                    if k < at {
                        assert(before[k] == m);
                    } else if k > at {
                        assert(before[k - 1] == m);
                    }
                }
                if before.contains(m) {
                    let k = choose|k: int| 0 <= k < before.len() && before[k] == m;
                    if k < at {
                        assert(after[k] == m);
                    } else {
                        assert(after[k + 1] == m);
                    }
                }
            }
            if before.contains(v) {
                let k = choose|k: int| 0 <= k < before.len() && before[k] == v;
                assert(false);
            }
            assert forall|i: int, j: int| 0 <= i < j < after.len() implies after[i] < after[j] by {
                let bi = if i < at { i } else { i - 1 };
                let bj = if j < at { j } else { j - 1 };
                if i != at && j != at {
                    assert(before[bi] < before[bj]);
                }
            }
        }
        *self = PageSet { pages };
        (at, true)
    }

    /// The place of `n` in the ascending order, if it is a member.
    pub fn index_of(&self, n: PageNum) -> (r: Option<usize>)
        ensures
            match r {
                Some(at) => at < self@.len() && self@[at as int] == n@,
                None => !self@.contains(n@),
            },
    {
        let v = n.into_inner();
        let at = self.position(v);
        if at < self.pages.len() && self.pages[at] == v {
            Some(at)
        } else {
            proof {
                use_type_invariant(self);
                if self@.contains(v) {
                    let k = choose|k: int| 0 <= k < self@.len() && self@[k] == v;
                    assert(k >= at);
                    assert(self@[at as int] < self@[k] || k == at);
                }
            }
            None
        }
    }

    /// The members whose place in the ascending order has `true` in `keep`.
    pub fn retain(&self, keep: &Vec<bool>) -> (r: PageSet)
        requires
            keep@.len() == self@.len(),
        ensures
            forall|m: u32|
                r@.contains(m) <==> exists|i: int|
                    0 <= i < self@.len() && #[trigger] self@[i] == m && keep@[i],
    {
        let mut r = PageSet::new();
        let mut i: usize = 0;
        while i < self.len()
            invariant
                i <= self@.len(),
                keep@.len() == self@.len(),
                forall|m: u32|
                    r@.contains(m) <==> exists|k: int|
                        0 <= k < i && #[trigger] self@[k] == m && keep@[k],
            decreases self@.len() - i,
        {
            let ghost before = r@;
            if keep[i] {
                r.insert(self.get(i));
            }
            proof {
                assert forall|m: u32|
                    r@.contains(m) <==> exists|k: int|
                        0 <= k < i + 1 && #[trigger] self@[k] == m && keep@[k] by {
                    if before.contains(m) {
                        let k = choose|k: int| 0 <= k < i && #[trigger] self@[k] == m && keep@[k];
                        assert(0 <= k < i + 1 && self@[k] == m && keep@[k]);
                    }
                    if exists|k: int| 0 <= k < i + 1 && #[trigger] self@[k] == m && keep@[k] {
                        let k = choose|k: int|
                            0 <= k < i + 1 && #[trigger] self@[k] == m && keep@[k];
                        if k < i {
                            assert(before.contains(m));
                        }
                    }
                    if keep@[i as int] && m == self@[i as int] {
                        assert(0 <= i < i + 1 && self@[i as int] == m && keep@[i as int]);
                    }
                }
            }
            i += 1;
        }
        r
    }

    /// Empties the set.
    pub fn clear(&mut self)
        ensures
            final(self)@.len() == 0,
    {
        *self = PageSet::new();
    }

    /// The set of the members of `self` and of `other`.
    pub fn union(&self, other: &PageSet) -> (r: PageSet)
        ensures
            forall|m: u32| r@.contains(m) <==> self@.contains(m) || other@.contains(m),
    {
        let mut r = self.clone();
        let mut i: usize = 0;
        while i < other.len()
            invariant
                i <= other@.len(),
                forall|m: u32|
                    r@.contains(m) <==> self@.contains(m) || other@.subrange(0, i as int).contains(
                        m,
                    ),
            decreases other@.len() - i,
        {
            let n = other.get(i);
            let ghost prev = r@;
            r.insert(n);
            proof {
                let s0 = other@.subrange(0, i as int);
                let s1 = other@.subrange(0, i + 1);
                assert(s1 =~= s0.push(n@));
                assert forall|m: u32| s1.contains(m) <==> s0.contains(m) || m == n@ by {
                    if s1.contains(m) {
                        let k = choose|k: int| 0 <= k < s1.len() && s1[k] == m;
                        if k < i {
                            assert(s0[k] == m);
                        }
                    }
                    if s0.contains(m) {
                        let k = choose|k: int| 0 <= k < s0.len() && s0[k] == m;
                        assert(s1[k] == m);
                    }
                    assert(s1[i as int] == n@);
                }
            }
            i += 1;
        }
        proof {
            assert(other@.subrange(0, i as int) =~= other@);
        }
        r
    }

    /// The first `n` members of the ascending order, or all of them where there are fewer.
    pub fn first(&self, n: usize) -> (r: PageSet)
        ensures
            r@ == if n < self@.len() {
                self@.take(n as int)
            } else {
                self@
            },
    {
        proof {
            use_type_invariant(self);
        }
        let mut pages = self.pages.clone();
        if n < pages.len() {
            pages.truncate(n);
            proof {
                assert(pages@ =~= self.pages@.take(n as int));
            }
        }
        PageSet { pages }
    }

    /// The members in ascending order.
    pub fn to_vec(&self) -> (r: Vec<PageNum>)
        ensures
            r@.len() == self@.len(),
            forall|i: int| 0 <= i < r@.len() ==> (#[trigger] r@[i])@ == self@[i],
    {
        let mut r: Vec<PageNum> = Vec::new();
        let mut i: usize = 0;
        while i < self.len()
            invariant
                i <= self@.len(),
                r@.len() == i,
                forall|k: int| 0 <= k < i ==> (#[trigger] r@[k])@ == self@[k],
            decreases self@.len() - i,
        {
            r.push(self.get(i));
            i += 1;
        }
        r
    }
}

} // verus!
