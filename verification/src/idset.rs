//! A set of dense `u32` indices kept as a strictly increasing vector.
//!
//! Iteration order is therefore total and key-driven, which is what makes
//! the stack-map contents of the safepoint pass and the emitter's output
//! reproducible across runs.

use vstd::prelude::*;

verus! {

/// `s` is strictly increasing.
pub open spec fn sorted(s: Seq<u32>) -> bool {
    forall|i: int, j: int| 0 <= i < j < s.len() ==> s[i] < s[j]
}

/// Sorted insertion of `x` into `s`; `s` unchanged when `x` is present.
pub open spec fn ins(s: Seq<u32>, x: u32) -> Seq<u32>
    decreases s.len(),
{
    if s.len() == 0 {
        seq![x]
    } else if s[0] < x {
        seq![s[0]] + ins(s.drop_first(), x)
    } else if s[0] == x {
        s
    } else {
        seq![x] + s
    }
}

/// Removal of `x` from `s`; `s` unchanged when `x` is absent.
pub open spec fn del(s: Seq<u32>, x: u32) -> Seq<u32>
    decreases s.len(),
{
    if s.len() == 0 {
        s
    } else if s[0] == x {
        s.drop_first()
    } else {
        seq![s[0]] + del(s.drop_first(), x)
    }
}

proof fn lemma_ins_found(s: Seq<u32>, x: u32, i: int)
    requires
        sorted(s),
        0 <= i < s.len(),
        s[i] == x,
    ensures
        ins(s, x) == s,
    decreases i,
{
    if i == 0 {
        assert(s[0] == x);
    } else {
        assert(s[0] < x);
        lemma_ins_found(s.drop_first(), x, i - 1);
        assert(seq![s[0]] + s.drop_first() =~= s);
    }
}

proof fn lemma_ins_at(s: Seq<u32>, x: u32, i: int)
    requires
        sorted(s),
        0 <= i <= s.len(),
        forall|k: int| 0 <= k < i ==> s[k] < x,
        i < s.len() ==> s[i] > x,
    ensures
        ins(s, x) == s.subrange(0, i) + seq![x] + s.subrange(i, s.len() as int),
    decreases i,
{
    if i == 0 {
        if s.len() == 0 {
            assert(ins(s, x) =~= s.subrange(0, 0) + seq![x] + s.subrange(0, 0));
        } else {
            assert(ins(s, x) =~= s.subrange(0, 0) + seq![x] + s.subrange(0, s.len() as int));
        }
    } else {
        assert(s[0] < x);
        lemma_ins_at(s.drop_first(), x, i - 1);
        assert(seq![s[0]] + (s.drop_first().subrange(0, i - 1) + seq![x] + s.drop_first().subrange(
            i - 1,
            s.len() - 1,
        )) =~= s.subrange(0, i) + seq![x] + s.subrange(i, s.len() as int));
    }
}

proof fn lemma_del_found(s: Seq<u32>, x: u32, i: int)
    requires
        sorted(s),
        0 <= i < s.len(),
        s[i] == x,
        forall|k: int| 0 <= k < i ==> s[k] < x,
    ensures
        del(s, x) == s.subrange(0, i) + s.subrange(i + 1, s.len() as int),
    decreases i,
{
    if i == 0 {
        assert(del(s, x) =~= s.subrange(0, 0) + s.subrange(1, s.len() as int));
    } else {
        assert(s[0] < x);
        lemma_del_found(s.drop_first(), x, i - 1);
        assert(seq![s[0]] + (s.drop_first().subrange(0, i - 1) + s.drop_first().subrange(
            i,
            s.len() - 1,
        )) =~= s.subrange(0, i) + s.subrange(i + 1, s.len() as int));
    }
}

proof fn lemma_del_absent(s: Seq<u32>, x: u32)
    requires
        !s.contains(x),
    ensures
        del(s, x) == s,
    decreases s.len(),
{
    if s.len() > 0 {
        assert(s[0] != x);
        assert(!s.drop_first().contains(x)) by {
            if s.drop_first().contains(x) {
                let j = choose|j: int| 0 <= j < s.drop_first().len() && s.drop_first()[j] == x;
                assert(s[j + 1] == x);
            }
        }
        lemma_del_absent(s.drop_first(), x);
        assert(seq![s[0]] + s.drop_first() =~= s);
    }
}

/// Removal never adds elements.
pub proof fn lemma_del_subset(s: Seq<u32>, x: u32, y: u32)
    requires
        del(s, x).contains(y),
    ensures
        s.contains(y),
    decreases s.len(),
{
    if s.len() > 0 {
        if s[0] == x {
            let k = choose|k: int| 0 <= k < s.drop_first().len() && s.drop_first()[k] == y;
            assert(s[k + 1] == y);
        } else {
            let t = seq![s[0]] + del(s.drop_first(), x);
            let k = choose|k: int| 0 <= k < t.len() && t[k] == y;
            if k == 0 {
                assert(s[0] == y);
            } else {
                assert(del(s.drop_first(), x)[k - 1] == y);
                lemma_del_subset(s.drop_first(), x, y);
                let j = choose|j: int| 0 <= j < s.drop_first().len() && s.drop_first()[j] == y;
                assert(s[j + 1] == y);
            }
        }
    }
}

/// Membership in the result of a sorted insertion.
pub proof fn lemma_ins_contains(s: Seq<u32>, x: u32, y: u32)
    ensures
        ins(s, x).contains(y) <==> (s.contains(y) || y == x),
    decreases s.len(),
{
    if s.len() == 0 {
        assert(ins(s, x)[0] == x);
    } else if s[0] < x {
        lemma_ins_contains(s.drop_first(), x, y);
        let t = ins(s.drop_first(), x);
        assert forall|j: int| 0 <= j < s.len() && s[j] == y implies ins(s, x).contains(y) by {
            if j == 0 {
                assert(ins(s, x)[0] == y);
            } else {
                assert(s.drop_first()[j - 1] == y);
                let k = choose|k: int| 0 <= k < t.len() && t[k] == y;
                assert(ins(s, x)[k + 1] == y);
            }
        }
        if t.contains(y) {
            let k = choose|k: int| 0 <= k < t.len() && t[k] == y;
            assert(ins(s, x)[k + 1] == y);
        }
        if ins(s, x).contains(y) {
            let k = choose|k: int| 0 <= k < ins(s, x).len() && ins(s, x)[k] == y;
            if k == 0 {
                assert(s[0] == y);
            } else {
                assert(t[k - 1] == y);
            }
        }
    } else if s[0] == x {
    } else {
        assert(ins(s, x) == seq![x] + s);
        if s.contains(y) {
            let k = choose|k: int| 0 <= k < s.len() && s[k] == y;
            assert(ins(s, x)[k + 1] == y);
        }
        if y == x {
            assert(ins(s, x)[0] == y);
        }
        if ins(s, x).contains(y) {
            let k = choose|k: int| 0 <= k < ins(s, x).len() && ins(s, x)[k] == y;
            if k > 0 {
                assert(s[k - 1] == y);
            }
        }
    }
}

/// A set of `u32` ids stored as a strictly increasing vector.
pub struct IdSet {
    v: Vec<u32>,
}

impl View for IdSet {
    type V = Seq<u32>;

    closed spec fn view(&self) -> Seq<u32> {
        self.v@
    }
}

impl IdSet {
    /// The representation invariant: strictly increasing ids.
    pub open spec fn wf(&self) -> bool {
        sorted(self@)
    }

    pub fn new() -> (r: IdSet)
        ensures
            r@ == Seq::<u32>::empty(),
            r.wf(),
    {
        IdSet { v: Vec::new() }
    }

    pub fn len(&self) -> (r: usize)
        ensures
            r == self@.len(),
    {
        self.v.len()
    }

    pub fn get(&self, i: usize) -> (r: u32)
        requires
            i < self@.len(),
        ensures
            r == self@[i as int],
    {
        self.v[i]
    }

    pub fn contains(&self, x: u32) -> (r: bool)
        requires
            self.wf(),
        ensures
            r == self@.contains(x),
    {
        let mut i: usize = 0;
        while i < self.v.len()
            invariant
                i <= self@.len(),
                forall|k: int| 0 <= k < i ==> self@[k] != x,
            decreases self@.len() - i,
        {
            if self.v[i] == x {
                return true;
            }
            i += 1;
        }
        false
    }

    /// Index of the first id that is `>= x`, or the length when all are
    /// smaller.
    fn lower_bound(&self, x: u32) -> (r: usize)
        requires
            self.wf(),
        ensures
            r <= self@.len(),
            forall|k: int| 0 <= k < r ==> self@[k] < x,
            r < self@.len() ==> self@[r as int] >= x,
    {
        let mut i: usize = 0;
        while i < self.v.len() && self.v[i] < x
            invariant
                i <= self@.len(),
                forall|k: int| 0 <= k < i ==> self@[k] < x,
            decreases self@.len() - i,
        {
            i += 1;
        }
        i
    }

    pub fn insert(&mut self, x: u32)
        requires
            old(self).wf(),
        ensures
            final(self)@ == ins(old(self)@, x),
            final(self).wf(),
    {
        let ghost s = self@;
        let i = self.lower_bound(x);
        if i < self.v.len() && self.v[i] == x {
            proof {
                lemma_ins_found(s, x, i as int);
            }
        } else {
            self.v.insert(i, x);
            proof {
                lemma_ins_at(s, x, i as int);
                assert(self@ =~= s.subrange(0, i as int) + seq![x] + s.subrange(
                    i as int,
                    s.len() as int,
                ));
                assert forall|a: int, b: int| 0 <= a < b < self@.len() implies self@[a]
                    < self@[b] by {}
            }
        }
    }

    pub fn remove(&mut self, x: u32)
        requires
            old(self).wf(),
        ensures
            final(self)@ == del(old(self)@, x),
            final(self).wf(),
    {
        let ghost s = self@;
        let i = self.lower_bound(x);
        if i < self.v.len() && self.v[i] == x {
            self.v.remove(i);
            proof {
                lemma_del_found(s, x, i as int);
                assert(self@ =~= s.subrange(0, i as int) + s.subrange(i + 1, s.len() as int));
            }
        } else {
            proof {
                if s.contains(x) {
                    let j = choose|j: int| 0 <= j < s.len() && s[j] == x;
                    assert(j >= i);
                    assert(false);
                }
                lemma_del_absent(s, x);
            }
        }
    }

    /// An element-for-element copy.
    pub fn duplicate(&self) -> (r: IdSet)
        ensures
            r@ == self@,
    {
        let mut v: Vec<u32> = Vec::new();
        let mut i: usize = 0;
        while i < self.v.len()
            invariant
                i <= self@.len(),
                v@ == self@.subrange(0, i as int),
            decreases self@.len() - i,
        {
            v.push(self.v[i]);
            proof {
                assert(v@ =~= self@.subrange(0, i + 1));
            }
            i += 1;
        }
        proof {
            assert(v@ =~= self@);
        }
        IdSet { v }
    }
}

} // verus!
