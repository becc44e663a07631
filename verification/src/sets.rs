//! Ordered sets of page ids and of segment ids.

use vstd::prelude::*;

use crate::codec::same_id;
use crate::order::{key_before, lemma_lex_total, lemma_lex_transitive, lex_lt};

verus! {

/// A set of page ids, kept in ascending order.
pub struct PageSet {
    ids: Vec<u64>,
}

/// Whether page ids strictly ascend.
pub open spec fn pages_ascend(s: Seq<u64>) -> bool {
    forall|i: int, j: int| #![trigger s[i], s[j]] 0 <= i < j < s.len() ==> s[i] < s[j]
}

impl PageSet {
    /// The ids in ascending order.
    pub closed spec fn list(&self) -> Seq<u64> {
        self.ids@
    }

    /// The ids as a set.
    pub open spec fn view(&self) -> Set<u64> {
        self.list().to_set()
    }

    /// Ids strictly ascend.
    pub open spec fn wf(&self) -> bool {
        pages_ascend(self.list())
    }

    /// The empty set.
    pub fn new() -> (s: PageSet)
        ensures
            s.wf(),
            s.list() == Seq::<u64>::empty(),
            s@ == Set::<u64>::empty(),
    {
        let s: PageSet = PageSet { ids: Vec::new() };
        proof {
            assert(s.list() =~= Seq::<u64>::empty());
            assert(s@ =~= Set::<u64>::empty());
        }
        s
    }

    /// How many ids there are.
    pub fn len(&self) -> (n: usize)
        ensures
            n == self.list().len(),
    {
        self.ids.len()
    }

    /// The id at position `i` of the ascending order.
    pub fn at(&self, i: usize) -> (id: u64)
        requires
            i < self.list().len(),
        ensures
            id == self.list()[i as int],
            self@.contains(id),
    {
        proof {
            assert(self.list()[i as int] == self.ids@[i as int]);
            assert(self.list().contains(self.ids@[i as int]));
        }
        self.ids[i]
    }

    /// How many ids are below `id`.
    fn rank(&self, id: u64) -> (i: usize)
        requires
            self.wf(),
        ensures
            i <= self.list().len(),
            forall|j: int| #![trigger self.list()[j]] 0 <= j < i ==> self.list()[j] < id,
            forall|j: int| #![trigger self.list()[j]] i <= j < self.list().len() ==> self.list()[j] >= id,
    {
        let mut lo: usize = 0;
        let mut hi: usize = self.ids.len();
        while lo < hi
            invariant
                self.wf(),
                lo <= hi <= self.list().len(),
                forall|j: int| #![trigger self.list()[j]] 0 <= j < lo ==> self.list()[j] < id,
                forall|j: int|
                    #![trigger self.list()[j]]
                    hi <= j < self.list().len() ==> self.list()[j] >= id,
            decreases hi - lo,
        {
            let mid: usize = lo + (hi - lo) / 2;
            let ghost m = self.list()[mid as int];
            if self.ids[mid] < id {
                lo = mid + 1;
            } else {
                hi = mid;
            }
        }
        lo
    }

    /// Whether `id` is in the set.
    pub fn contains(&self, id: u64) -> (found: bool)
        requires
            self.wf(),
        ensures
            found == self@.contains(id),
    {
        let i: usize = self.rank(id);
        let found: bool = i < self.ids.len() && self.ids[i] == id;
        proof {
            if found {
                assert(self.list()[i as int] == id);
            } else if self.list().contains(id) {
                let j = self.list().index_of(id);
                assert(self.list()[j] == id);
                assert(i <= j);
                assert(self.list()[i as int] >= id);
                if i < j {
                    assert(self.list()[i as int] < self.list()[j]);
                }
            }
        }
        found
    }

    /// Adds `id`.
    pub fn insert(&mut self, id: u64)
        requires
            old(self).wf(),
        ensures
            final(self).wf(),
            final(self)@ == old(self)@.insert(id),
    {
        let i: usize = self.rank(id);
        let ghost before = self.list();
        if i < self.ids.len() && self.ids[i] == id {
            proof {
                assert(before[i as int] == id);
                assert(self@ =~= old(self)@.insert(id));
            }
            return;
        }
        self.ids.insert(i, id);
        proof {
            let after = self.list();
            assert(after =~= before.insert(i as int, id));
            assert forall|a: int, b: int| #![trigger after[a], after[b]] 0 <= a < b
                < after.len() implies after[a] < after[b] by {
                if a != i {
                    assert(after[a] == before[if a < i {
                        a
                    } else {
                        a - 1
                    }]);
                }
                if b != i {
                    assert(after[b] == before[if b < i {
                        b
                    } else {
                        b - 1
                    }]);
                }
            }
            assert forall|x: u64| self@.contains(x) <==> old(self)@.insert(id).contains(x) by {
                if after.contains(x) {
                    let j = after.index_of(x);
                    if j < i {
                        assert(before[j] == x);
                    } else if j > i {
                        assert(before[j - 1] == x);
                    }
                }
                if before.contains(x) {
                    let j = before.index_of(x);
                    if j < i {
                        assert(after[j] == x);
                    } else {
                        assert(after[j + 1] == x);
                    }
                }
                if x == id {
                    assert(after[i as int] == x);
                }
            }
            assert(self@ =~= old(self)@.insert(id));
        }
    }

    /// A set of the given ids.
    pub fn from_ids(ids: &Vec<u64>) -> (s: PageSet)
        ensures
            s.wf(),
            s@ == ids@.to_set(),
    {
        let mut s: PageSet = PageSet::new();
        let mut i: usize = 0;
        proof {
            assert(ids@.take(0).to_set() =~= Set::<u64>::empty());
        }
        while i < ids.len()
            invariant
                i <= ids@.len(),
                s.wf(),
                s@ == ids@.take(i as int).to_set(),
            decreases ids@.len() - i,
        {
            s.insert(ids[i]);
            proof {
                lemma_take_to_set(ids@, i as int);
            }
            i = i + 1;
        }
        proof {
            assert(ids@.take(i as int) =~= ids@);
        }
        s
    }

    /// Adds every id of `other`.
    pub fn extend(&mut self, other: &PageSet)
        requires
            old(self).wf(),
            other.wf(),
        ensures
            final(self).wf(),
            final(self)@ == old(self)@.union(other@),
    {
        let mut i: usize = 0;
        let ghost before = self@;
        proof {
            assert(other.list().take(0).to_set() =~= Set::<u64>::empty());
            assert(before.union(Set::<u64>::empty()) =~= before);
        }
        while i < other.ids.len()
            invariant
                i <= other.list().len(),
                self.wf(),
                before == old(self)@,
                self@ == before.union(other.list().take(i as int).to_set()),
            decreases other.list().len() - i,
        {
            let id: u64 = other.ids[i];
            self.insert(id);
            proof {
                lemma_take_to_set(other.list(), i as int);
                assert(self@ =~= before.union(other.list().take(i + 1).to_set()));
            }
            i = i + 1;
        }
        proof {
            assert(other.list().take(i as int) =~= other.list());
        }
    }

    /// The ids of this set that are not in `other`.
    pub fn difference(&self, other: &PageSet) -> (out: PageSet)
        requires
            self.wf(),
            other.wf(),
        ensures
            out.wf(),
            out@ == self@.difference(other@),
    {
        let mut out: PageSet = PageSet::new();
        let mut i: usize = 0;
        proof {
            assert(self.list().take(0).to_set().difference(other@) =~= Set::<u64>::empty());
        }
        while i < self.ids.len()
            invariant
                i <= self.list().len(),
                self.wf(),
                other.wf(),
                out.wf(),
                out@ == self.list().take(i as int).to_set().difference(other@),
            decreases self.list().len() - i,
        {
            let id: u64 = self.ids[i];
            let ghost before = out@;
            if !other.contains(id) {
                out.insert(id);
            }
            proof {
                lemma_take_to_set(self.list(), i as int);
                assert(out@ =~= self.list().take(i + 1).to_set().difference(other@));
            }
            i = i + 1;
        }
        proof {
            assert(self.list().take(i as int) =~= self.list());
        }
        out
    }

    /// Whether the two sets share no id.
    pub fn is_disjoint(&self, other: &PageSet) -> (disjoint: bool)
        requires
            self.wf(),
            other.wf(),
        ensures
            disjoint == self@.disjoint(other@),
    {
        let mut i: usize = 0;
        while i < self.ids.len()
            invariant
                i <= self.list().len(),
                other.wf(),
                forall|j: int| #![trigger self.list()[j]] 0 <= j < i ==> !other@.contains(self.list()[j]),
            decreases self.list().len() - i,
        {
            if other.contains(self.ids[i]) {
                proof {
                    assert(self.list().contains(self.list()[i as int]));
                }
                return false;
            }
            i = i + 1;
        }
        proof {
            assert forall|x: u64| self@.contains(x) implies !other@.contains(x) by {
                let j = self.list().index_of(x);
                assert(self.list()[j] == x);
            }
        }
        true
    }

    /// Whether the two sets hold the same ids.
    pub fn equals(&self, other: &PageSet) -> (same: bool)
        requires
            self.wf(),
            other.wf(),
        ensures
            same == (self@ == other@),
    {
        let mut i: usize = 0;
        while i < self.ids.len()
            invariant
                i <= self.list().len(),
                other.wf(),
                forall|j: int| #![trigger self.list()[j]] 0 <= j < i ==> other@.contains(self.list()[j]),
            decreases self.list().len() - i,
        {
            if !other.contains(self.ids[i]) {
                proof {
                    assert(self@.contains(self.list()[i as int]));
                }
                return false;
            }
            i = i + 1;
        }
        let mut k: usize = 0;
        while k < other.ids.len()
            invariant
                k <= other.list().len(),
                self.wf(),
                forall|j: int| #![trigger other.list()[j]] 0 <= j < k ==> self@.contains(other.list()[j]),
            decreases other.list().len() - k,
        {
            if !self.contains(other.ids[k]) {
                proof {
                    assert(other@.contains(other.list()[k as int]));
                }
                return false;
            }
            k = k + 1;
        }
        proof {
            assert forall|x: u64| self@.contains(x) <==> other@.contains(x) by {
                if self@.contains(x) {
                    let j = self.list().index_of(x);
                    assert(self.list()[j] == x);
                }
                if other@.contains(x) {
                    let j = other.list().index_of(x);
                    assert(other.list()[j] == x);
                }
            }
            assert(self@ =~= other@);
        }
        true
    }
}

/// The first `i + 1` elements of a sequence are the first `i` and the next one.
pub proof fn lemma_take_to_set<T>(s: Seq<T>, i: int)
    requires
        0 <= i < s.len(),
    ensures
        s.take(i + 1).to_set() == s.take(i).to_set().insert(s[i]),
{
    let a = s.take(i + 1);
    let b = s.take(i);
    assert forall|x: T| a.to_set().contains(x) <==> b.to_set().insert(s[i]).contains(x) by {
        if a.contains(x) {
            let j = a.index_of(x);
            if j < i {
                assert(b[j] == x);
            }
        }
        if b.contains(x) {
            let j = b.index_of(x);
            assert(a[j] == x);
        }
        assert(a[i] == s[i]);
    }
    assert(a.to_set() =~= b.to_set().insert(s[i]));
}

/// A set of segment ids, kept in ascending order of their bytes.
pub struct SegmentSet {
    ids: Vec<[u8; 16]>,
}

/// Whether segment ids strictly ascend.
pub open spec fn ids_ascend(s: Seq<[u8; 16]>) -> bool {
    forall|i: int, j: int| #![trigger s[i], s[j]] 0 <= i < j < s.len() ==> lex_lt(s[i]@, s[j]@)
}

impl SegmentSet {
    /// The ids in ascending order.
    pub closed spec fn list(&self) -> Seq<[u8; 16]> {
        self.ids@
    }

    /// The ids as a set.
    pub open spec fn view(&self) -> Set<[u8; 16]> {
        self.list().to_set()
    }

    /// Ids strictly ascend.
    pub open spec fn wf(&self) -> bool {
        ids_ascend(self.list())
    }

    /// The empty set.
    pub fn new() -> (s: SegmentSet)
        ensures
            s.wf(),
            s.list() == Seq::<[u8; 16]>::empty(),
            s@ == Set::<[u8; 16]>::empty(),
    {
        let s: SegmentSet = SegmentSet { ids: Vec::new() };
        proof {
            assert(s.list() =~= Seq::<[u8; 16]>::empty());
            assert(s@ =~= Set::<[u8; 16]>::empty());
        }
        s
    }

    /// How many ids there are.
    pub fn len(&self) -> (n: usize)
        ensures
            n == self.list().len(),
    {
        self.ids.len()
    }

    /// The id at position `i` of the ascending order.
    pub fn at(&self, i: usize) -> (id: [u8; 16])
        requires
            i < self.list().len(),
        ensures
            id == self.list()[i as int],
    {
        self.ids[i]
    }

    /// How many ids come before `id`.
    fn rank(&self, id: &[u8; 16]) -> (i: usize)
        requires
            self.wf(),
        ensures
            i <= self.list().len(),
            forall|j: int| #![trigger self.list()[j]] 0 <= j < i ==> lex_lt(self.list()[j]@, id@),
            forall|j: int|
                #![trigger self.list()[j]]
                i <= j < self.list().len() ==> !lex_lt(self.list()[j]@, id@),
    {
        let mut i: usize = 0;
        while i < self.ids.len() && key_before(self.ids[i].as_slice(), id.as_slice())
            invariant
                i <= self.list().len(),
                forall|j: int| #![trigger self.list()[j]] 0 <= j < i ==> lex_lt(self.list()[j]@, id@),
            decreases self.list().len() - i,
        {
            i = i + 1;
        }
        proof {
            if i < self.list().len() {
                let m = self.list()[i as int];
                assert forall|j: int| #![trigger self.list()[j]] i <= j < self.list().len() implies !lex_lt(
                    self.list()[j]@,
                    id@,
                ) by {
                    if j > i && lex_lt(self.list()[j]@, id@) {
                        assert(lex_lt(m@, self.list()[j]@));
                        lemma_lex_transitive(m@, self.list()[j]@, id@);
                    }
                }
            }
        }
        i
    }

    /// Whether `id` is in the set.
    pub fn contains(&self, id: &[u8; 16]) -> (found: bool)
        ensures
            found == self@.contains(*id),
    {
        let mut i: usize = 0;
        while i < self.ids.len()
            invariant
                i <= self.list().len(),
                forall|j: int| #![trigger self.list()[j]] 0 <= j < i ==> self.list()[j] != *id,
            decreases self.list().len() - i,
        {
            if same_id(&self.ids[i], id) {
                proof {
                    assert(self.list()[i as int] == *id);
                    assert(self.list().contains(*id));
                }
                return true;
            }
            i = i + 1;
        }
        false
    }

    /// Adds `id`.
    pub fn insert(&mut self, id: [u8; 16])
        requires
            old(self).wf(),
        ensures
            final(self).wf(),
            final(self)@ == old(self)@.insert(id),
    {
        let i: usize = self.rank(&id);
        let ghost before = self.list();
        if i < self.ids.len() && same_id(&self.ids[i], &id) {
            proof {
                assert(before[i as int] == id);
                assert(before.contains(id));
                assert(self@ =~= old(self)@.insert(id));
            }
            return;
        }
        self.ids.insert(i, id);
        proof {
            let after = self.list();
            assert(after =~= before.insert(i as int, id));
            assert forall|j: int| #![trigger before[j]] i <= j < before.len() implies lex_lt(
                id@,
                before[j]@,
            ) by {
                lemma_lex_total(id@, before[j]@);
                if id@ == before[j]@ {
                    assert(id =~= before[j]);
                    if i < j {
                        assert(lex_lt(before[i as int]@, before[j]@));
                    }
                }
            }
            assert forall|a: int, b: int| #![trigger after[a], after[b]] 0 <= a < b
                < after.len() implies lex_lt(after[a]@, after[b]@) by {
                if a != i {
                    assert(after[a] == before[if a < i {
                        a
                    } else {
                        a - 1
                    }]);
                }
                if b != i {
                    assert(after[b] == before[if b < i {
                        b
                    } else {
                        b - 1
                    }]);
                }
            }
            assert forall|x: [u8; 16]| self@.contains(x) <==> old(self)@.insert(id).contains(x) by {
                if after.contains(x) {
                    let j = after.index_of(x);
                    if j < i {
                        assert(before[j] == x);
                    } else if j > i {
                        assert(before[j - 1] == x);
                    }
                }
                if before.contains(x) {
                    let j = before.index_of(x);
                    if j < i {
                        assert(after[j] == x);
                    } else {
                        assert(after[j + 1] == x);
                    }
                }
                if x == id {
                    assert(after[i as int] == x);
                }
            }
            assert(self@ =~= old(self)@.insert(id));
        }
    }

    /// The ids of this set that are not in `other`.
    pub fn difference(&self, other: &SegmentSet) -> (out: SegmentSet)
        ensures
            out.wf(),
            out@ == self@.difference(other@),
    {
        let mut out: SegmentSet = SegmentSet::new();
        let mut i: usize = 0;
        proof {
            assert(self.list().take(0).to_set().difference(other@) =~= Set::<[u8; 16]>::empty());
        }
        while i < self.ids.len()
            invariant
                i <= self.list().len(),
                out.wf(),
                out@ == self.list().take(i as int).to_set().difference(other@),
            decreases self.list().len() - i,
        {
            let id: [u8; 16] = self.ids[i];
            if !other.contains(&id) {
                out.insert(id);
            }
            proof {
                lemma_take_to_set(self.list(), i as int);
                assert(out@ =~= self.list().take(i + 1).to_set().difference(other@));
            }
            i = i + 1;
        }
        proof {
            assert(self.list().take(i as int) =~= self.list());
        }
        out
    }

    /// Whether the two sets hold the same ids.
    pub fn equals(&self, other: &SegmentSet) -> (same: bool)
        ensures
            same == (self@ == other@),
    {
        let a: SegmentSet = self.difference(other);
        let b: SegmentSet = other.difference(self);
        proof {
            if a.list().len() > 0 {
                assert(a.list().contains(a.list()[0]));
                assert(a@.contains(a.list()[0]));
            }
            if b.list().len() > 0 {
                assert(b.list().contains(b.list()[0]));
                assert(b@.contains(b.list()[0]));
            }
            if a.list().len() == 0 && b.list().len() == 0 {
                assert forall|x: [u8; 16]| self@.contains(x) <==> other@.contains(x) by {
                    assert(!a@.contains(x));
                    assert(!b@.contains(x));
                }
                assert(self@ =~= other@);
            }
        }
        a.ids.len() == 0 && b.ids.len() == 0
    }
}

} // verus!
