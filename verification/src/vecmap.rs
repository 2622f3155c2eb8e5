use vstd::prelude::*;

verus! {

/// Keys of the association maps: deep-view equality is decidable at run
/// time and a key can be duplicated without changing its abstract value.
pub trait DeepEq: DeepView + Sized {
    fn deq(&self, other: &Self) -> (r: bool)
        ensures
            r == (self.deep_view() == other.deep_view()),
    ;

    fn dup(&self) -> (r: Self)
        ensures
            r.deep_view() == self.deep_view(),
    ;
}

impl DeepEq for String {
    fn deq(&self, other: &Self) -> (r: bool) {
        *self == *other
    }

    fn dup(&self) -> (r: Self) {
        self.clone()
    }
}

impl DeepEq for u64 {
    fn deq(&self, other: &Self) -> (r: bool) {
        *self == *other
    }

    fn dup(&self) -> (r: Self) {
        *self
    }
}

impl DeepEq for u8 {
    fn deq(&self, other: &Self) -> (r: bool) {
        *self == *other
    }

    fn dup(&self) -> (r: Self) {
        *self
    }
}

impl DeepEq for i8 {
    fn deq(&self, other: &Self) -> (r: bool) {
        *self == *other
    }

    fn dup(&self) -> (r: Self) {
        *self
    }
}

impl DeepEq for i32 {
    fn deq(&self, other: &Self) -> (r: bool) {
        *self == *other
    }

    fn dup(&self) -> (r: Self) {
        *self
    }
}

impl DeepEq for i64 {
    fn deq(&self, other: &Self) -> (r: bool) {
        *self == *other
    }

    fn dup(&self) -> (r: Self) {
        *self
    }
}

impl<T: DeepEq> DeepEq for Vec<T> {
    fn deq(&self, other: &Self) -> (r: bool) {
        if self.len() != other.len() {
            proof {
                assert(self.deep_view().len() == self@.len());
                assert(other.deep_view().len() == other@.len());
            }
            return false;
        }
        let n = self.len();
        let mut i: usize = 0;
        while i < n
            invariant
                n == self@.len(),
                self@.len() == other@.len(),
                i <= n,
                forall|j: int| 0 <= j < i ==> self.deep_view()[j] == other.deep_view()[j],
            decreases n - i,
        {
            if !self[i].deq(&other[i]) {
                proof {
                    assert(self.deep_view()[i as int] == self@[i as int].deep_view());
                    assert(other.deep_view()[i as int] == other@[i as int].deep_view());
                }
                return false;
            }
            i = i + 1;
        }
        proof {
            assert(self.deep_view() =~= other.deep_view());
        }
        true
    }

    fn dup(&self) -> (r: Self) {
        let n = self.len();
        let mut v: Vec<T> = Vec::new();
        let mut i: usize = 0;
        while i < n
            invariant
                n == self@.len(),
                i <= n,
                v@.len() == i,
                forall|j: int| 0 <= j < i ==> v.deep_view()[j] == self.deep_view()[j],
            decreases n - i,
        {
            v.push(self[i].dup());
            i = i + 1;
        }
        proof {
            assert(v.deep_view() =~= self.deep_view());
        }
        v
    }
}

impl<T: DeepEq> DeepEq for Option<T> {
    fn deq(&self, other: &Self) -> (r: bool) {
        match (self, other) {
            (Option::None, Option::None) => true,
            (Option::Some(a), Option::Some(b)) => a.deq(b),
            _ => false,
        }
    }

    fn dup(&self) -> (r: Self) {
        match self {
            Option::None => Option::None,
            Option::Some(a) => Option::Some(a.dup()),
        }
    }
}

/// No two elements of the sequence are equal.
pub open spec fn distinct_seq<A>(s: Seq<A>) -> bool {
    forall|i: int, j: int| 0 <= i < j < s.len() ==> s[i] != s[j]
}

/// What one more element does to the prefix of a sequence: the longer
/// prefix holds exactly the old elements and the element at the boundary.
pub proof fn lemma_take_step<A>(s: Seq<A>, j: int)
    requires
        0 <= j < s.len(),
    ensures
        forall|k: A| #[trigger] s.take(j + 1).contains(k) <==> (s.take(j).contains(k) || k == s[j]),
{
    assert forall|k: A| #[trigger] s.take(j + 1).contains(k) <==> (s.take(j).contains(k) || k
        == s[j]) by {
        if s.take(j + 1).contains(k) {
            let x = choose|x: int| 0 <= x < j + 1 && #[trigger] s.take(j + 1)[x] == k;
            if x < j {
                assert(s.take(j)[x] == k);
            }
        }
        if s.take(j).contains(k) {
            let x = choose|x: int| 0 <= x < j && #[trigger] s.take(j)[x] == k;
            assert(s.take(j + 1)[x] == k);
        }
        if k == s[j] {
            assert(s.take(j + 1)[j] == k);
        }
    }
}

/// The mathematical map described by parallel key and value sequences;
/// a later entry shadows an earlier one with the same key.
pub open spec fn assoc_map<KV, TV>(keys: Seq<KV>, vals: Seq<TV>) -> Map<KV, TV>
    decreases keys.len(),
{
    if keys.len() == 0 {
        Map::empty()
    } else {
        assoc_map(keys.drop_last(), vals.drop_last()).insert(keys.last(), vals.last())
    }
}

pub proof fn lemma_assoc_map_dom<KV, TV>(keys: Seq<KV>, vals: Seq<TV>)
    requires
        keys.len() == vals.len(),
    ensures
        forall|k: KV| #[trigger] assoc_map(keys, vals).dom().contains(k) <==> keys.contains(k),
    decreases keys.len(),
{
    if keys.len() > 0 {
        lemma_assoc_map_dom(keys.drop_last(), vals.drop_last());
        assert forall|k: KV| #[trigger] assoc_map(keys, vals).dom().contains(k) <==> keys.contains(
            k,
        ) by {
            if assoc_map(keys, vals).dom().contains(k) {
                if k == keys.last() {
                    assert(keys[keys.len() - 1] == k);
                } else {
                    assert(assoc_map(keys.drop_last(), vals.drop_last()).dom().contains(k));
                    assert(keys.drop_last().contains(k));
                    let i = choose|i: int|
                        0 <= i < keys.drop_last().len() && keys.drop_last()[i] == k;
                    assert(keys[i] == k);
                }
            }
            if keys.contains(k) {
                let i = choose|i: int| 0 <= i < keys.len() && keys[i] == k;
                if i < keys.len() - 1 {
                    assert(keys.drop_last()[i] == k);
                    assert(keys.drop_last().contains(k));
                    assert(assoc_map(keys.drop_last(), vals.drop_last()).dom().contains(k));
                }
            }
        }
    }
}

pub proof fn lemma_assoc_map_index<KV, TV>(keys: Seq<KV>, vals: Seq<TV>, i: int)
    requires
        keys.len() == vals.len(),
        distinct_seq(keys),
        0 <= i < keys.len(),
    ensures
        assoc_map(keys, vals).dom().contains(keys[i]),
        assoc_map(keys, vals)[keys[i]] == vals[i],
    decreases keys.len(),
{
    if i == keys.len() - 1 {
    } else {
        assert(keys[i] != keys[keys.len() - 1]);
        assert(keys.drop_last()[i] == keys[i]);
        lemma_assoc_map_index(keys.drop_last(), vals.drop_last(), i);
    }
}

proof fn lemma_assoc_map_update<KV, TV>(keys: Seq<KV>, vals: Seq<TV>, i: int, v: TV)
    requires
        keys.len() == vals.len(),
        distinct_seq(keys),
        0 <= i < keys.len(),
    ensures
        assoc_map(keys, vals.update(i, v)) == assoc_map(keys, vals).insert(keys[i], v),
    decreases keys.len(),
{
    let n = keys.len() as int;
    if i == n - 1 {
        assert(vals.update(i, v).drop_last() =~= vals.drop_last());
        assert(assoc_map(keys.drop_last(), vals.drop_last()).insert(keys.last(), vals.last()).insert(
            keys[i],
            v,
        ) =~= assoc_map(keys.drop_last(), vals.drop_last()).insert(keys[i], v));
    } else {
        assert(vals.update(i, v).drop_last() =~= vals.drop_last().update(i, v));
        assert(keys.drop_last()[i] == keys[i]);
        lemma_assoc_map_update(keys.drop_last(), vals.drop_last(), i, v);
        assert(keys[i] != keys.last());
        assert(assoc_map(keys.drop_last(), vals.drop_last()).insert(keys[i], v).insert(
            keys.last(),
            vals.last(),
        ) =~= assoc_map(keys.drop_last(), vals.drop_last()).insert(keys.last(), vals.last()).insert(
            keys[i],
            v,
        ));
    }
}

proof fn lemma_assoc_map_remove<KV, TV>(keys: Seq<KV>, vals: Seq<TV>, i: int)
    requires
        keys.len() == vals.len(),
        distinct_seq(keys),
        0 <= i < keys.len(),
    ensures
        assoc_map(keys.remove(i), vals.remove(i)) == assoc_map(keys, vals).remove(keys[i]),
    decreases keys.len(),
{
    let n = keys.len() as int;
    lemma_assoc_map_dom(keys.drop_last(), vals.drop_last());
    if i == n - 1 {
        assert(keys.remove(i) =~= keys.drop_last());
        assert(vals.remove(i) =~= vals.drop_last());
        assert(!keys.drop_last().contains(keys[i]));
        assert(assoc_map(keys.drop_last(), vals.drop_last()).insert(keys.last(), vals.last()).remove(
            keys[i],
        ) =~= assoc_map(keys.drop_last(), vals.drop_last()));
    } else {
        assert(keys.remove(i).drop_last() =~= keys.drop_last().remove(i));
        assert(vals.remove(i).drop_last() =~= vals.drop_last().remove(i));
        assert(keys.remove(i).last() == keys.last());
        assert(vals.remove(i).last() == vals.last());
        assert(keys.drop_last()[i] == keys[i]);
        lemma_assoc_map_remove(keys.drop_last(), vals.drop_last(), i);
        assert(keys[i] != keys.last());
        assert(assoc_map(keys.drop_last(), vals.drop_last()).remove(keys[i]).insert(
            keys.last(),
            vals.last(),
        ) =~= assoc_map(keys.drop_last(), vals.drop_last()).insert(keys.last(), vals.last()).remove(
            keys[i],
        ));
    }
}

/// A map held as parallel vectors of keys and values, in insertion order,
/// with pairwise-distinct keys.
pub struct VecMap<K, T> {
    keys: Vec<K>,
    vals: Vec<T>,
}

impl<K: DeepEq, T: DeepView> View for VecMap<K, T> {
    type V = Map<<K as DeepView>::V, <T as DeepView>::V>;

    closed spec fn view(&self) -> Self::V {
        assoc_map(self.keys.deep_view(), self.vals.deep_view())
    }
}

impl<K: DeepEq, T: DeepView> DeepView for VecMap<K, T> {
    type V = Map<<K as DeepView>::V, <T as DeepView>::V>;

    open spec fn deep_view(&self) -> Self::V {
        self.view()
    }
}

impl<K: DeepEq, T: DeepView> VecMap<K, T> {
    /// The keys in insertion order.
    pub closed spec fn key_seq(&self) -> Seq<<K as DeepView>::V> {
        self.keys.deep_view()
    }

    /// The values, aligned with `key_seq`.
    pub closed spec fn val_seq(&self) -> Seq<<T as DeepView>::V> {
        self.vals.deep_view()
    }

    pub open spec fn spec_len(&self) -> nat {
        self.key_seq().len()
    }

    pub closed spec fn wf(&self) -> bool {
        &&& self.keys.len() == self.vals.len()
        &&& distinct_seq(self.key_seq())
    }

    /// The sequence views and the map view describe the same entries.
    pub proof fn lemma_entries(&self)
        requires
            self.wf(),
        ensures
            self.val_seq().len() == self.key_seq().len(),
            distinct_seq(self.key_seq()),
            forall|i: int|
                0 <= i < self.key_seq().len() ==> self@.dom().contains(#[trigger] self.key_seq()[i])
                    && self@[self.key_seq()[i]] == self.val_seq()[i],
            forall|k: <K as DeepView>::V| #[trigger]
                self@.dom().contains(k) ==> self.key_seq().contains(k),
    {
        lemma_assoc_map_dom(self.keys.deep_view(), self.vals.deep_view());
        assert forall|i: int| 0 <= i < self.key_seq().len() implies self@.dom().contains(
            #[trigger] self.key_seq()[i],
        ) && self@[self.key_seq()[i]] == self.val_seq()[i] by {
            lemma_assoc_map_index(self.keys.deep_view(), self.vals.deep_view(), i);
        }
    }

    pub fn new() -> (r: Self)
        ensures
            r.wf(),
            r@ == Map::<<K as DeepView>::V, <T as DeepView>::V>::empty(),
            r.key_seq() == Seq::<<K as DeepView>::V>::empty(),
    {
        let r = VecMap { keys: Vec::new(), vals: Vec::new() };
        proof {
            assert(r.keys.deep_view() =~= Seq::<<K as DeepView>::V>::empty());
            assert(r.vals.deep_view() =~= Seq::<<T as DeepView>::V>::empty());
        }
        r
    }

    pub fn len(&self) -> (r: usize)
        requires
            self.wf(),
        ensures
            r as nat == self.spec_len(),
    {
        self.keys.len()
    }

    pub fn is_empty(&self) -> (r: bool)
        requires
            self.wf(),
        ensures
            r == (self.spec_len() == 0),
    {
        self.keys.is_empty()
    }

    /// Index of the key in insertion order, if present.
    fn position(&self, key: &K) -> (r: Option<usize>)
        requires
            self.wf(),
        ensures
            match r {
                Some(i) => (i as nat) < self.spec_len() && self.key_seq()[i as int]
                    == key.deep_view(),
                None => !self.key_seq().contains(key.deep_view()),
            },
    {
        let mut i: usize = 0;
        while i < self.keys.len()
            invariant
                self.wf(),
                i <= self.keys.len(),
                forall|j: int| 0 <= j < i ==> self.key_seq()[j] != key.deep_view(),
            decreases self.keys.len() - i,
        {
            if self.keys[i].deq(key) {
                return Some(i);
            }
            i = i + 1;
        }
        None
    }

    pub fn contains_key(&self, key: &K) -> (r: bool)
        requires
            self.wf(),
        ensures
            r == self@.dom().contains(key.deep_view()),
    {
        proof {
            lemma_assoc_map_dom(self.keys.deep_view(), self.vals.deep_view());
        }
        self.position(key).is_some()
    }

    pub fn get(&self, key: &K) -> (r: Option<&T>)
        requires
            self.wf(),
        ensures
            match r {
                Some(v) => self@.dom().contains(key.deep_view()) && v.deep_view()
                    == self@[key.deep_view()],
                None => !self@.dom().contains(key.deep_view()),
            },
    {
        proof {
            lemma_assoc_map_dom(self.keys.deep_view(), self.vals.deep_view());
        }
        match self.position(key) {
            Some(i) => {
                proof {
                    lemma_assoc_map_index(self.keys.deep_view(), self.vals.deep_view(), i as int);
                }
                Some(&self.vals[i])
            },
            None => None,
        }
    }

    pub fn insert(&mut self, key: K, val: T)
        requires
            old(self).wf(),
        ensures
            final(self).wf(),
            final(self)@ == old(self)@.insert(key.deep_view(), val.deep_view()),
            final(self).key_seq() == if old(self)@.dom().contains(key.deep_view()) {
                old(self).key_seq()
            } else {
                old(self).key_seq().push(key.deep_view())
            },
    {
        proof {
            lemma_assoc_map_dom(self.keys.deep_view(), self.vals.deep_view());
        }
        match self.position(&key) {
            Some(i) => {
                self.vals[i] = val;
                proof {
                    assert(self.vals.deep_view() =~= old(self).vals.deep_view().update(
                        i as int,
                        val.deep_view(),
                    ));
                    lemma_assoc_map_update(
                        old(self).keys.deep_view(),
                        old(self).vals.deep_view(),
                        i as int,
                        val.deep_view(),
                    );
                }
            },
            None => {
                self.keys.push(key);
                self.vals.push(val);
                proof {
                    assert(self.keys.deep_view() =~= old(self).keys.deep_view().push(
                        key.deep_view(),
                    ));
                    assert(self.vals.deep_view() =~= old(self).vals.deep_view().push(
                        val.deep_view(),
                    ));
                    assert(self.keys.deep_view().drop_last() =~= old(self).keys.deep_view());
                    assert(self.vals.deep_view().drop_last() =~= old(self).vals.deep_view());
                }
            },
        }
    }

    pub fn remove(&mut self, key: &K)
        requires
            old(self).wf(),
        ensures
            final(self).wf(),
            final(self)@ == old(self)@.remove(key.deep_view()),
    {
        proof {
            lemma_assoc_map_dom(self.keys.deep_view(), self.vals.deep_view());
        }
        match self.position(key) {
            Some(i) => {
                self.keys.remove(i);
                self.vals.remove(i);
                proof {
                    assert(self.keys.deep_view() =~= old(self).keys.deep_view().remove(i as int));
                    assert(self.vals.deep_view() =~= old(self).vals.deep_view().remove(i as int));
                    lemma_assoc_map_remove(
                        old(self).keys.deep_view(),
                        old(self).vals.deep_view(),
                        i as int,
                    );
                    assert forall|a: int, b: int|
                        0 <= a < b < self.keys.deep_view().len() implies self.keys.deep_view()[a]
                        != self.keys.deep_view()[b] by {
                        let ka = if a < i { a } else { a + 1 };
                        let kb = if b < i { b } else { b + 1 };
                        assert(old(self).keys.deep_view()[ka] != old(self).keys.deep_view()[kb]);
                    }
                }
            },
            None => {
                proof {
                    assert(old(self)@ =~= old(self)@.remove(key.deep_view()));
                }
            },
        }
    }

    pub fn key_at(&self, i: usize) -> (r: &K)
        requires
            self.wf(),
            (i as nat) < self.spec_len(),
        ensures
            r.deep_view() == self.key_seq()[i as int],
            self@.dom().contains(self.key_seq()[i as int]),
            self@[self.key_seq()[i as int]] == self.val_seq()[i as int],
    {
        proof {
            lemma_assoc_map_index(self.keys.deep_view(), self.vals.deep_view(), i as int);
        }
        &self.keys[i]
    }

    pub fn val_at(&self, i: usize) -> (r: &T)
        requires
            self.wf(),
            (i as nat) < self.spec_len(),
        ensures
            r.deep_view() == self.val_seq()[i as int],
            self@.dom().contains(self.key_seq()[i as int]),
            self@[self.key_seq()[i as int]] == r.deep_view(),
    {
        proof {
            lemma_assoc_map_index(self.keys.deep_view(), self.vals.deep_view(), i as int);
        }
        &self.vals[i]
    }
}

impl<K: DeepEq, T: DeepEq> VecMap<K, T> {
    /// A copy of the map with the same entries in the same order.
    pub fn dup(&self) -> (r: Self)
        requires
            self.wf(),
        ensures
            r.wf(),
            r@ == self@,
            r.key_seq() == self.key_seq(),
            r.val_seq() == self.val_seq(),
    {
        let r = VecMap { keys: self.keys.dup(), vals: self.vals.dup() };
        proof {
            assert(r.keys.deep_view().len() == r.keys@.len());
            assert(r.vals.deep_view().len() == r.vals@.len());
            assert(self.keys.deep_view().len() == self.keys@.len());
            assert(self.vals.deep_view().len() == self.vals@.len());
        }
        r
    }
}

} // verus!
