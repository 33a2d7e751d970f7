//! Ordered sets and maps on sorted vectors.

use vstd::prelude::*;

verus! {

/// The outcome of comparing two keys.
#[derive(Clone, Copy, Debug, PartialEq, Eq, Structural)]
pub enum Comparison {
    Less,
    Equal,
    Greater,
}

/// A type whose views are totally ordered.
pub trait Key: View + Sized {
    /// The strict order on views.
    spec fn before(a: Self::V, b: Self::V) -> bool;

    /// Nothing comes before itself.
    proof fn before_irreflexive(a: Self::V)
        ensures
            !Self::before(a, a),
    ;

    /// What comes before something comes before all that follows it.
    proof fn before_transitive(a: Self::V, b: Self::V, c: Self::V)
        requires
            Self::before(a, b),
            Self::before(b, c),
        ensures
            Self::before(a, c),
    ;

    /// Of two different views one comes before the other.
    proof fn before_total(a: Self::V, b: Self::V)
        ensures
            a == b || Self::before(a, b) || Self::before(b, a),
    ;

    /// Compares two keys by the order on their views.
    fn compare(&self, other: &Self) -> (r: Comparison)
        ensures
            match r {
                Comparison::Less => Self::before(self@, other@),
                Comparison::Equal => self@ == other@,
                Comparison::Greater => Self::before(other@, self@),
            },
    ;

    /// Copies a key.
    fn duplicate(&self) -> (r: Self)
        ensures
            r@ == self@,
    ;
}

/// Whether `s` is strictly increasing in the order of `K`.
pub open spec fn increasing<K: Key>(s: Seq<K::V>) -> bool {
    forall|i: int, j: int| 0 <= i < j < s.len() ==> K::before(#[trigger] s[i], #[trigger] s[j])
}

/// The views of the elements of a vector.
pub open spec fn views<K: View>(s: Seq<K>) -> Seq<K::V> {
    Seq::new(s.len(), |i: int| s[i]@)
}

/// A strictly increasing sequence holds nothing twice.
pub proof fn lemma_increasing_distinct<K: Key>(s: Seq<K::V>)
    requires
        increasing::<K>(s),
    ensures
        s.no_duplicates(),
{
    assert forall|i: int, j: int| 0 <= i < s.len() && 0 <= j < s.len() && i != j implies s[i]
        != s[j] by {
        if i < j {
            assert(K::before(s[i], s[j]));
            K::before_irreflexive(s[i]);
        } else {
            assert(K::before(s[j], s[i]));
            K::before_irreflexive(s[i]);
        }
    }
}

/// A sequence and its set contain the same.
pub proof fn lemma_to_set_contains<A>(s: Seq<A>, x: A)
    ensures
        s.to_set().contains(x) <==> s.contains(x),
{
}

/// Appending adds one element.
pub proof fn lemma_push_contains<A>(s: Seq<A>, a: A, x: A)
    ensures
        s.push(a).contains(x) <==> s.contains(x) || x == a,
{
    let t = s.push(a);
    if t.contains(x) {
        let i = choose|i: int| 0 <= i < t.len() && t[i] == x;
        if i < s.len() {
            assert(s[i] == x);
        }
    }
    if s.contains(x) {
        let i = choose|i: int| 0 <= i < s.len() && s[i] == x;
        assert(t[i] == x);
    }
    assert(t[s.len() as int] == a);
}

/// Two strictly increasing sequences with the same elements are equal: the order in which a
/// sorted set hands out its elements follows from what it contains.
pub proof fn increasing_is_canonical<K: Key>(a: Seq<K::V>, b: Seq<K::V>)
    requires
        increasing::<K>(a),
        increasing::<K>(b),
        a.to_set() == b.to_set(),
    ensures
        a == b,
    decreases a.len(),
{
    assert forall|x: K::V| #[trigger] a.contains(x) <==> b.contains(x) by {
        lemma_to_set_contains(a, x);
        lemma_to_set_contains(b, x);
    }
    if a.len() == 0 {
        if b.len() > 0 {
            assert(b.contains(b[0]));
            assert(a.contains(b[0]));
        }
        assert(a =~= b);
    } else {
        assert(a.contains(a.last()));
        let x = a.last();
        let y = b.last();
        assert(b.contains(x));
        assert(b.contains(y));
        assert(a.contains(y));
        let i = choose|i: int| 0 <= i < b.len() && b[i] == x;
        let j = choose|j: int| 0 <= j < a.len() && a[j] == y;
        if x != y {
            assert(K::before(b[i], b[b.len() - 1]));
            assert(K::before(a[j], a[a.len() - 1]));
            K::before_transitive(x, y, x);
            K::before_irreflexive(x);
        }
        let a1 = a.drop_last();
        let b1 = b.drop_last();
        lemma_increasing_distinct::<K>(a);
        lemma_increasing_distinct::<K>(b);
        assert forall|z: K::V| a1.to_set().contains(z) == b1.to_set().contains(z) by {
            if a1.contains(z) {
                let p = choose|p: int| 0 <= p < a1.len() && a1[p] == z;
                assert(a[p] == z);
                assert(a.contains(z));
                let q = choose|q: int| 0 <= q < b.len() && b[q] == z;
                assert(q != b.len() - 1);
                assert(b1[q] == z);
            }
            if b1.contains(z) {
                let p = choose|p: int| 0 <= p < b1.len() && b1[p] == z;
                assert(b[p] == z);
                assert(b.contains(z));
                assert(a.contains(z));
                let q = choose|q: int| 0 <= q < a.len() && a[q] == z;
                assert(q != a.len() - 1);
                assert(a1[q] == z);
            }
        }
        assert(a1.to_set() =~= b1.to_set());
        increasing_is_canonical::<K>(a1, b1);
        assert(a =~= a1.push(x));
        assert(b =~= b1.push(y));
    }
}

/// The elements of a finite set in increasing order.
pub open spec fn in_order<K: Key>(set: Set<K::V>) -> Seq<K::V> {
    choose|s: Seq<K::V>| increasing::<K>(s) && #[trigger] s.to_set() == set
}

/// A strictly increasing sequence is the set of its elements in order.
pub proof fn increasing_is_in_order<K: Key>(s: Seq<K::V>)
    requires
        increasing::<K>(s),
    ensures
        in_order::<K>(s.to_set()) == s,
{
    let t = in_order::<K>(s.to_set());
    assert(increasing::<K>(t) && t.to_set() == s.to_set());
    increasing_is_canonical::<K>(s, t);
}

/// There is a place for every missing key in an increasing sequence.
proof fn lemma_place<K: Key>(s: Seq<K::V>, k: K::V) -> (i: int)
    requires
        increasing::<K>(s),
        !s.contains(k),
    ensures
        0 <= i <= s.len(),
        forall|j: int| 0 <= j < i ==> K::before(#[trigger] s[j], k),
        forall|j: int| i <= j < s.len() ==> K::before(k, #[trigger] s[j]),
    decreases s.len(),
{
    if s.len() == 0 {
        0
    } else {
        let n = s.len() - 1;
        assert(s.contains(s[n]));
        K::before_total(s[n], k);
        if K::before(s[n], k) {
            assert forall|j: int| 0 <= j < s.len() implies K::before(#[trigger] s[j], k) by {
                if j < n {
                    K::before_transitive(s[j], s[n], k);
                }
            }
            s.len() as int
        } else {
            let rest = s.drop_last();
            assert(!rest.contains(k)) by {
                if rest.contains(k) {
                    let j = choose|j: int| 0 <= j < rest.len() && rest[j] == k;
                    assert(s[j] == k);
                }
            }
            let i = lemma_place::<K>(rest, k);
            assert forall|j: int| 0 <= j < i implies K::before(#[trigger] s[j], k) by {
                assert(rest[j] == s[j]);
            }
            assert forall|j: int| i <= j < s.len() implies K::before(k, #[trigger] s[j]) by {
                if j < n {
                    assert(rest[j] == s[j]);
                }
            }
            i
        }
    }
}

/// Every finite set has its elements in order.
pub proof fn finite_set_in_order<K: Key>(set: Set<K::V>)
    requires
        set.finite(),
    ensures
        increasing::<K>(in_order::<K>(set)),
        in_order::<K>(set).to_set() == set,
    decreases set.len(),
{
    if set.len() == 0 {
        let none = Seq::<K::V>::empty();
        assert(none.to_set() =~= set);
        assert(increasing::<K>(none));
    } else {
        let k = set.choose();
        let rest = set.remove(k);
        finite_set_in_order::<K>(rest);
        let s = in_order::<K>(rest);
        lemma_to_set_contains(s, k);
        let i = lemma_place::<K>(s, k);
        lemma_insert_increasing::<K>(s, i, k);
        assert(s.insert(i, k).to_set() =~= set);
    }
}

/// Where `key` stands in the increasing vector `items`, or where it would have to be inserted.
fn locate<K: Key>(items: &Vec<K>, key: &K) -> (r: Result<usize, usize>)
    requires
        increasing::<K>(views(items@)),
    ensures
        match r {
            Ok(i) => i < items.len() && items[i as int]@ == key@,
            Err(i) => {
                &&& i <= items.len()
                &&& forall|j: int| 0 <= j < i ==> K::before((#[trigger] items[j])@, key@)
                &&& forall|j: int| i <= j < items.len() ==> K::before(key@, (#[trigger] items[j])@)
            },
        },
{
    let mut low: usize = 0;
    let mut high: usize = items.len();
    while low < high
        invariant
            low <= high <= items.len(),
            increasing::<K>(views(items@)),
            forall|j: int| 0 <= j < low ==> K::before((#[trigger] items[j])@, key@),
            forall|j: int| high <= j < items.len() ==> K::before(key@, (#[trigger] items[j])@),
        decreases high - low,
    {
        let mid: usize = low + (high - low) / 2;
        let ghost s = views(items@);
        match items[mid].compare(key) {
            Comparison::Equal => {
                return Ok(mid);
            },
            Comparison::Less => {
                proof {
                    assert forall|j: int| 0 <= j < mid + 1 implies K::before(
                        (#[trigger] items[j])@,
                        key@,
                    ) by {
                        if j < mid {
                            assert(K::before(s[j], s[mid as int]));
                            K::before_transitive(s[j], s[mid as int], key@);
                        }
                    }
                }
                low = mid + 1;
            },
            Comparison::Greater => {
                proof {
                    assert forall|j: int| mid <= j < items.len() implies K::before(
                        key@,
                        (#[trigger] items[j])@,
                    ) by {
                        if j > mid {
                            assert(K::before(s[mid as int], s[j]));
                            K::before_transitive(key@, s[mid as int], s[j]);
                        }
                    }
                }
                high = mid;
            },
        }
    }
    Err(low)
}

proof fn lemma_insert_increasing<K: Key>(s: Seq<K::V>, i: int, k: K::V)
    requires
        increasing::<K>(s),
        0 <= i <= s.len(),
        forall|j: int| 0 <= j < i ==> K::before(#[trigger] s[j], k),
        forall|j: int| i <= j < s.len() ==> K::before(k, #[trigger] s[j]),
    ensures
        increasing::<K>(s.insert(i, k)),
        s.insert(i, k).to_set() == s.to_set().insert(k),
        !s.contains(k),
{
    let t = s.insert(i, k);
    assert forall|a: int, b: int| 0 <= a < b < t.len() implies K::before(
        #[trigger] t[a],
        #[trigger] t[b],
    ) by {
        let a0 = if a < i { a } else { a - 1 };
        let b0 = if b < i { b } else { b - 1 };
        if a != i && b != i {
            assert(t[a] == s[a0] && t[b] == s[b0]);
        }
    }
    assert forall|x: K::V| t.to_set().contains(x) == s.to_set().insert(k).contains(x) by {
        if s.contains(x) {
            let p = choose|p: int| 0 <= p < s.len() && s[p] == x;
            assert(t[if p < i { p } else { p + 1 }] == x);
        }
        if x == k {
            assert(t[i] == k);
        }
        if t.contains(x) {
            let p = choose|p: int| 0 <= p < t.len() && t[p] == x;
            if p < i {
                assert(s[p] == x);
            } else if p > i {
                assert(s[p - 1] == x);
            }
        }
    }
    assert(t.to_set() =~= s.to_set().insert(k));
    if s.contains(k) {
        let p = choose|p: int| 0 <= p < s.len() && s[p] == k;
        K::before_irreflexive(k);
    }
}

proof fn lemma_remove_increasing<K: Key>(s: Seq<K::V>, i: int)
    requires
        increasing::<K>(s),
        0 <= i < s.len(),
    ensures
        increasing::<K>(s.remove(i)),
        s.remove(i).to_set() == s.to_set().remove(s[i]),
{
    let t = s.remove(i);
    assert forall|a: int, b: int| 0 <= a < b < t.len() implies K::before(
        #[trigger] t[a],
        #[trigger] t[b],
    ) by {
        let a0 = if a < i { a } else { a + 1 };
        let b0 = if b < i { b } else { b + 1 };
        assert(t[a] == s[a0] && t[b] == s[b0]);
    }
    lemma_increasing_distinct::<K>(s);
    assert forall|x: K::V| t.to_set().contains(x) <==> s.to_set().remove(s[i]).contains(x) by {
        if s.contains(x) && x != s[i] {
            let p = choose|p: int| 0 <= p < s.len() && s[p] == x;
            assert(t[if p < i { p } else { p - 1 }] == x);
        }
        if t.contains(x) {
            let p = choose|p: int| 0 <= p < t.len() && t[p] == x;
            let q = if p < i { p } else { p + 1 };
            assert(s[q] == x);
            assert(q != i);
        }
    }
    assert(t.to_set() =~= s.to_set().remove(s[i]));
}

/// A set of keys, kept in increasing order.
#[derive(Debug, PartialEq, Eq)]
pub struct SortedSet<K: Key> {
    items: Vec<K>,
}

impl<K: Key> View for SortedSet<K> {
    type V = Seq<K::V>;

    /// The elements in increasing order.
    closed spec fn view(&self) -> Seq<K::V> {
        views(self.items@)
    }
}

impl<K: Key> SortedSet<K> {
    #[verifier::type_invariant]
    spec fn ordered(self) -> bool {
        increasing::<K>(self@)
    }

    /// The empty set.
    pub fn new() -> (r: Self)
        ensures
            r@ == Seq::<K::V>::empty(),
    {
        let r = SortedSet { items: Vec::new() };
        assert(r@ =~= Seq::<K::V>::empty());
        r
    }

    /// Whether `key` is in the set.
    pub fn contains(&self, key: &K) -> (r: bool)
        ensures
            r == self@.contains(key@),
    {
        proof {
            use_type_invariant(&*self);
        }
        match locate(&self.items, key) {
            Ok(i) => {
                assert(self@[i as int] == key@);
                true
            },
            Err(i) => {
                proof {
                    if self@.contains(key@) {
                        let j = choose|j: int| 0 <= j < self@.len() && self@[j] == key@;
                        assert(self.items[j]@ == key@);
                        K::before_irreflexive(key@);
                    }
                }
                false
            },
        }
    }

    /// Adds `key` where it is missing; tells whether it was.
    pub fn insert(&mut self, key: K) -> (added: bool)
        ensures
            increasing::<K>(final(self)@),
            final(self)@.to_set() == old(self)@.to_set().insert(key@),
            added == !old(self)@.contains(key@),
    {
        proof {
            use_type_invariant(&*self);
        }
        let present = self.contains(&key);
        let ghost before = self@;
        match locate(&self.items, &key) {
            Ok(i) => {
                assert(self@[i as int] == key@);
                assert(self@.contains(key@));
                assert(self@.to_set() =~= self@.to_set().insert(key@));
                false
            },
            Err(i) => {
                let ghost k = key@;
                let mut items: Vec<K> = Vec::new();
                std::mem::swap(&mut items, &mut self.items);
                items.insert(i, key);
                assert(views(items@) =~= before.insert(i as int, k));
                proof {
                    lemma_insert_increasing::<K>(before, i as int, k);
                }
                self.items = items;
                !present
            },
        }
    }

    /// Takes `key` out of the set; tells whether it was in it.
    pub fn remove(&mut self, key: &K) -> (removed: bool)
        ensures
            increasing::<K>(final(self)@),
            final(self)@.to_set() == old(self)@.to_set().remove(key@),
            removed == old(self)@.contains(key@),
    {
        proof {
            use_type_invariant(&*self);
        }
        let present = self.contains(key);
        let ghost before = self@;
        match locate(&self.items, key) {
            Ok(i) => {
                assert(before[i as int] == key@);
                let mut items: Vec<K> = Vec::new();
                std::mem::swap(&mut items, &mut self.items);
                items.remove(i);
                assert(views(items@) =~= before.remove(i as int));
                proof {
                    lemma_remove_increasing::<K>(before, i as int);
                }
                self.items = items;
                present
            },
            Err(i) => {
                proof {
                    if before.contains(key@) {
                        let j = choose|j: int| 0 <= j < before.len() && before[j] == key@;
                        assert(self.items[j]@ == key@);
                        K::before_irreflexive(key@);
                    }
                }
                assert(self@.to_set() =~= self@.to_set().remove(key@));
                false
            },
        }
    }

    /// The number of elements.
    pub fn len(&self) -> (r: usize)
        ensures
            r == self@.len(),
    {
        self.items.len()
    }

    /// Whether the set has no element.
    pub fn is_empty(&self) -> (r: bool)
        ensures
            r == (self@.len() == 0),
    {
        self.items.len() == 0
    }

    /// The element at position `i` of the increasing order.
    pub fn get(&self, i: usize) -> (r: &K)
        requires
            i < self@.len(),
        ensures
            r@ == self@[i as int],
    {
        &self.items[i]
    }

    /// A set with the same elements.
    pub fn duplicate(&self) -> (r: Self)
        ensures
            r@ == self@,
            increasing::<K>(r@),
    {
        proof {
            use_type_invariant(&*self);
        }
        let mut items: Vec<K> = Vec::new();
        let mut i: usize = 0;
        while i < self.items.len()
            invariant
                i <= self.items.len(),
                views(items@) == self@.take(i as int),
            decreases self.items.len() - i,
        {
            let ghost done = views(items@);
            items.push(self.items[i].duplicate());
            assert(views(items@) =~= done.push(self@[i as int]));
            assert(self@.take(i + 1) =~= self@.take(i as int).push(self@[i as int]));
            i += 1;
        }
        assert(self@.take(self.items.len() as int) =~= self@);
        SortedSet { items }
    }

    /// The set of the elements of `keys`.
    pub fn from_keys(keys: Vec<K>) -> (r: Self)
        ensures
            increasing::<K>(r@),
            r@.to_set() == views(keys@).to_set(),
    {
        let mut r: Self = SortedSet::new();
        assert(views(keys@).take(0).to_set() =~= r@.to_set());
        assert(increasing::<K>(r@));
        let mut i: usize = 0;
        while i < keys.len()
            invariant
                i <= keys.len(),
                increasing::<K>(r@),
                r@.to_set() == views(keys@).take(i as int).to_set(),
            decreases keys.len() - i,
        {
            r.insert(keys[i].duplicate());
            proof {
                lemma_take_to_set(views(keys@), i as int);
            }
            i += 1;
        }
        assert(views(keys@).take(keys.len() as int) =~= views(keys@));
        r
    }

    /// The elements of either set.
    pub fn union(&self, other: &Self) -> (r: Self)
        ensures
            increasing::<K>(r@),
            r@.to_set() == self@.to_set().union(other@.to_set()),
    {
        proof {
            use_type_invariant(&*self);
        }
        let mut r: Self = self.duplicate();
        assert(self@.to_set() =~= self@.to_set().union(other@.take(0).to_set()));
        let mut i: usize = 0;
        while i < other.items.len()
            invariant
                i <= other.items.len(),
                increasing::<K>(r@),
                r@.to_set() == self@.to_set().union(other@.take(i as int).to_set()),
            decreases other.items.len() - i,
        {
            r.insert(other.items[i].duplicate());
            proof {
                lemma_take_to_set(other@, i as int);
                assert(self@.to_set().union(other@.take(i as int).to_set()).insert(other@[i as int])
                    =~= self@.to_set().union(other@.take(i as int).to_set().insert(other@[i as int])));
            }
            i += 1;
        }
        assert(other@.take(other.items.len() as int) =~= other@);
        r
    }

    /// The elements of this set that are not in `other`.
    pub fn difference(&self, other: &Self) -> (r: Self)
        ensures
            increasing::<K>(r@),
            r@.to_set() == self@.to_set().difference(other@.to_set()),
    {
        proof {
            use_type_invariant(&*self);
        }
        let mut r: Self = self.duplicate();
        assert(self@.to_set() =~= self@.to_set().difference(other@.take(0).to_set()));
        let mut i: usize = 0;
        while i < other.items.len()
            invariant
                i <= other.items.len(),
                increasing::<K>(r@),
                r@.to_set() == self@.to_set().difference(other@.take(i as int).to_set()),
            decreases other.items.len() - i,
        {
            r.remove(&other.items[i]);
            proof {
                lemma_take_to_set(other@, i as int);
                assert(self@.to_set().difference(other@.take(i as int).to_set()).remove(
                    other@[i as int],
                ) =~= self@.to_set().difference(
                    other@.take(i as int).to_set().insert(other@[i as int]),
                ));
            }
            i += 1;
        }
        assert(other@.take(other.items.len() as int) =~= other@);
        r
    }

    /// Whether the two sets have the same elements.
    pub fn same(&self, other: &Self) -> (r: bool)
        ensures
            r == (self@ == other@),
    {
        if self.items.len() != other.items.len() {
            assert(self@.len() != other@.len());
            return false;
        }
        let mut i: usize = 0;
        while i < self.items.len()
            invariant
                i <= self.items.len(),
                self.items.len() == other.items.len(),
                forall|j: int| 0 <= j < i ==> self@[j] == other@[j],
            decreases self.items.len() - i,
        {
            match self.items[i].compare(&other.items[i]) {
                Comparison::Equal => {},
                Comparison::Less => {
                    proof {
                        K::before_irreflexive(self@[i as int]);
                        assert(self@[i as int] != other@[i as int]);
                    }
                    return false;
                },
                Comparison::Greater => {
                    proof {
                        K::before_irreflexive(self@[i as int]);
                        assert(self@[i as int] != other@[i as int]);
                    }
                    return false;
                },
            }
            i += 1;
        }
        assert(self@ =~= other@);
        true
    }
}

proof fn lemma_take_to_set<A>(s: Seq<A>, i: int)
    requires
        0 <= i < s.len(),
    ensures
        s.take(i + 1).to_set() == s.take(i).to_set().insert(s[i]),
{
    let t = s.take(i + 1);
    assert forall|x: A| t.to_set().contains(x) <==> s.take(i).to_set().insert(s[i]).contains(x) by {
        if t.contains(x) {
            let p = choose|p: int| 0 <= p < t.len() && t[p] == x;
            if p < i {
                assert(s.take(i)[p] == x);
            }
        }
        if s.take(i).contains(x) {
            let p = choose|p: int| 0 <= p < i && s.take(i)[p] == x;
            assert(t[p] == x);
        }
        assert(t[i] == s[i]);
    }
    assert(t.to_set() =~= s.take(i).to_set().insert(s[i]));
}

/// A map from keys to values, kept in increasing order of its keys.
pub struct SortedMap<K: Key, W> {
    keys: Vec<K>,
    values: Vec<W>,
}

spec fn pairing<A, W>(keys: Seq<A>, values: Seq<W>) -> Map<A, W> {
    Map::new(|k: A| keys.contains(k), |k: A| values[keys.index_of(k)])
}

proof fn lemma_pairing_at<A, W>(keys: Seq<A>, values: Seq<W>, i: int)
    requires
        keys.no_duplicates(),
        keys.len() == values.len(),
        0 <= i < keys.len(),
    ensures
        pairing(keys, values).contains_key(keys[i]),
        pairing(keys, values)[keys[i]] == values[i],
{
    assert(keys.contains(keys[i]));
    assert(keys.index_of(keys[i]) == i);
}

impl<K: Key, W> View for SortedMap<K, W> {
    type V = Map<K::V, W>;

    closed spec fn view(&self) -> Map<K::V, W> {
        pairing(views(self.keys@), self.values@)
    }
}

impl<K: Key, W> SortedMap<K, W> {
    #[verifier::type_invariant]
    spec fn ordered(self) -> bool {
        &&& self.keys@.len() == self.values@.len()
        &&& increasing::<K>(views(self.keys@))
    }

    /// The empty map.
    pub fn new() -> (r: Self)
        ensures
            r@ == Map::<K::V, W>::empty(),
    {
        let r = SortedMap { keys: Vec::new(), values: Vec::new() };
        assert(r@ =~= Map::<K::V, W>::empty());
        r
    }

    /// The value of `key`, where it has one.
    pub fn get(&self, key: &K) -> (r: Option<&W>)
        ensures
            match r {
                Some(w) => self@.contains_key(key@) && self@[key@] == *w,
                None => !self@.contains_key(key@),
            },
    {
        proof {
            use_type_invariant(&*self);
            lemma_increasing_distinct::<K>(views(self.keys@));
        }
        let ghost ks = views(self.keys@);
        match locate(&self.keys, key) {
            Ok(i) => {
                proof {
                    assert(ks[i as int] == key@);
                    lemma_pairing_at(ks, self.values@, i as int);
                }
                Some(&self.values[i])
            },
            Err(i) => {
                proof {
                    if ks.contains(key@) {
                        let j = choose|j: int| 0 <= j < ks.len() && ks[j] == key@;
                        assert(self.keys[j]@ == key@);
                        K::before_irreflexive(key@);
                    }
                }
                None
            },
        }
    }

    /// Whether `key` has a value.
    pub fn contains_key(&self, key: &K) -> (r: bool)
        ensures
            r == self@.contains_key(key@),
    {
        match self.get(key) {
            Some(_) => true,
            None => false,
        }
    }

    /// Gives `key` the value `value`, in place of the one it had.
    pub fn insert(&mut self, key: K, value: W)
        ensures
            final(self)@ == old(self)@.insert(key@, value),
    {
        proof {
            use_type_invariant(&*self);
            lemma_increasing_distinct::<K>(views(self.keys@));
        }
        let ghost ks = views(self.keys@);
        let ghost vs = self.values@;
        let ghost k = key@;
        let found = locate(&self.keys, &key);
        let mut taken: Self = SortedMap::new();
        std::mem::swap(&mut taken, self);
        let SortedMap { mut keys, mut values } = taken;
        match found {
            Ok(i) => {
                assert(ks[i as int] == k);
                values.set(i, value);
                proof {
                    lemma_pairing_update(ks, vs, i as int, value);
                }
            },
            Err(i) => {
                keys.insert(i, key);
                values.insert(i, value);
                assert(views(keys@) =~= ks.insert(i as int, k));
                proof {
                    lemma_insert_increasing::<K>(ks, i as int, k);
                    lemma_increasing_distinct::<K>(ks.insert(i as int, k));
                    lemma_pairing_insert(ks, vs, i as int, k, value);
                }
            },
        }
        *self = SortedMap { keys, values };
    }

    /// Takes `key` and its value out of the map.
    pub fn remove(&mut self, key: &K) -> (r: Option<W>)
        ensures
            final(self)@ == old(self)@.remove(key@),
            match r {
                Some(w) => old(self)@.contains_key(key@) && old(self)@[key@] == w,
                None => !old(self)@.contains_key(key@),
            },
    {
        proof {
            use_type_invariant(&*self);
            lemma_increasing_distinct::<K>(views(self.keys@));
        }
        let ghost ks = views(self.keys@);
        let ghost vs = self.values@;
        match locate(&self.keys, key) {
            Ok(i) => {
                let mut taken: Self = SortedMap::new();
                std::mem::swap(&mut taken, self);
                let SortedMap { mut keys, mut values } = taken;
                keys.remove(i);
                let value = values.remove(i);
                assert(views(keys@) =~= ks.remove(i as int));
                proof {
                    assert(ks[i as int] == key@);
                    lemma_pairing_at(ks, vs, i as int);
                    lemma_remove_increasing::<K>(ks, i as int);
                    lemma_increasing_distinct::<K>(ks.remove(i as int));
                    lemma_pairing_remove(ks, vs, i as int);
                }
                *self = SortedMap { keys, values };
                Some(value)
            },
            Err(i) => {
                proof {
                    if ks.contains(key@) {
                        let j = choose|j: int| 0 <= j < ks.len() && ks[j] == key@;
                        assert(self.keys[j]@ == key@);
                        K::before_irreflexive(key@);
                    }
                    assert(self@ =~= self@.remove(key@));
                }
                None
            },
        }
    }
}

proof fn lemma_pairing_update<A, W>(ks: Seq<A>, vs: Seq<W>, i: int, value: W)
    requires
        ks.no_duplicates(),
        ks.len() == vs.len(),
        0 <= i < ks.len(),
    ensures
        pairing(ks, vs.update(i, value)) == pairing(ks, vs).insert(ks[i], value),
{
    let a = pairing(ks, vs.update(i, value));
    let b = pairing(ks, vs).insert(ks[i], value);
    assert forall|x: A| a.contains_key(x) <==> b.contains_key(x) by {
        assert(ks.contains(ks[i]));
    }
    assert forall|x: A| a.contains_key(x) implies a[x] == b[x] by {
        let p = choose|p: int| 0 <= p < ks.len() && ks[p] == x;
        lemma_pairing_at(ks, vs, p);
        lemma_pairing_at(ks, vs.update(i, value), p);
    }
    assert(a =~= b);
}

proof fn lemma_pairing_insert<A, W>(ks: Seq<A>, vs: Seq<W>, i: int, k: A, value: W)
    requires
        ks.no_duplicates(),
        ks.insert(i, k).no_duplicates(),
        ks.len() == vs.len(),
        0 <= i <= ks.len(),
    ensures
        pairing(ks.insert(i, k), vs.insert(i, value)) == pairing(ks, vs).insert(k, value),
{
    let ks2 = ks.insert(i, k);
    let vs2 = vs.insert(i, value);
    let a = pairing(ks2, vs2);
    let b = pairing(ks, vs).insert(k, value);
    assert forall|x: A| a.contains_key(x) <==> b.contains_key(x) by {
        if ks2.contains(x) {
            let p = choose|p: int| 0 <= p < ks2.len() && ks2[p] == x;
            if p < i {
                assert(ks[p] == x);
            } else if p > i {
                assert(ks[p - 1] == x);
            }
        }
        if ks.contains(x) {
            let p = choose|p: int| 0 <= p < ks.len() && ks[p] == x;
            assert(ks2[if p < i { p } else { p + 1 }] == x);
        }
        assert(ks2[i] == k);
    }
    assert forall|x: A| a.contains_key(x) implies a[x] == b[x] by {
        let p = choose|p: int| 0 <= p < ks2.len() && ks2[p] == x;
        lemma_pairing_at(ks2, vs2, p);
        if p < i {
            lemma_pairing_at(ks, vs, p);
            assert(ks2[p] != ks2[i]);
        } else if p > i {
            lemma_pairing_at(ks, vs, p - 1);
            assert(ks2[p] != ks2[i]);
        }
    }
    assert(a =~= b);
}

proof fn lemma_pairing_remove<A, W>(ks: Seq<A>, vs: Seq<W>, i: int)
    requires
        ks.no_duplicates(),
        ks.remove(i).no_duplicates(),
        ks.len() == vs.len(),
        0 <= i < ks.len(),
    ensures
        pairing(ks.remove(i), vs.remove(i)) == pairing(ks, vs).remove(ks[i]),
{
    let ks2 = ks.remove(i);
    let vs2 = vs.remove(i);
    let a = pairing(ks2, vs2);
    let b = pairing(ks, vs).remove(ks[i]);
    assert forall|x: A| a.contains_key(x) <==> b.contains_key(x) by {
        if ks2.contains(x) {
            let p = choose|p: int| 0 <= p < ks2.len() && ks2[p] == x;
            let q = if p < i { p } else { p + 1 };
            assert(ks[q] == x);
            assert(ks[q] != ks[i]);
        }
        if ks.contains(x) && x != ks[i] {
            let p = choose|p: int| 0 <= p < ks.len() && ks[p] == x;
            assert(ks2[if p < i { p } else { p - 1 }] == x);
        }
    }
    assert forall|x: A| a.contains_key(x) implies a[x] == b[x] by {
        let p = choose|p: int| 0 <= p < ks2.len() && ks2[p] == x;
        lemma_pairing_at(ks2, vs2, p);
        lemma_pairing_at(ks, vs, if p < i { p } else { p + 1 });
    }
    assert(a =~= b);
}

/// In order, of two elements of a set the one that comes before the other has the earlier place,
/// and every element has a place.
pub proof fn elements_in_order_follow_each_other<K: Key>(set: Set<K::V>, a: K::V, b: K::V) -> (p: (
    int,
    int,
))
    requires
        set.finite(),
        set.contains(a),
        set.contains(b),
        K::before(a, b),
    ensures
        0 <= p.0 < p.1 < in_order::<K>(set).len(),
        in_order::<K>(set)[p.0] == a,
        in_order::<K>(set)[p.1] == b,
{
    let s = in_order::<K>(set);
    finite_set_in_order::<K>(set);
    lemma_to_set_contains(s, a);
    lemma_to_set_contains(s, b);
    let i = choose|i: int| 0 <= i < s.len() && s[i] == a;
    let j = choose|j: int| 0 <= j < s.len() && s[j] == b;
    K::before_irreflexive(a);
    if j < i {
        assert(K::before(s[j], s[i]));
        K::before_transitive(a, b, a);
    }
    (i, j)
}

} // verus!
