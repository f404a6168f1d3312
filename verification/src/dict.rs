//! A dictionary keyed by text, kept in key order, so that whatever is derived
//! from it comes out in one order.

use vstd::prelude::*;

use crate::text::{rank, text_lt, text_lt_irreflexive, text_lt_total, text_lt_transitive, Rank};

verus! {

/// A value that can be copied without changing what it stands for.
pub trait Duplicate: DeepView + Sized {
    fn duplicate(&self) -> (r: Self)
        ensures
            r.deep_view() == self.deep_view(),
    ;
}

impl Duplicate for String {
    fn duplicate(&self) -> (r: Self) {
        self.clone()
    }
}

impl Duplicate for bool {
    fn duplicate(&self) -> (r: Self) {
        *self
    }
}

impl<T: Duplicate> Duplicate for Vec<T> {
    fn duplicate(&self) -> (r: Self) {
        let mut r: Vec<T> = Vec::new();
        let mut i: usize = 0;
        while i < self.len()
            invariant
                i <= self.len(),
                r.len() == i,
                forall|k: int| 0 <= k < i ==> (#[trigger] r@[k]).deep_view() == self@[k].deep_view(),
            decreases self.len() - i,
        {
            r.push(self[i].duplicate());
            i += 1;
        }
        proof {
            assert(r.deep_view() =~= self.deep_view());
        }
        r
    }
}

impl<T: Duplicate> Duplicate for Option<T> {
    fn duplicate(&self) -> (r: Self) {
        match self {
            Some(x) => Some(x.duplicate()),
            None => None,
        }
    }
}

/// Keys that strictly increase.
pub open spec fn keys_increase<T>(m: Seq<(Seq<char>, T)>) -> bool {
    forall|i: int, j: int| 0 <= i < j < m.len() ==> text_lt((#[trigger] m[i]).0, (#[trigger] m[j]).0)
}

/// One of the entries has this key.
pub open spec fn has_key<T>(m: Seq<(Seq<char>, T)>, k: Seq<char>) -> bool {
    exists|i: int| 0 <= i < m.len() && (#[trigger] m[i]).0 == k
}

/// Where the entry with this key stands.
pub open spec fn key_index<T>(m: Seq<(Seq<char>, T)>, k: Seq<char>) -> int {
    choose|i: int| 0 <= i < m.len() && (#[trigger] m[i]).0 == k
}

/// The entries as a map.
pub open spec fn as_map<T>(m: Seq<(Seq<char>, T)>) -> Map<Seq<char>, T> {
    Map::new(|k: Seq<char>| has_key(m, k), |k: Seq<char>| m[key_index(m, k)].1)
}

/// The value under this key, if there is one.
pub open spec fn lookup<T>(m: Seq<(Seq<char>, T)>, k: Seq<char>) -> Option<T> {
    if has_key(m, k) {
        Some(m[key_index(m, k)].1)
    } else {
        None
    }
}

/// With increasing keys an entry is found where it stands.
pub proof fn key_index_is<T>(m: Seq<(Seq<char>, T)>, i: int)
    requires
        keys_increase(m),
        0 <= i < m.len(),
    ensures
        has_key(m, m[i].0),
        key_index(m, m[i].0) == i,
        lookup(m, m[i].0) == Some(m[i].1),
{
    let j = key_index(m, m[i].0);
    assert(m[i].0 == m[i].0);
    text_lt_irreflexive(m[i].0);
    if j < i {
        assert(text_lt(m[j].0, m[i].0));
    } else if i < j {
        assert(text_lt(m[i].0, m[j].0));
    }
}

/// Looking up a key is looking it up in the map.
pub proof fn lookup_is_map<T>(m: Seq<(Seq<char>, T)>, k: Seq<char>)
    ensures
        lookup(m, k) is Some <==> as_map(m).contains_key(k),
        lookup(m, k) is Some ==> lookup(m, k) == Some(as_map(m)[k]),
{
}

/// Two tables in order that stand for one map are one table.
pub proof fn increasing_tables_agree<T>(a: Seq<(Seq<char>, T)>, b: Seq<(Seq<char>, T)>)
    requires
        keys_increase(a),
        keys_increase(b),
        as_map(a) == as_map(b),
    ensures
        a == b,
    decreases a.len(),
{
    if a.len() == 0 {
        if b.len() > 0 {
            assert(has_key(b, b[0].0));
            assert(as_map(a).contains_key(b[0].0));
        }
        assert(a =~= b);
    } else {
        let i = a.len() - 1;
        let k = a[i].0;
        key_index_is(a, i);
        assert(as_map(b).contains_key(k));
        let j = b.len() - 1;
        let l = b[j].0;
        key_index_is(b, j);
        assert(as_map(a).contains_key(l));
        if k != l {
            let p = key_index(b, k);
            let q = key_index(a, l);
            assert(text_lt(b[p].0, b[j].0));
            assert(text_lt(a[q].0, a[i].0));
            text_lt_transitive(k, l, k);
            text_lt_irreflexive(k);
        }
        assert(as_map(a)[k] == a[i].1);
        assert(as_map(b)[k] == b[j].1);
        without_last(a);
        without_last(b);
        increasing_tables_agree(a.drop_last(), b.drop_last());
        assert(a =~= a.drop_last().push(a[i]));
        assert(b =~= b.drop_last().push(b[j]));
    }
}

proof fn without_last<T>(m: Seq<(Seq<char>, T)>)
    requires
        keys_increase(m),
        m.len() > 0,
    ensures
        keys_increase(m.drop_last()),
        as_map(m.drop_last()) == as_map(m).remove(m.last().0),
{
    let front = m.drop_last();
    let last = m.len() - 1;
    assert(keys_increase(front)) by {
        assert forall|i: int, j: int| 0 <= i < j < front.len() implies text_lt(
            (#[trigger] front[i]).0,
            (#[trigger] front[j]).0,
        ) by {
            assert(text_lt(m[i].0, m[j].0));
        }
    }
    let a = as_map(front);
    let b = as_map(m).remove(m.last().0);
    assert forall|k: Seq<char>| a.contains_key(k) == b.contains_key(k) by {
        if has_key(front, k) {
            let i = key_index(front, k);
            assert(m[i].0 == k);
            assert(text_lt(m[i].0, m[last].0));
            text_lt_irreflexive(k);
        }
        if has_key(m, k) && k != m.last().0 {
            let i = key_index(m, k);
            assert(front[i].0 == k);
        }
    }
    assert forall|k: Seq<char>| a.contains_key(k) implies a[k] == b[k] by {
        let i = key_index(front, k);
        key_index_is(front, i);
        key_index_is(m, i);
        assert(m[i].0 == k);
    }
    assert(a =~= b);
}

/// An entry more, after all the others.
proof fn pushed<T>(m: Seq<(Seq<char>, T)>, e: (Seq<char>, T))
    requires
        keys_increase(m),
        forall|i: int| 0 <= i < m.len() ==> text_lt((#[trigger] m[i]).0, e.0),
    ensures
        keys_increase(m.push(e)),
        as_map(m.push(e)) == as_map(m).insert(e.0, e.1),
{
    let n = m.push(e);
    assert forall|i: int, j: int| 0 <= i < j < n.len() implies text_lt(
        (#[trigger] n[i]).0,
        (#[trigger] n[j]).0,
    ) by {
        if j < m.len() {
            assert(text_lt(m[i].0, m[j].0));
        } else {
            assert(text_lt(m[i].0, e.0));
        }
    }
    inserted(m, m.insert(m.len() as int, e), m.len() as int, false, e.0, e.1);
    assert(m.insert(m.len() as int, e) =~= n);
}

/// A table in key order with a value put under a key, in place of the one that was there.
pub open spec fn with_entry<T>(m: Seq<(Seq<char>, T)>, k: Seq<char>, v: T) -> Seq<(Seq<char>, T)>
    decreases m.len(),
{
    if m.len() == 0 {
        seq![(k, v)]
    } else if m.last().0 == k {
        m.drop_last().push((k, v))
    } else if text_lt(m.last().0, k) {
        m.push((k, v))
    } else {
        with_entry(m.drop_last(), k, v).push(m.last())
    }
}

/// The keys stay in order, and the table is the map with the value put in.
pub proof fn with_entry_is_insert<T>(m: Seq<(Seq<char>, T)>, k: Seq<char>, v: T)
    requires
        keys_increase(m),
    ensures
        keys_increase(with_entry(m, k, v)),
        as_map(with_entry(m, k, v)) == as_map(m).insert(k, v),
    decreases m.len(),
{
    if m.len() == 0 {
        pushed(m, (k, v));
        assert(m.push((k, v)) =~= seq![(k, v)]);
    } else {
        let front = m.drop_last();
        let e = m.last();
        let last = m.len() - 1;
        without_last(m);
        assert forall|i: int| 0 <= i < front.len() implies text_lt((#[trigger] front[i]).0, e.0) by {
            assert(text_lt(m[i].0, m[last].0));
        }
        pushed(front, e);
        assert(front.push(e) =~= m);
        if e.0 == k {
            pushed(front, (k, v));
            assert(as_map(front).insert(k, v) =~= as_map(front).insert(k, e.1).insert(k, v));
        } else if text_lt(e.0, k) {
            assert forall|i: int| 0 <= i < m.len() implies text_lt((#[trigger] m[i]).0, k) by {
                if i < last {
                    assert(text_lt(front[i].0, e.0));
                    text_lt_transitive(m[i].0, e.0, k);
                }
            }
            pushed(m, (k, v));
        } else {
            text_lt_total(e.0, k);
            with_entry_is_insert(front, k, v);
            let inner = with_entry(front, k, v);
            assert forall|i: int| 0 <= i < inner.len() implies text_lt((#[trigger] inner[i]).0, e.0) by {
                assert(has_key(inner, inner[i].0));
                assert(as_map(inner).contains_key(inner[i].0));
                if inner[i].0 != k {
                    assert(as_map(front).contains_key(inner[i].0));
                    let j = key_index(front, inner[i].0);
                    assert(front[j].0 == inner[i].0);
                }
            }
            pushed(inner, e);
            assert(as_map(front).insert(k, v).insert(e.0, e.1) =~= as_map(front).insert(
                e.0,
                e.1,
            ).insert(k, v));
        }
    }
}

/// The first value from the `i`-th entry on with this key.
pub open spec fn value_from<T>(m: Seq<(Seq<char>, T)>, k: Seq<char>, i: int) -> Option<T>
    decreases m.len() - i,
{
    if i < 0 || i >= m.len() {
        None
    } else if m[i].0 == k {
        Some(m[i].1)
    } else {
        value_from(m, k, i + 1)
    }
}

/// With increasing keys the first value is the one in the map.
pub proof fn value_from_is_lookup<T>(m: Seq<(Seq<char>, T)>, k: Seq<char>, i: int)
    requires
        keys_increase(m),
        0 <= i <= m.len(),
        forall|j: int| 0 <= j < i ==> (#[trigger] m[j]).0 != k,
    ensures
        value_from(m, k, i) == lookup(m, k),
    decreases m.len() - i,
{
    if i < m.len() {
        if m[i].0 == k {
            key_index_is(m, i);
        } else {
            value_from_is_lookup(m, k, i + 1);
        }
    }
}

/// A map after these entries were put into it one after the other.
pub open spec fn put_all<T>(m: Map<Seq<char>, T>, list: Seq<(Seq<char>, T)>) -> Map<Seq<char>, T>
    decreases list.len(),
{
    if list.len() == 0 {
        m
    } else {
        put_all(m, list.drop_last()).insert(list.last().0, list.last().1)
    }
}

/// Putting in one more entry.
pub proof fn put_all_push<T>(m: Map<Seq<char>, T>, list: Seq<(Seq<char>, T)>, e: (Seq<char>, T))
    ensures
        put_all(m, list.push(e)) == put_all(m, list).insert(e.0, e.1),
{
    assert(list.push(e).drop_last() =~= list);
}

/// Putting in two lists is putting in one behind the other.
pub proof fn put_all_concat<T>(
    m: Map<Seq<char>, T>,
    a: Seq<(Seq<char>, T)>,
    b: Seq<(Seq<char>, T)>,
)
    ensures
        put_all(m, a + b) == put_all(put_all(m, a), b),
    decreases b.len(),
{
    if b.len() == 0 {
        assert(a + b =~= a);
    } else {
        assert((a + b).drop_last() =~= a + b.drop_last());
        put_all_concat(m, a, b.drop_last());
    }
}

/// The keys are those that were there and those put in, and each value put in
/// stands in the list under its key.
pub proof fn put_all_members<T>(m: Map<Seq<char>, T>, list: Seq<(Seq<char>, T)>, k: Seq<char>)
    ensures
        put_all(m, list).contains_key(k) <==> m.contains_key(k) || has_key(list, k),
        put_all(m, list).contains_key(k) && !m.contains_key(k) ==> list.contains(
            (k, put_all(m, list)[k]),
        ),
    decreases list.len(),
{
    if list.len() > 0 {
        let front = list.drop_last();
        put_all_members(m, front, k);
        if has_key(front, k) {
            let i = key_index(front, k);
            assert(list[i].0 == k);
        }
        if has_key(list, k) {
            let i = key_index(list, k);
            if i < front.len() {
                assert(front[i].0 == k);
            }
        }
        assert(list[list.len() - 1].0 == list.last().0);
        if put_all(m, list).contains_key(k) && !m.contains_key(k) {
            if k == list.last().0 {
                assert(list[list.len() - 1] == (k, put_all(m, list)[k]));
            } else {
                let i = front.index_of((k, put_all(m, front)[k]));
                assert(list[i] == (k, put_all(m, list)[k]));
            }
        }
    }
}

/// What was put in last under a key is what stands there.
pub proof fn put_all_last<T>(m: Map<Seq<char>, T>, list: Seq<(Seq<char>, T)>, i: int)
    requires
        0 <= i < list.len(),
        forall|j: int| i < j < list.len() ==> (#[trigger] list[j]).0 != list[i].0,
    ensures
        put_all(m, list).contains_key(list[i].0),
        put_all(m, list)[list[i].0] == list[i].1,
    decreases list.len(),
{
    if i < list.len() - 1 {
        let front = list.drop_last();
        assert(list[list.len() - 1].0 != list[i].0);
        assert forall|j: int| i < j < front.len() implies (#[trigger] front[j]).0 != front[i].0 by {
            assert(list[j].0 != list[i].0);
        }
        put_all_last(m, front, i);
    }
}

/// What stands under a key stays there where nothing is put in under it.
pub proof fn put_all_leaves<T>(m: Map<Seq<char>, T>, list: Seq<(Seq<char>, T)>, k: Seq<char>)
    requires
        !has_key(list, k),
    ensures
        put_all(m, list).contains_key(k) == m.contains_key(k),
        m.contains_key(k) ==> put_all(m, list)[k] == m[k],
    decreases list.len(),
{
    if list.len() > 0 {
        let front = list.drop_last();
        assert(list[list.len() - 1].0 != k);
        assert(!has_key(front, k)) by {
            if has_key(front, k) {
                let i = key_index(front, k);
                assert(list[i].0 == k);
            }
        }
        put_all_leaves(m, front, k);
    }
}

/// A table in key order is the map of its entries put in one after the other.
pub proof fn put_all_is_map<T>(m: Seq<(Seq<char>, T)>)
    requires
        keys_increase(m),
    ensures
        put_all(Map::<Seq<char>, T>::empty(), m) == as_map(m),
    decreases m.len(),
{
    if m.len() == 0 {
        assert(as_map(m) =~= Map::<Seq<char>, T>::empty());
    } else {
        let last = m.len() - 1;
        without_last(m);
        put_all_is_map(m.drop_last());
        key_index_is(m, last);
        assert(as_map(m).remove(m.last().0).insert(m.last().0, m.last().1) =~= as_map(m));
    }
}

/// A dictionary keyed by text.
#[derive(Debug, PartialEq)]
pub struct Dict<V> {
    entries: Vec<(String, V)>,
}

impl<V> View for Dict<V> {
    type V = Seq<(String, V)>;

    closed spec fn view(&self) -> Seq<(String, V)> {
        self.entries@
    }
}

impl<V: DeepView> DeepView for Dict<V> {
    type V = Seq<(Seq<char>, V::V)>;

    open spec fn deep_view(&self) -> Seq<(Seq<char>, V::V)> {
        Seq::new(self@.len(), |i: int| (self@[i].0@, self@[i].1.deep_view()))
    }
}

impl<V> Dict<V> {
    /// The keys strictly increase.
    #[verifier::type_invariant]
    pub open spec fn sorted(self) -> bool {
        forall|i: int, j: int|
            0 <= i < j < self@.len() ==> text_lt((#[trigger] self@[i]).0@, (#[trigger] self@[j]).0@)
    }

    /// How many entries there are.
    pub fn len(&self) -> (r: usize)
        ensures
            r == self@.len(),
    {
        self.entries.len()
    }

    /// The key of the entry at this position.
    pub fn key(&self, i: usize) -> (r: &String)
        requires
            i < self@.len(),
        ensures
            *r == self@[i as int].0,
    {
        &self.entries[i].0
    }

    /// The value of the entry at this position.
    pub fn value(&self, i: usize) -> (r: &V)
        requires
            i < self@.len(),
        ensures
            *r == self@[i as int].1,
    {
        &self.entries[i].1
    }
}

/// The keys of a sorted table increase.
pub proof fn increases_when_sorted<V: DeepView>(d: Dict<V>)
    requires
        d.sorted(),
    ensures
        keys_increase(d.deep_view()),
{
    let m = d.deep_view();
    assert forall|i: int, j: int| 0 <= i < j < m.len() implies text_lt(
        (#[trigger] m[i]).0,
        (#[trigger] m[j]).0,
    ) by {
        assert(text_lt(d@[i].0@, d@[j].0@));
    }
}

impl<V: DeepView> Dict<V> {
    /// No entries.
    pub fn new() -> (r: Self)
        ensures
            r.deep_view() == Seq::<(Seq<char>, V::V)>::empty(),
            r@.len() == 0,
    {
        let r = Dict { entries: Vec::new() };
        proof {
            assert(r.deep_view() =~= Seq::<(Seq<char>, V::V)>::empty());
        }
        r
    }

    /// Whether there are no entries.
    pub fn is_empty(&self) -> (r: bool)
        ensures
            r == (self.deep_view().len() == 0),
    {
        self.entries.len() == 0
    }

    /// The first position whose key does not come before `k`.
    fn lower_bound(&self, k: &str) -> (r: usize)
        ensures
            r <= self@.len(),
            forall|i: int| 0 <= i < r ==> text_lt((#[trigger] self@[i]).0@, k@),
            forall|i: int| r <= i < self@.len() ==> !text_lt((#[trigger] self@[i]).0@, k@),
    {
        proof {
            use_type_invariant(self);
        }
        let mut lo: usize = 0;
        let mut hi: usize = self.entries.len();
        while lo < hi
            invariant
                lo <= hi <= self@.len(),
                self@ == self.entries@,
                self.sorted(),
                forall|i: int| 0 <= i < lo ==> text_lt((#[trigger] self@[i]).0@, k@),
                forall|i: int| hi <= i < self@.len() ==> !text_lt((#[trigger] self@[i]).0@, k@),
            decreases hi - lo,
        {
            let mid: usize = lo + (hi - lo) / 2;
            match rank(self.entries[mid].0.as_str(), k) {
                Rank::Before => {
                    proof {
                        assert forall|i: int| 0 <= i < mid + 1 implies text_lt((#[trigger] self@[i]).0@, k@) by {
                            if i < mid {
                                text_lt_transitive(self@[i].0@, self@[mid as int].0@, k@);
                            }
                        }
                    }
                    lo = mid + 1;
                },
                _ => {
                    proof {
                        assert forall|i: int| mid <= i < self@.len() implies !text_lt((#[trigger] self@[i]).0@, k@) by {
                            if mid < i && text_lt(self@[i].0@, k@) {
                                text_lt_transitive(self@[mid as int].0@, self@[i].0@, k@);
                            }
                        }
                    }
                    hi = mid;
                },
            }
        }
        lo
    }

    /// Where the entry with this key stands, if there is one.
    pub fn position(&self, k: &str) -> (r: Option<usize>)
        ensures
            match r {
                Some(p) => p < self.deep_view().len() && self.deep_view()[p as int].0 == k@,
                None => !has_key(self.deep_view(), k@),
            },
    {
        let p: usize = self.lower_bound(k);
        let ghost m = self.deep_view();
        proof {
            use_type_invariant(self);
            assert forall|i: int, j: int| 0 <= i < j < m.len() implies text_lt((#[trigger] m[i]).0, (#[trigger] m[j]).0) by {
                assert(m[i].0 == self@[i].0@);
                assert(m[j].0 == self@[j].0@);
            }
        }
        if p < self.entries.len() {
            match rank(self.entries[p].0.as_str(), k) {
                Rank::Same => {
                    proof {
                        key_index_is(m, p as int);
                    }
                    return Some(p);
                },
                _ => {},
            }
        }
        proof {
            assert forall|i: int| 0 <= i < m.len() implies (#[trigger] m[i]).0 != k@ by {
                text_lt_irreflexive(k@);
                if i < p {
                    assert(text_lt(self@[i].0@, k@));
                } else if i > p {
                    assert(!text_lt(self@[p as int].0@, k@));
                    text_lt_total(self@[p as int].0@, k@);
                    assert(text_lt(k@, self@[p as int].0@));
                    text_lt_transitive(k@, self@[p as int].0@, self@[i].0@);
                }
            }
        }
        None
    }

    /// The value under this key, if there is one.
    pub fn get(&self, k: &str) -> (r: Option<&V>)
        ensures
            match r {
                Some(v) => lookup(self.deep_view(), k@) == Some(v.deep_view()),
                None => lookup(self.deep_view(), k@) is None,
            },
            r is Some <==> has_key(self.deep_view(), k@),
    {
        let p: usize = match self.position(k) {
            Some(p) => p,
            None => {
                return None;
            },
        };
        proof {
            use_type_invariant(self);
            increases_when_sorted(*self);
            key_index_is(self.deep_view(), p as int);
        }
        Some(&self.entries[p].1)
    }

    /// Whether there is an entry with this key.
    pub fn contains_key(&self, k: &str) -> (r: bool)
        ensures
            r == has_key(self.deep_view(), k@),
    {
        match self.get(k) {
            Some(_) => true,
            None => false,
        }
    }

    /// Puts a value under a key, in place of the one that was there.
    pub fn insert(&mut self, k: String, v: V)
        ensures
            as_map(final(self).deep_view()) == as_map(old(self).deep_view()).insert(
                k@,
                v.deep_view(),
            ),
            (forall|i: int|
                0 <= i < old(self).deep_view().len() ==> text_lt(
                    (#[trigger] old(self).deep_view()[i]).0,
                    k@,
                )) ==> final(self).deep_view() == old(self).deep_view().push((k@, v.deep_view())),
    {
        let p: usize = self.lower_bound(k.as_str());
        let ghost before = self@;
        let ghost m = self.deep_view();
        let ghost key = k@;
        let ghost val = v.deep_view();
        proof {
            use_type_invariant(&*self);
        }
        let present = p < self.entries.len() && match rank(self.entries[p].0.as_str(), k.as_str()) {
            Rank::Same => true,
            _ => false,
        };
        proof {
            assert forall|i: int| p <= i < before.len() && !(i == p && present) implies text_lt(
                key,
                (#[trigger] before[i]).0@,
            ) by {
                text_lt_total(before[i].0@, key);
                if before[i].0@ == key {
                    if i > p {
                        assert(text_lt(before[p as int].0@, before[i].0@));
                    }
                }
            }
        }
        let mut fresh: Vec<(String, V)> = Vec::new();
        core::mem::swap(&mut self.entries, &mut fresh);
        if present {
            fresh[p] = (k, v);
        } else {
            fresh.insert(p, (k, v));
        }
        *self = Dict { entries: fresh };
        proof {
            let n = self.deep_view();
            let after = self@;
            assert(keys_increase(m)) by {
                assert forall|i: int, j: int| 0 <= i < j < m.len() implies text_lt((#[trigger] m[i]).0, (#[trigger] m[j]).0) by {
                    assert(m[i].0 == before[i].0@);
                    assert(m[j].0 == before[j].0@);
                }
            }
            assert(keys_increase(n)) by {
                assert forall|i: int, j: int| 0 <= i < j < n.len() implies text_lt((#[trigger] n[i]).0, (#[trigger] n[j]).0) by {
                    assert(n[i].0 == after[i].0@);
                    assert(n[j].0 == after[j].0@);
                }
            }
            if present {
                assert(n =~= m.update(p as int, (key, val)));
            } else {
                assert(n =~= m.insert(p as int, (key, val)));
            }
            inserted(m, n, p as int, present, key, val);
            if forall|i: int| 0 <= i < m.len() ==> text_lt((#[trigger] m[i]).0, key) {
                if p < m.len() {
                    assert(text_lt(m[p as int].0, key));
                }
                assert(n =~= m.push((key, val)));
            }
        }
    }
}

/// What it is to replace, or to put in, one entry in key order.
proof fn inserted<T>(
    m: Seq<(Seq<char>, T)>,
    n: Seq<(Seq<char>, T)>,
    p: int,
    present: bool,
    key: Seq<char>,
    val: T,
)
    requires
        keys_increase(m),
        keys_increase(n),
        0 <= p <= m.len(),
        present ==> p < m.len() && m[p].0 == key && n == m.update(p, (key, val)),
        !present ==> n == m.insert(p, (key, val)),
    ensures
        as_map(n) == as_map(m).insert(key, val),
{
    let a = as_map(n);
    let b = as_map(m).insert(key, val);
    assert(n[p] == (key, val));
    key_index_is(n, p);
    assert forall|k: Seq<char>| a.dom().contains(k) == b.dom().contains(k) by {
        if has_key(n, k) {
            let i = key_index(n, k);
            if i != p {
                let j = if present || i < p { i } else { i - 1 };
                assert(m[j] == n[i]);
            }
        }
        if has_key(m, k) {
            let j = key_index(m, k);
            let i = if present || j < p { j } else { j + 1 };
            if present && j == p {
            } else {
                assert(n[i] == m[j]);
            }
        }
    }
    assert forall|k: Seq<char>| a.dom().contains(k) implies a[k] == b[k] by {
        let i = key_index(n, k);
        if i == p {
        } else {
            let j = if present || i < p { i } else { i - 1 };
            assert(m[j] == n[i]);
            key_index_is(m, j);
            key_index_is(n, i);
            if k == key {
                assert(false);
            }
        }
    }
    assert(a =~= b);
}

impl<V: Duplicate> Duplicate for Dict<V> {
    fn duplicate(&self) -> (r: Self) {
        let mut fresh: Vec<(String, V)> = Vec::new();
        let mut i: usize = 0;
        while i < self.entries.len()
            invariant
                i <= self@.len(),
                self@ == self.entries@,
                fresh.len() == i,
                forall|k: int|
                    0 <= k < i ==> (#[trigger] fresh@[k]).0@ == self@[k].0@
                        && fresh@[k].1.deep_view() == self@[k].1.deep_view(),
            decreases self@.len() - i,
        {
            fresh.push((self.entries[i].0.clone(), self.entries[i].1.duplicate()));
            i += 1;
        }
        proof {
            use_type_invariant(self);
            assert forall|i: int, j: int| 0 <= i < j < fresh@.len() implies text_lt((#[trigger] fresh@[i]).0@, (#[trigger] fresh@[j]).0@) by {
                assert(text_lt(self@[i].0@, self@[j].0@));
            }
        }
        let r = Dict { entries: fresh };
        proof {
            assert(r.deep_view() =~= self.deep_view());
        }
        r
    }
}

/// Texts that strictly increase.
pub open spec fn names_increase(s: Seq<Seq<char>>) -> bool {
    forall|i: int, j: int| 0 <= i < j < s.len() ==> text_lt(#[trigger] s[i], #[trigger] s[j])
}

/// Increasing texts with the same members are the same list.
pub proof fn increasing_is_unique(a: Seq<Seq<char>>, b: Seq<Seq<char>>)
    requires
        names_increase(a),
        names_increase(b),
        forall|k: Seq<char>| a.contains(k) <==> b.contains(k),
    ensures
        a == b,
    decreases a.len(),
{
    if a.len() == 0 {
        if b.len() > 0 {
            assert(b.contains(b[0]));
        }
        assert(a =~= b);
    } else {
        assert(a.contains(a.last()));
        let j = b.index_of(a.last());
        assert(b.contains(b.last()));
        let i = a.index_of(b.last());
        text_lt_irreflexive(a.last());
        if i < a.len() - 1 && j < b.len() - 1 {
            assert(text_lt(a[i], a[a.len() - 1]));
            assert(text_lt(b[j], b[b.len() - 1]));
            text_lt_transitive(a.last(), b.last(), a.last());
        }
        assert(a.last() == b.last()) by {
            if i == a.len() - 1 {
            } else {
                assert(j == b.len() - 1);
            }
        }
        let c = a.drop_last();
        let d = b.drop_last();
        assert forall|k: Seq<char>| c.contains(k) <==> d.contains(k) by {
            if c.contains(k) {
                let p = c.index_of(k);
                assert(a[p] == k);
                assert(text_lt(a[p], a[a.len() - 1]));
                let q = b.index_of(k);
                assert(b.contains(k));
                assert(q != b.len() - 1);
                assert(d[q] == k);
            }
            if d.contains(k) {
                let q = d.index_of(k);
                assert(b[q] == k);
                assert(text_lt(b[q], b[b.len() - 1]));
                let p = a.index_of(k);
                assert(a.contains(k));
                assert(p != a.len() - 1);
                assert(c[p] == k);
            }
        }
        increasing_is_unique(c, d);
        assert(a =~= c.push(a.last()));
        assert(b =~= d.push(b.last()));
    }
}

/// Increasing texts drawn from others are no more than those.
pub proof fn increasing_fits(a: Seq<Seq<char>>, b: Seq<Seq<char>>)
    requires
        names_increase(a),
        names_increase(b),
        forall|k: Seq<char>| a.contains(k) ==> b.contains(k),
    ensures
        a.len() <= b.len(),
{
    increasing_no_duplicates(a);
    increasing_no_duplicates(b);
    a.unique_seq_to_set();
    b.unique_seq_to_set();
    assert(a.to_set().subset_of(b.to_set()));
    vstd::set_lib::lemma_len_subset(a.to_set(), b.to_set());
}

proof fn increasing_no_duplicates(a: Seq<Seq<char>>)
    requires
        names_increase(a),
    ensures
        a.no_duplicates(),
{
    assert forall|i: int, j: int| 0 <= i < a.len() && 0 <= j < a.len() && i != j implies a[i] != a[j] by {
        text_lt_irreflexive(a[i]);
        if i < j {
            assert(text_lt(a[i], a[j]));
        } else {
            assert(text_lt(a[j], a[i]));
        }
    }
}

/// A set of texts, kept in order.
#[derive(Debug, PartialEq)]
pub struct NameSet {
    names: Vec<String>,
}

impl View for NameSet {
    type V = Seq<String>;

    closed spec fn view(&self) -> Seq<String> {
        self.names@
    }
}

impl DeepView for NameSet {
    type V = Seq<Seq<char>>;

    open spec fn deep_view(&self) -> Seq<Seq<char>> {
        Seq::new(self@.len(), |i: int| self@[i]@)
    }
}

impl NameSet {
    /// The names strictly increase.
    #[verifier::type_invariant]
    pub open spec fn sorted(self) -> bool {
        forall|i: int, j: int|
            0 <= i < j < self@.len() ==> text_lt((#[trigger] self@[i])@, (#[trigger] self@[j])@)
    }

    /// No names.
    pub fn new() -> (r: Self)
        ensures
            r.deep_view() == Seq::<Seq<char>>::empty(),
    {
        let r = NameSet { names: Vec::new() };
        proof {
            assert(r.deep_view() =~= Seq::<Seq<char>>::empty());
        }
        r
    }

    /// How many names there are.
    pub fn len(&self) -> (r: usize)
        ensures
            r == self@.len(),
    {
        self.names.len()
    }

    /// Whether there are no names.
    pub fn is_empty(&self) -> (r: bool)
        ensures
            r == (self.deep_view().len() == 0),
    {
        self.names.len() == 0
    }

    /// The name at this position.
    pub fn name(&self, i: usize) -> (r: &String)
        requires
            i < self@.len(),
        ensures
            *r == self@[i as int],
    {
        &self.names[i]
    }

    /// The first position whose name does not come before `k`, and whether `k`
    /// stands there.
    fn locate(&self, k: &str) -> (r: (usize, bool))
        ensures
            r.0 <= self@.len(),
            forall|i: int| 0 <= i < r.0 ==> text_lt((#[trigger] self@[i])@, k@),
            forall|i: int| r.0 <= i < self@.len() && !(i == r.0 && r.1) ==> text_lt(k@, (#[trigger] self@[i])@),
            r.1 ==> r.0 < self@.len() && self@[r.0 as int]@ == k@,
    {
        proof {
            use_type_invariant(self);
        }
        let mut lo: usize = 0;
        let mut hi: usize = self.names.len();
        while lo < hi
            invariant
                lo <= hi <= self@.len(),
                self@ == self.names@,
                self.sorted(),
                forall|i: int| 0 <= i < lo ==> text_lt((#[trigger] self@[i])@, k@),
                forall|i: int| hi <= i < self@.len() ==> text_lt(k@, (#[trigger] self@[i])@),
            decreases hi - lo,
        {
            let mid: usize = lo + (hi - lo) / 2;
            match rank(self.names[mid].as_str(), k) {
                Rank::Same => {
                    proof {
                        assert forall|i: int| mid < i < self@.len() implies text_lt(k@, (#[trigger] self@[i])@) by {
                            assert(text_lt(self@[mid as int]@, self@[i]@));
                        }
                        assert forall|i: int| 0 <= i < mid implies text_lt((#[trigger] self@[i])@, k@) by {
                            assert(text_lt(self@[i]@, self@[mid as int]@));
                        }
                    }
                    return (mid, true);
                },
                Rank::Before => {
                    proof {
                        assert forall|i: int| 0 <= i < mid + 1 implies text_lt((#[trigger] self@[i])@, k@) by {
                            if i < mid {
                                text_lt_transitive(self@[i]@, self@[mid as int]@, k@);
                            }
                        }
                    }
                    lo = mid + 1;
                },
                Rank::After => {
                    proof {
                        assert forall|i: int| mid <= i < self@.len() implies text_lt(k@, (#[trigger] self@[i])@) by {
                            if mid < i {
                                text_lt_transitive(k@, self@[mid as int]@, self@[i]@);
                            }
                        }
                    }
                    hi = mid;
                },
            }
        }
        (lo, false)
    }

    /// Whether this name is in the set.
    pub fn contains(&self, k: &str) -> (r: bool)
        ensures
            r == self.deep_view().contains(k@),
    {
        let (p, found) = self.locate(k);
        proof {
            text_lt_irreflexive(k@);
            if found {
                assert(self.deep_view()[p as int] == k@);
            } else if self.deep_view().contains(k@) {
                let i = self.deep_view().index_of(k@);
                assert(self@[i]@ == k@);
            }
        }
        found
    }

    /// Puts a name in, where it is not there yet.
    pub fn insert(&mut self, k: String)
        ensures
            final(self).deep_view().to_set() == old(self).deep_view().to_set().insert(k@),
            names_increase(final(self).deep_view()),
            (forall|i: int|
                0 <= i < old(self).deep_view().len() ==> text_lt(
                    #[trigger] old(self).deep_view()[i],
                    k@,
                )) ==> final(self).deep_view() == old(self).deep_view().push(k@),
            old(self).deep_view().contains(k@) ==> final(self).deep_view() == old(self).deep_view(),
            !old(self).deep_view().contains(k@) ==> final(self).deep_view().len() == old(
                self,
            ).deep_view().len() + 1,
    {
        let (p, found) = self.locate(k.as_str());
        let ghost m = self.deep_view();
        let ghost before = self@;
        let ghost key = k@;
        proof {
            use_type_invariant(&*self);
            text_lt_irreflexive(key);
        }
        if !found {
            let mut fresh: Vec<String> = Vec::new();
            core::mem::swap(&mut self.names, &mut fresh);
            fresh.insert(p, k);
            *self = NameSet { names: fresh };
        }
        proof {
            let n = self.deep_view();
            let after = self@;
            use_type_invariant(&*self);
            assert forall|i: int, j: int| 0 <= i < j < n.len() implies text_lt(#[trigger] n[i], #[trigger] n[j]) by {
                assert(text_lt(after[i]@, after[j]@));
            }
            if found {
                assert(n =~= m);
                assert(m[p as int] == key);
                assert(m.to_set().insert(key) =~= m.to_set());
                if forall|i: int| 0 <= i < m.len() ==> text_lt(#[trigger] m[i], key) {
                    assert(text_lt(m[p as int], key));
                }
            } else {
                assert(n =~= m.insert(p as int, key));
                assert forall|x: Seq<char>| n.to_set().contains(x) == m.to_set().insert(key).contains(x) by {
                    if n.contains(x) {
                        let i = n.index_of(x);
                        if i < p {
                            assert(m[i] == x);
                        } else if i > p {
                            assert(m[i - 1] == x);
                        }
                    }
                    if m.contains(x) {
                        let i = m.index_of(x);
                        if i < p {
                            assert(n[i] == x);
                        } else {
                            assert(n[i + 1] == x);
                        }
                    }
                    if x == key {
                        assert(n[p as int] == x);
                    }
                }
                assert(n.to_set() =~= m.to_set().insert(key));
                if forall|i: int| 0 <= i < m.len() ==> text_lt(#[trigger] m[i], key) {
                    if p < m.len() {
                        assert(text_lt(m[p as int], key));
                        assert(text_lt(key, before[p as int]@));
                        text_lt_transitive(key, m[p as int], key);
                    }
                    assert(n =~= m.push(key));
                }
                if m.contains(key) {
                    let i = m.index_of(key);
                    assert(before[i]@ == key);
                }
            }
        }
    }

    /// The names as a list, in order.
    pub fn to_list(&self) -> (r: Vec<String>)
        ensures
            r.deep_view() == self.deep_view(),
    {
        let r = self.names.duplicate();
        proof {
            assert(r.deep_view() =~= self.deep_view());
        }
        r
    }
}

impl Duplicate for NameSet {
    fn duplicate(&self) -> (r: Self) {
        let fresh = self.names.duplicate();
        proof {
            use_type_invariant(self);
            assert(fresh.deep_view().len() == self.names.deep_view().len());
            assert forall|i: int, j: int| 0 <= i < j < fresh@.len() implies text_lt((#[trigger] fresh@[i])@, (#[trigger] fresh@[j])@) by {
                assert(fresh.deep_view()[i] == self.names.deep_view()[i]);
                assert(fresh.deep_view()[j] == self.names.deep_view()[j]);
                assert(text_lt(self@[i]@, self@[j]@));
            }
        }
        let r = NameSet { names: fresh };
        proof {
            assert forall|i: int| 0 <= i < r@.len() implies r.deep_view()[i] == self.deep_view()[i] by {
                assert(fresh.deep_view()[i] == self.names.deep_view()[i]);
            }
            assert(r.deep_view() =~= self.deep_view());
        }
        r
    }
}

} // verus!
