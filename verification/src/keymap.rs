//! Maps from text, kept as a vector of entries in the order of their keys.

use vstd::prelude::*;

use crate::text::chars_of;

verus! {

/// The order of texts: by the first character in which they differ, and a text before
/// every longer one that begins with it.
pub open spec fn text_lt(a: Seq<char>, b: Seq<char>) -> bool
    decreases a.len(),
{
    if b.len() == 0 {
        false
    } else if a.len() == 0 {
        true
    } else if a[0] != b[0] {
        a[0] < b[0]
    } else {
        text_lt(a.drop_first(), b.drop_first())
    }
}

/// No text comes before itself.
pub proof fn lemma_lt_irreflexive(a: Seq<char>)
    ensures
        !text_lt(a, a),
    decreases a.len(),
{
    if a.len() > 0 {
        lemma_lt_irreflexive(a.drop_first());
    }
}

/// What comes before something comes before what that comes before.
pub proof fn lemma_lt_transitive(a: Seq<char>, b: Seq<char>, c: Seq<char>)
    requires
        text_lt(a, b),
        text_lt(b, c),
    ensures
        text_lt(a, c),
    decreases a.len(),
{
    if a.len() > 0 && b.len() > 0 && c.len() > 0 && a[0] == b[0] && b[0] == c[0] {
        lemma_lt_transitive(a.drop_first(), b.drop_first(), c.drop_first());
    }
}

/// Of two different texts one comes before the other.
pub proof fn lemma_lt_total(a: Seq<char>, b: Seq<char>)
    ensures
        a == b || text_lt(a, b) || text_lt(b, a),
    decreases a.len(),
{
    if a.len() == 0 {
        assert(b.len() == 0 ==> a =~= b);
    } else if b.len() > 0 && a[0] == b[0] {
        lemma_lt_total(a.drop_first(), b.drop_first());
        if a.drop_first() == b.drop_first() {
            assert(a =~= seq![a[0]] + a.drop_first());
            assert(b =~= seq![b[0]] + b.drop_first());
        }
    }
}

/// How two texts stand to each other.
#[derive(Clone, Copy, Debug, PartialEq, Eq, Structural)]
pub enum TextOrder {
    Before,
    Same,
    After,
}

/// How `a` stands to `b`.
pub fn order_of(a: &str, b: &str) -> (r: TextOrder)
    ensures
        r == TextOrder::Before <==> text_lt(a@, b@),
        r == TextOrder::Same <==> a@ == b@,
        r == TextOrder::After <==> text_lt(b@, a@),
{
    let x = chars_of(a);
    let y = chars_of(b);
    let mut i: usize = 0;
    proof {
        assert(x@.skip(0) =~= x@);
        assert(y@.skip(0) =~= y@);
        lemma_lt_irreflexive(x@);
    }
    while i < x.len() && i < y.len() && x[i] == y[i]
        invariant
            i <= x@.len(),
            i <= y@.len(),
            x@ == a@,
            y@ == b@,
            text_lt(a@, b@) == text_lt(x@.skip(i as int), y@.skip(i as int)),
            text_lt(b@, a@) == text_lt(y@.skip(i as int), x@.skip(i as int)),
            forall|k: int| 0 <= k < i ==> a@[k] == b@[k],
        decreases x.len() - i,
    {
        assert(x@.skip(i as int).drop_first() =~= x@.skip(i + 1));
        assert(y@.skip(i as int).drop_first() =~= y@.skip(i + 1));
        i = i + 1;
    }
    if i == x.len() && i == y.len() {
        assert(a@ =~= b@);
        proof {
            lemma_lt_irreflexive(a@);
        }
        TextOrder::Same
    } else if i == x.len() {
        TextOrder::Before
    } else if i == y.len() {
        TextOrder::After
    } else if x[i] < y[i] {
        assert(a@[i as int] != b@[i as int]);
        TextOrder::Before
    } else {
        assert(a@[i as int] != b@[i as int]);
        TextOrder::After
    }
}

/// A map from text to values.
#[derive(Clone, Debug, PartialEq, Eq)]
pub struct KeyMap<V> {
    entries: Vec<(String, V)>,
}

/// The keys of the entries come one before the other, so that none occurs twice.
pub open spec fn keys_ascend<V>(s: Seq<(Seq<char>, V)>) -> bool {
    forall|i: int, j: int|
        #![trigger s[i], s[j]]
        0 <= i < j < s.len() ==> text_lt(s[i].0, s[j].0)
}

/// Some entry has the key `k`.
pub open spec fn has_key<V>(s: Seq<(Seq<char>, V)>, k: Seq<char>) -> bool {
    exists|i: int| 0 <= i < s.len() && (#[trigger] s[i]).0 == k
}

/// The index of an entry with the key `k`.
pub open spec fn index_of_key<V>(s: Seq<(Seq<char>, V)>, k: Seq<char>) -> int {
    choose|i: int| 0 <= i < s.len() && (#[trigger] s[i]).0 == k
}

/// The map that entries with ascending keys stand for.
pub open spec fn map_of<V>(s: Seq<(Seq<char>, V)>) -> Map<Seq<char>, V> {
    Map::new(|k: Seq<char>| has_key(s, k), |k: Seq<char>| s[index_of_key(s, k)].1)
}

/// The entry at an index is the one that its key leads to.
pub proof fn lemma_entry<V>(s: Seq<(Seq<char>, V)>, i: int)
    requires
        keys_ascend(s),
        0 <= i < s.len(),
    ensures
        map_of(s).dom().contains(s[i].0),
        map_of(s)[s[i].0] == s[i].1,
{
    let k = s[i].0;
    assert(has_key(s, k));
    let j = index_of_key(s, k);
    lemma_lt_irreflexive(k);
    assert(i == j);
}

impl<V> KeyMap<V> {
    /// The entries, in the order of their keys.
    pub closed spec fn pairs(self) -> Seq<(Seq<char>, V)> {
        self.entries@.map_values(|e: (String, V)| (e.0@, e.1))
    }

    /// The keys come one before the other.
    pub open spec fn wf(self) -> bool {
        keys_ascend(self.pairs())
    }
}

impl<V> View for KeyMap<V> {
    type V = Map<Seq<char>, V>;

    open spec fn view(&self) -> Map<Seq<char>, V> {
        map_of(self.pairs())
    }
}

impl<V> KeyMap<V> {
    /// An empty map.
    pub fn new() -> (r: KeyMap<V>)
        ensures
            r.wf(),
            r@ == Map::<Seq<char>, V>::empty(),
            r.pairs().len() == 0,
    {
        let r = KeyMap { entries: Vec::new() };
        assert(r@ =~= Map::<Seq<char>, V>::empty());
        r
    }

    /// How many entries there are.
    pub fn len(&self) -> (r: usize)
        ensures
            r == self.pairs().len(),
    {
        self.entries.len()
    }

    /// There are no entries.
    pub fn is_empty(&self) -> (r: bool)
        ensures
            r == (self@ == Map::<Seq<char>, V>::empty()),
            r == (self.pairs().len() == 0),
    {
        if self.entries.len() == 0 {
            assert(self@ =~= Map::<Seq<char>, V>::empty());
            true
        } else {
            assert(has_key(self.pairs(), self.pairs()[0].0));
            assert(self@.dom().contains(self.pairs()[0].0));
            false
        }
    }

    /// The key of the `i`-th entry.
    pub fn key_at(&self, i: usize) -> (r: &String)
        requires
            i < self.pairs().len(),
        ensures
            r@ == self.pairs()[i as int].0,
    {
        &self.entries[i].0
    }

    /// The value of the `i`-th entry.
    pub fn value_at(&self, i: usize) -> (r: &V)
        requires
            i < self.pairs().len(),
        ensures
            *r == self.pairs()[i as int].1,
    {
        &self.entries[i].1
    }

    /// How many keys come before `key`, and whether the next one is `key` itself.
    fn locate(&self, key: &str) -> (r: (usize, bool))
        requires
            self.wf(),
        ensures
            r.0 <= self.pairs().len(),
            forall|k: int|
                0 <= k < r.0 ==> text_lt((#[trigger] self.pairs()[k]).0, key@),
            r.1 ==> r.0 < self.pairs().len() && self.pairs()[r.0 as int].0 == key@,
            !r.1 ==> forall|k: int|
                r.0 <= k < self.pairs().len() ==> text_lt(key@, (#[trigger] self.pairs()[k]).0),
            r.1 == self@.dom().contains(key@),
    {
        let mut i: usize = 0;
        let ghost s = self.pairs();
        while i < self.entries.len()
            invariant
                i <= s.len(),
                s == self.pairs(),
                s.len() == self.entries@.len(),
                keys_ascend(s),
                forall|k: int| 0 <= k < i ==> text_lt((#[trigger] s[k]).0, key@),
            decreases self.entries.len() - i,
        {
            assert(s[i as int].0 == self.entries@[i as int].0@);
            match order_of(&self.entries[i].0, key) {
                TextOrder::Before => {
                    i = i + 1;
                },
                TextOrder::Same => {
                    assert(has_key(s, key@));
                    return (i, true);
                },
                TextOrder::After => {
                    proof {
                        assert forall|k: int| i <= k < s.len() implies text_lt(
                            key@,
                            (#[trigger] s[k]).0,
                        ) by {
                            if k > i {
                                assert(text_lt(s[i as int].0, s[k].0));
                                lemma_lt_transitive(key@, s[i as int].0, s[k].0);
                            }
                        }
                        lemma_absent(s, key@, i as int);
                    }
                    return (i, false);
                },
            }
        }
        proof {
            lemma_absent(s, key@, i as int);
        }
        (i, false)
    }

    /// The value of a key.
    pub fn get(&self, key: &str) -> (r: Option<&V>)
        requires
            self.wf(),
        ensures
            match r {
                Some(v) => self@.dom().contains(key@) && *v == self@[key@],
                None => !self@.dom().contains(key@),
            },
    {
        let (i, found) = self.locate(key);
        if found {
            proof {
                lemma_entry(self.pairs(), i as int);
            }
            Some(&self.entries[i].1)
        } else {
            None
        }
    }

    /// Whether there is an entry for a key.
    pub fn contains_key(&self, key: &str) -> (r: bool)
        requires
            self.wf(),
        ensures
            r == self@.dom().contains(key@),
    {
        self.locate(key).1
    }

    /// Sets the value of a key.
    pub fn insert(&mut self, key: String, value: V)
        requires
            old(self).wf(),
        ensures
            final(self).wf(),
            final(self)@ == old(self)@.insert(key@, value),
    {
        let (i, found) = self.locate(&key);
        let ghost s = self.pairs();
        let ghost k = key@;
        if found {
            self.entries[i] = (key, value);
            assert(self.pairs() =~= s.update(i as int, (k, value)));
        } else {
            self.entries.insert(i, (key, value));
            assert(self.pairs() =~= s.insert(i as int, (k, value)));
        }
        proof {
            lemma_insert(s, i as int, found, k, value);
            if found {
                assert(self@ =~= map_of(s).insert(k, value));
            } else {
                assert(self@ =~= map_of(s).insert(k, value));
            }
        }
    }

    /// Takes the entry of a key out.
    pub fn remove(&mut self, key: &str) -> (r: Option<V>)
        requires
            old(self).wf(),
        ensures
            final(self).wf(),
            final(self)@ == old(self)@.remove(key@),
            match r {
                Some(v) => old(self)@.dom().contains(key@) && v == old(self)@[key@],
                None => !old(self)@.dom().contains(key@),
            },
    {
        let (i, found) = self.locate(key);
        let ghost s = self.pairs();
        if found {
            let (_, value) = self.entries.remove(i);
            proof {
                assert(self.pairs() =~= s.remove(i as int));
                lemma_entry(s, i as int);
                lemma_remove(s, i as int);
            }
            Some(value)
        } else {
            assert(self@ =~= old(self)@.remove(key@));
            None
        }
    }

    /// Takes all entries out.
    pub fn clear(&mut self)
        ensures
            final(self).wf(),
            final(self)@ == Map::<Seq<char>, V>::empty(),
    {
        self.entries.clear();
        assert(self@ =~= Map::<Seq<char>, V>::empty());
    }
}

/// A key that lies between two neighbours is not there.
proof fn lemma_absent<V>(s: Seq<(Seq<char>, V)>, k: Seq<char>, i: int)
    requires
        0 <= i <= s.len(),
        forall|j: int| 0 <= j < i ==> text_lt((#[trigger] s[j]).0, k),
        forall|j: int| i <= j < s.len() ==> text_lt(k, (#[trigger] s[j]).0),
    ensures
        !has_key(s, k),
{
    lemma_lt_irreflexive(k);
}

proof fn lemma_insert<V>(s: Seq<(Seq<char>, V)>, i: int, found: bool, k: Seq<char>, v: V)
    requires
        keys_ascend(s),
        0 <= i <= s.len(),
        found ==> i < s.len() && s[i].0 == k,
        forall|j: int| 0 <= j < i ==> text_lt((#[trigger] s[j]).0, k),
        !found ==> forall|j: int| i <= j < s.len() ==> text_lt(k, (#[trigger] s[j]).0),
    ensures
        ({
            let t = if found {
                s.update(i, (k, v))
            } else {
                s.insert(i, (k, v))
            };
            keys_ascend(t) && map_of(t) =~= map_of(s).insert(k, v)
        }),
{
    let t = if found {
        s.update(i, (k, v))
    } else {
        s.insert(i, (k, v))
    };
    assert forall|a: int, b: int|
        #![trigger t[a], t[b]]
        0 <= a < b < t.len() implies text_lt(t[a].0, t[b].0) by {
        if !found {
            let a0 = if a < i {
                a
            } else {
                a - 1
            };
            let b0 = if b < i {
                b
            } else {
                b - 1
            };
            if a != i {
                assert(t[a] == s[a0]);
            }
            if b != i {
                assert(t[b] == s[b0]);
            }
        } else {
            assert(s[a].0 == t[a].0);
            assert(s[b].0 == t[b].0);
        }
    }
    lemma_entry(t, i);
    assert(t[i] == (k, v));
    assert forall|x: Seq<char>| #[trigger]
        map_of(t).dom().contains(x) <==> map_of(s).insert(k, v).dom().contains(x) by {
        if has_key(s, x) {
            let j = index_of_key(s, x);
            if found {
                assert(t[j].0 == x);
            } else if j < i {
                assert(t[j] == s[j]);
            } else {
                assert(t[j + 1] == s[j]);
            }
            assert(has_key(t, x));
        }
        if has_key(t, x) && x != k {
            let j = index_of_key(t, x);
            if found {
                assert(s[j].0 == x);
            } else if j < i {
                assert(s[j] == t[j]);
            } else {
                assert(s[j - 1] == t[j]);
            }
            assert(has_key(s, x));
        }
    }
    assert forall|x: Seq<char>| #[trigger] map_of(t).dom().contains(x) implies map_of(t)[x]
        == map_of(s).insert(k, v)[x] by {
        if x != k {
            let j = index_of_key(t, x);
            lemma_entry(t, j);
            if found || j < i {
                assert(s[j] == t[j]);
                lemma_entry(s, j);
            } else {
                assert(s[j - 1] == t[j]);
                lemma_entry(s, j - 1);
            }
        }
    }
}

proof fn lemma_remove<V>(s: Seq<(Seq<char>, V)>, i: int)
    requires
        keys_ascend(s),
        0 <= i < s.len(),
    ensures
        keys_ascend(s.remove(i)),
        map_of(s.remove(i)) =~= map_of(s).remove(s[i].0),
{
    let t = s.remove(i);
    let k = s[i].0;
    assert forall|a: int, b: int|
        #![trigger t[a], t[b]]
        0 <= a < b < t.len() implies text_lt(t[a].0, t[b].0) by {
        let a0 = if a < i {
            a
        } else {
            a + 1
        };
        let b0 = if b < i {
            b
        } else {
            b + 1
        };
        assert(t[a] == s[a0]);
        assert(t[b] == s[b0]);
    }
    lemma_lt_irreflexive(k);
    assert forall|x: Seq<char>| #[trigger]
        map_of(t).dom().contains(x) <==> map_of(s).remove(k).dom().contains(x) by {
        if has_key(t, x) {
            let j = index_of_key(t, x);
            let j0 = if j < i {
                j
            } else {
                j + 1
            };
            assert(s[j0] == t[j]);
            assert(has_key(s, x));
            assert(x != k);
        }
        if has_key(s, x) && x != k {
            let j = index_of_key(s, x);
            let j1 = if j < i {
                j
            } else {
                j - 1
            };
            assert(t[j1] == s[j]);
            assert(has_key(t, x));
        }
    }
    assert forall|x: Seq<char>| #[trigger] map_of(t).dom().contains(x) implies map_of(t)[x]
        == map_of(s).remove(k)[x] by {
        let j = index_of_key(t, x);
        lemma_entry(t, j);
        let j0 = if j < i {
            j
        } else {
            j + 1
        };
        assert(s[j0] == t[j]);
        lemma_entry(s, j0);
    }
}

/// Each text comes before the next one.
pub open spec fn texts_ascend(v: Seq<Seq<char>>) -> bool {
    forall|i: int, j: int|
        #![trigger v[i], v[j]]
        0 <= i < j < v.len() ==> text_lt(v[i], v[j])
}

/// The texts of a set, in order.
pub open spec fn in_order(s: Set<Seq<char>>) -> Seq<Seq<char>> {
    choose|v: Seq<Seq<char>>| texts_ascend(v) && #[trigger] v.to_set() == s
}

/// Two ascending sequences of the same texts are the same.
proof fn lemma_ascending_unique(a: Seq<Seq<char>>, b: Seq<Seq<char>>)
    requires
        texts_ascend(a),
        texts_ascend(b),
        a.to_set() == b.to_set(),
    ensures
        a == b,
    decreases a.len(),
{
    if a.len() == 0 {
        if b.len() > 0 {
            assert(b.to_set().contains(b[0]));
            assert(a.to_set().contains(b[0]));
        }
        assert(a =~= b);
    } else {
        assert(a.to_set().contains(a[0]));
        assert(b.to_set().contains(a[0]));
        assert(b.to_set().contains(b[0]));
        assert(a.to_set().contains(b[0]));
        let i = choose|i: int| 0 <= i < b.len() && b[i] == a[0];
        let j = choose|j: int| 0 <= j < a.len() && a[j] == b[0];
        if a[0] != b[0] {
            assert(text_lt(b[0], b[i]));
            assert(text_lt(a[0], a[j]));
            lemma_lt_transitive(a[0], b[0], a[0]);
            lemma_lt_irreflexive(a[0]);
        }
        let c = a.drop_first();
        let d = b.drop_first();
        assert forall|t: Seq<char>| c.to_set().contains(t) <==> d.to_set().contains(t) by {
            lemma_rest(a, t);
            lemma_rest(b, t);
        }
        assert(c.to_set() =~= d.to_set());
        lemma_ascending_unique(c, d);
        assert(a =~= seq![a[0]] + c);
        assert(b =~= seq![b[0]] + d);
    }
}

/// The texts behind the first one are the others.
proof fn lemma_rest(a: Seq<Seq<char>>, t: Seq<char>)
    requires
        a.len() > 0,
        texts_ascend(a),
    ensures
        a.drop_first().to_set().contains(t) <==> a.to_set().contains(t) && t != a[0],
{
    let c = a.drop_first();
    if c.to_set().contains(t) {
        let i = choose|i: int| 0 <= i < c.len() && c[i] == t;
        assert(a[i + 1] == t);
        assert(a.contains(t));
        assert(text_lt(a[0], a[i + 1]));
        lemma_lt_irreflexive(t);
    }
    if a.to_set().contains(t) && t != a[0] {
        let i = choose|i: int| 0 <= i < a.len() && a[i] == t;
        assert(c[i - 1] == t);
        assert(c.contains(t));
    }
}

/// An ascending sequence of the texts of a set is that set in order.
pub proof fn lemma_in_order(v: Seq<Seq<char>>, s: Set<Seq<char>>)
    requires
        texts_ascend(v),
        v.to_set() == s,
    ensures
        in_order(s) == v,
{
    lemma_ascending_unique(in_order(s), v);
}

/// An ascending sequence with one more text in its place.
spec fn placed(v: Seq<Seq<char>>, t: Seq<char>) -> Seq<Seq<char>>
    decreases v.len(),
{
    if v.len() == 0 || text_lt(t, v[0]) {
        seq![t] + v
    } else {
        seq![v[0]] + placed(v.drop_first(), t)
    }
}

proof fn lemma_placed(v: Seq<Seq<char>>, t: Seq<char>)
    requires
        texts_ascend(v),
        !v.contains(t),
    ensures
        texts_ascend(placed(v, t)),
        placed(v, t).to_set() == v.to_set().insert(t),
    decreases v.len(),
{
    let r = placed(v, t);
    if v.len() == 0 || text_lt(t, v[0]) {
        assert forall|i: int, j: int|
            #![trigger r[i], r[j]]
            0 <= i < j < r.len() implies text_lt(r[i], r[j]) by {
            assert(r[j] == v[j - 1]);
            if i > 0 {
                assert(r[i] == v[i - 1]);
            } else if j > 1 {
                assert(text_lt(v[0], v[j - 1]));
                lemma_lt_transitive(t, v[0], v[j - 1]);
            }
        }
        assert forall|x: Seq<char>| r.to_set().contains(x) <==> v.to_set().insert(t).contains(
            x,
        ) by {
            if v.contains(x) {
                let i = choose|i: int| 0 <= i < v.len() && v[i] == x;
                assert(r[i + 1] == x);
            }
            assert(r[0] == t);
        }
        assert(r.to_set() =~= v.to_set().insert(t));
    } else {
        let rest = v.drop_first();
        assert(!rest.contains(t)) by {
            if rest.contains(t) {
                let i = choose|i: int| 0 <= i < rest.len() && rest[i] == t;
                assert(v[i + 1] == t);
            }
        }
        assert forall|i: int, j: int|
            #![trigger rest[i], rest[j]]
            0 <= i < j < rest.len() implies text_lt(rest[i], rest[j]) by {
            assert(text_lt(v[i + 1], v[j + 1]));
        }
        lemma_placed(rest, t);
        let q = placed(rest, t);
        assert(v.contains(v[0]));
        lemma_lt_total(t, v[0]);
        assert forall|j: int| 0 <= j < q.len() implies text_lt(v[0], #[trigger] q[j]) by {
            assert(q.to_set().contains(q[j]));
            if q[j] != t {
                assert(rest.contains(q[j]));
                let i = choose|i: int| 0 <= i < rest.len() && rest[i] == q[j];
                assert(text_lt(v[0], v[i + 1]));
            }
        }
        assert forall|i: int, j: int|
            #![trigger r[i], r[j]]
            0 <= i < j < r.len() implies text_lt(r[i], r[j]) by {
            assert(r[j] == q[j - 1]);
            if i > 0 {
                assert(r[i] == q[i - 1]);
            }
        }
        assert forall|x: Seq<char>| r.to_set().contains(x) <==> v.to_set().insert(t).contains(
            x,
        ) by {
            if r.contains(x) {
                let i = choose|i: int| 0 <= i < r.len() && r[i] == x;
                if i > 0 {
                    assert(q[i - 1] == x);
                    assert(q.to_set().contains(x));
                    if x != t {
                        let m = choose|m: int| 0 <= m < rest.len() && rest[m] == x;
                        assert(v[m + 1] == x);
                    }
                }
            }
            if v.contains(x) || x == t {
                if x == v[0] {
                    assert(r[0] == x);
                } else {
                    if x != t {
                        let m = choose|m: int| 0 <= m < v.len() && v[m] == x;
                        assert(rest[m - 1] == x);
                    }
                    assert(q.to_set().contains(x));
                    let i = choose|i: int| 0 <= i < q.len() && q[i] == x;
                    assert(r[i + 1] == x);
                }
            }
        }
        assert(r.to_set() =~= v.to_set().insert(t));
    }
}

proof fn lemma_can_be_ordered(s: Set<Seq<char>>) -> (v: Seq<Seq<char>>)
    requires
        s.finite(),
    ensures
        texts_ascend(v),
        v.to_set() == s,
    decreases s.len(),
{
    if s.len() == 0 {
        let v = Seq::<Seq<char>>::empty();
        assert(v.to_set() =~= s);
        v
    } else {
        let t = s.choose();
        let rest = lemma_can_be_ordered(s.remove(t));
        assert(!rest.to_set().contains(t));
        lemma_placed(rest, t);
        assert(s.remove(t).insert(t) =~= s);
        placed(rest, t)
    }
}

/// The texts of a finite set can be put in order.
pub proof fn lemma_finite_in_order(s: Set<Seq<char>>)
    requires
        s.finite(),
    ensures
        texts_ascend(in_order(s)),
        forall|t: Seq<char>| #[trigger] s.contains(t) <==> in_order(s).contains(t),
{
    let v = lemma_can_be_ordered(s);
    lemma_in_order(v, s);
    assert forall|t: Seq<char>| #[trigger] s.contains(t) <==> in_order(s).contains(t) by {
        assert(v.to_set().contains(t) <==> v.contains(t));
    }
}

/// The keys of the entries.
pub open spec fn keys_of<V>(s: Seq<(Seq<char>, V)>) -> Seq<Seq<char>> {
    s.map_values(|e: (Seq<char>, V)| e.0)
}

/// The keys of a map come in order.
pub proof fn lemma_keys_in_order<V>(m: KeyMap<V>)
    requires
        m.wf(),
    ensures
        keys_of(m.pairs()) == in_order(m@.dom()),
        m.pairs().len() == in_order(m@.dom()).len(),
        forall|t: Seq<char>| #[trigger]
            m@.dom().contains(t) <==> in_order(m@.dom()).contains(t),
{
    let k = keys_of(m.pairs());
    assert(texts_ascend(k)) by {
        assert forall|i: int, j: int|
            #![trigger k[i], k[j]]
            0 <= i < j < k.len() implies text_lt(k[i], k[j]) by {
            assert(text_lt(m.pairs()[i].0, m.pairs()[j].0));
        }
    }
    assert forall|t: Seq<char>| k.to_set().contains(t) <==> m@.dom().contains(t) by {
        if k.to_set().contains(t) {
            let i = choose|i: int| 0 <= i < k.len() && k[i] == t;
            assert(m.pairs()[i].0 == t);
            assert(has_key(m.pairs(), t));
        }
        if m@.dom().contains(t) {
            let i = choose|i: int| 0 <= i < m.pairs().len() && (#[trigger] m.pairs()[i]).0 == t;
            assert(k[i] == t);
            assert(k.contains(t));
        }
    }
    assert(k.to_set() =~= m@.dom());
    lemma_in_order(k, m@.dom());
    assert forall|t: Seq<char>| #[trigger]
        m@.dom().contains(t) <==> in_order(m@.dom()).contains(t) by {
        assert(k.to_set().contains(t) <==> k.contains(t));
    }
}

impl<V> KeyMap<V> {
    /// The keys, in order.
    pub fn keys(&self) -> (r: Vec<String>)
        requires
            self.wf(),
        ensures
            r.deep_view() == in_order(self@.dom()),
            r@.len() == self.pairs().len(),
            forall|i: int| 0 <= i < r@.len() ==> #[trigger] r@[i]@ == self.pairs()[i].0,
    {
        let mut out: Vec<String> = Vec::new();
        let mut i: usize = 0;
        while i < self.entries.len()
            invariant
                i <= self.entries.len(),
                self.entries@.len() == self.pairs().len(),
                out@.len() == i,
                forall|k: int| 0 <= k < i ==> #[trigger] out@[k]@ == self.pairs()[k].0,
            decreases self.entries.len() - i,
        {
            out.push(self.entries[i].0.clone());
            i = i + 1;
        }
        proof {
            lemma_keys_in_order(*self);
            assert(out.deep_view() =~= keys_of(self.pairs()));
        }
        out
    }
}

} // verus!
