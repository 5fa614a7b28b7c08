//! Maps from text that are looked up by going through their entries.

use vstd::prelude::*;

use crate::text::str_eq;

verus! {

/// The index of the first entry from `i` on with the key `k`, or the length.
pub open spec fn first_with<V>(s: Seq<(Seq<char>, V)>, k: Seq<char>, i: int) -> int
    decreases s.len() - i,
{
    if i < 0 || i >= s.len() {
        s.len() as int
    } else if s[i].0 == k {
        i
    } else {
        first_with(s, k, i + 1)
    }
}

/// The map that entries stand for: the first entry of a key counts.
pub open spec fn assoc_map<V>(s: Seq<(Seq<char>, V)>) -> Map<Seq<char>, V> {
    Map::new(
        |k: Seq<char>| first_with(s, k, 0) < s.len(),
        |k: Seq<char>| s[first_with(s, k, 0)].1,
    )
}

/// What the first entry with a key is.
proof fn lemma_first_with<V>(s: Seq<(Seq<char>, V)>, k: Seq<char>, i: int)
    requires
        0 <= i <= s.len(),
    ensures
        i <= first_with(s, k, i) <= s.len(),
        first_with(s, k, i) < s.len() ==> s[first_with(s, k, i)].0 == k,
        forall|j: int| i <= j < first_with(s, k, i) ==> (#[trigger] s[j]).0 != k,
    decreases s.len() - i,
{
    if i < s.len() && s[i].0 != k {
        lemma_first_with(s, k, i + 1);
    }
}

/// An entry that no earlier one has the key of is the first with its key.
proof fn lemma_is_first<V>(s: Seq<(Seq<char>, V)>, k: Seq<char>, i: int, j: int)
    requires
        0 <= i <= j <= s.len(),
        j < s.len() ==> s[j].0 == k,
        forall|x: int| i <= x < j ==> (#[trigger] s[x]).0 != k,
    ensures
        first_with(s, k, i) == j,
    decreases j - i,
{
    if i < j {
        lemma_is_first(s, k, i + 1, j);
    }
}

/// A map from text to values.
#[derive(Debug)]
pub struct Assoc<V> {
    entries: Vec<(String, V)>,
}

impl<V> Assoc<V> {
    /// The entries.
    pub closed spec fn pairs(self) -> Seq<(Seq<char>, V)> {
        self.entries@.map_values(|e: (String, V)| (e.0@, e.1))
    }
}

impl<V> View for Assoc<V> {
    type V = Map<Seq<char>, V>;

    closed spec fn view(&self) -> Map<Seq<char>, V> {
        assoc_map(self.pairs())
    }
}

impl<V> Assoc<V> {
    /// An empty map.
    pub fn new() -> (r: Assoc<V>)
        ensures
            r@ == Map::<Seq<char>, V>::empty(),
    {
        let r = Assoc { entries: Vec::new() };
        assert(r@ =~= Map::<Seq<char>, V>::empty());
        r
    }

    /// There are no entries.
    pub fn is_empty(&self) -> (r: bool)
        ensures
            r == (self@ == Map::<Seq<char>, V>::empty()),
    {
        if self.entries.len() == 0 {
            assert(self@ =~= Map::<Seq<char>, V>::empty());
            true
        } else {
            proof {
                let s = self.pairs();
                assert(first_with(s, s[0].0, 0) == 0);
                assert(self@.dom().contains(s[0].0));
            }
            false
        }
    }

    /// The index of the first entry with a key, or the length.
    fn locate(&self, key: &str) -> (r: usize)
        ensures
            r == first_with(self.pairs(), key@, 0),
            r <= self.entries@.len(),
            (r < self.entries@.len()) == self@.dom().contains(key@),
    {
        let mut i: usize = 0;
        let ghost s = self.pairs();
        while i < self.entries.len()
            invariant
                i <= self.entries.len(),
                s == self.pairs(),
                s.len() == self.entries@.len(),
                first_with(s, key@, i as int) == first_with(s, key@, 0),
            decreases self.entries.len() - i,
        {
            assert(s[i as int].0 == self.entries@[i as int].0@);
            if str_eq(&self.entries[i].0, key) {
                return i;
            }
            i = i + 1;
        }
        i
    }

    /// The value of a key.
    pub fn get(&self, key: &str) -> (r: Option<&V>)
        ensures
            match r {
                Some(v) => self@.dom().contains(key@) && *v == self@[key@],
                None => !self@.dom().contains(key@),
            },
    {
        let i = self.locate(key);
        if i < self.entries.len() {
            assert(self.pairs()[i as int].1 == self.entries@[i as int].1);
            Some(&self.entries[i].1)
        } else {
            None
        }
    }

    /// Whether there is an entry for a key.
    pub fn contains_key(&self, key: &str) -> (r: bool)
        ensures
            r == self@.dom().contains(key@),
    {
        self.locate(key) < self.entries.len()
    }

    /// Sets the value of a key.
    pub fn insert(&mut self, key: String, value: V)
        ensures
            final(self)@ == old(self)@.insert(key@, value),
    {
        let i = self.locate(&key);
        let ghost s = self.pairs();
        let ghost k = key@;
        if i < self.entries.len() {
            self.entries[i] = (key, value);
            assert(self.pairs() =~= s.update(i as int, (k, value)));
        } else {
            self.entries.push((key, value));
            assert(self.pairs() =~= s.push((k, value)));
        }
        proof {
            lemma_assoc_insert(s, i as int, k, value);
            assert(self@ =~= assoc_map(s).insert(k, value));
        }
    }

    /// Takes the entries of a key out, and gives the first of them.
    pub fn remove(&mut self, key: &str) -> (r: Option<V>)
        ensures
            final(self)@ == old(self)@.remove(key@),
            match r {
                Some(v) => old(self)@.dom().contains(key@) && v == old(self)@[key@],
                None => !old(self)@.dom().contains(key@),
            },
    {
        let mut taken: Option<V> = None;
        let ghost start = self@;
        loop
            invariant
                start == old(self)@,
                self@.remove(key@) == start.remove(key@),
                taken is None ==> self@ == start,
                taken matches Some(v) ==> start.dom().contains(key@) && v == start[key@],
            decreases self.entries@.len(),
        {
            let i = self.locate(key);
            if i >= self.entries.len() {
                assert(self@ =~= start.remove(key@));
                return taken;
            }
            let ghost s = self.pairs();
            assert(s[i as int].1 == self.entries@[i as int].1);
            let (_, value) = self.entries.remove(i);
            proof {
                assert(self.pairs() =~= s.remove(i as int));
                lemma_first_with(s, key@, 0);
                lemma_assoc_remove(s, i as int);
                assert(self@.remove(key@) =~= start.remove(key@));
            }
            if taken.is_none() {
                taken = Some(value);
            }
        }
    }

    /// Takes all entries out.
    pub fn clear(&mut self)
        ensures
            final(self)@ == Map::<Seq<char>, V>::empty(),
    {
        self.entries.clear();
        assert(self@ =~= Map::<Seq<char>, V>::empty());
    }
}

proof fn lemma_assoc_insert<V>(s: Seq<(Seq<char>, V)>, i: int, k: Seq<char>, v: V)
    requires
        i == first_with(s, k, 0),
        0 <= i <= s.len(),
    ensures
        ({
            let t = if i < s.len() {
                s.update(i, (k, v))
            } else {
                s.push((k, v))
            };
            assoc_map(t) =~= assoc_map(s).insert(k, v)
        }),
{
    let t = if i < s.len() {
        s.update(i, (k, v))
    } else {
        s.push((k, v))
    };
    lemma_first_with(s, k, 0);
    assert(t[i] == (k, v));
    assert forall|x: int| 0 <= x < i implies (#[trigger] t[x]).0 != k by {
        assert(t[x] == s[x]);
    }
    lemma_is_first(t, k, 0, i);
    assert forall|x: Seq<char>| x != k implies #[trigger] first_with(t, x, 0) == (if first_with(
        s,
        x,
        0,
    ) < s.len() {
        first_with(s, x, 0)
    } else {
        t.len() as int
    }) by {
        lemma_first_with(s, x, 0);
        let j = first_with(s, x, 0);
        if j < s.len() {
            if j != i {
                assert(t[j] == s[j]);
            }
            assert(j != i);
            assert forall|y: int| 0 <= y < j implies (#[trigger] t[y]).0 != x by {
                if y != i {
                    assert(t[y] == s[y]);
                }
            }
            lemma_is_first(t, x, 0, j);
        } else {
            assert forall|y: int| 0 <= y < t.len() implies (#[trigger] t[y]).0 != x by {
                if y != i {
                    assert(t[y] == s[y]);
                }
            }
            lemma_is_first(t, x, 0, t.len() as int);
        }
    }
    let a = assoc_map(t);
    let b = assoc_map(s).insert(k, v);
    assert forall|x: Seq<char>| #[trigger] a.dom().contains(x) <==> b.dom().contains(x) by {
        lemma_first_with(s, x, 0);
        lemma_first_with(t, x, 0);
    }
    assert forall|x: Seq<char>| #[trigger] a.dom().contains(x) implies a[x] == b[x] by {
        lemma_first_with(s, x, 0);
        lemma_first_with(t, x, 0);
        if x != k {
            let j = first_with(s, x, 0);
            assert(t[j] == s[j]);
        }
    }
}

proof fn lemma_assoc_remove<V>(s: Seq<(Seq<char>, V)>, i: int)
    requires
        0 <= i < s.len(),
        i == first_with(s, s[i].0, 0),
    ensures
        assoc_map(s.remove(i)).remove(s[i].0) =~= assoc_map(s).remove(s[i].0),
{
    let t = s.remove(i);
    let k = s[i].0;
    assert forall|x: Seq<char>| x != k implies #[trigger] first_with(t, x, 0) == (if first_with(
        s,
        x,
        0,
    ) <= i {
        first_with(s, x, 0)
    } else {
        first_with(s, x, 0) - 1
    }) by {
        lemma_first_with(s, x, 0);
        let j = first_with(s, x, 0);
        let e = if j <= i {
            j
        } else {
            j - 1
        };
        assert(j != i);
        assert forall|y: int| 0 <= y < e implies (#[trigger] t[y]).0 != x by {
            if y < i {
                assert(t[y] == s[y]);
            } else {
                assert(t[y] == s[y + 1]);
            }
        }
        if e < t.len() {
            if j < i {
                assert(t[e] == s[j]);
            } else {
                assert(t[e] == s[e + 1]);
            }
        }
        lemma_is_first(t, x, 0, e);
    }
    let a = assoc_map(t).remove(k);
    let b = assoc_map(s).remove(k);
    assert forall|x: Seq<char>| #[trigger] a.dom().contains(x) <==> b.dom().contains(x) by {
        lemma_first_with(s, x, 0);
        lemma_first_with(t, x, 0);
    }
    assert forall|x: Seq<char>| #[trigger] a.dom().contains(x) implies a[x] == b[x] by {
        lemma_first_with(s, x, 0);
        lemma_first_with(t, x, 0);
        let j = first_with(s, x, 0);
        if j < i {
            assert(t[j] == s[j]);
        } else {
            assert(t[j - 1] == s[j]);
        }
    }
}

} // verus!
