//! A table from texts to values that keeps the order in which keys came.
use crate::text;
use vstd::prelude::*;

verus! {

/// A table keyed by text. No key stands in it twice.
pub struct Table<V> {
    keys: Vec<String>,
    values: Vec<V>,
}

/// Whether no key occurs twice.
pub open spec fn distinct_keys<V>(e: Seq<(String, V)>) -> bool {
    forall|i: int, j: int| 0 <= i < j < e.len() ==> (#[trigger] e[i]).0@ != (#[trigger] e[j]).0@
}

/// Where `k` stands.
pub open spec fn place_of<V>(e: Seq<(String, V)>, k: Seq<char>) -> int {
    choose|i: int| 0 <= i < e.len() && (#[trigger] e[i]).0@ == k
}

/// The map that entries with distinct keys are.
pub open spec fn map_of<V>(e: Seq<(String, V)>) -> Map<Seq<char>, V> {
    Map::new(
        |k: Seq<char>| exists|i: int| 0 <= i < e.len() && (#[trigger] e[i]).0@ == k,
        |k: Seq<char>| e[place_of(e, k)].1,
    )
}

/// The keys of entries, in order.
pub open spec fn keys_of<V>(e: Seq<(String, V)>) -> Seq<Seq<char>> {
    e.map_values(|x: (String, V)| x.0@)
}

proof fn map_of_at<V>(e: Seq<(String, V)>, i: int)
    requires
        distinct_keys(e),
        0 <= i < e.len(),
    ensures
        map_of(e).dom().contains(e[i].0@),
        map_of(e)[e[i].0@] == e[i].1,
{
    let j = place_of(e, e[i].0@);
    assert(e[i].0@ == e[i].0@);
    assert(0 <= j < e.len() && e[j].0@ == e[i].0@);
    if j < i {
        assert(e[j].0@ != e[i].0@);
    } else if i < j {
        assert(e[i].0@ != e[j].0@);
    }
}

/// Whether `order` lists the keys of `m`, each once.
pub open spec fn keyed<V>(order: Seq<Seq<char>>, m: Map<Seq<char>, V>) -> bool {
    &&& order.no_duplicates()
    &&& forall|k: Seq<char>| #[trigger] m.dom().contains(k) <==> order.contains(k)
}

/// Keys and values side by side.
pub open spec fn pairs_of<V>(keys: Seq<String>, values: Seq<V>) -> Seq<(String, V)> {
    Seq::new(keys.len(), |i: int| (keys[i], values[i]))
}

impl<V> View for Table<V> {
    type V = Map<Seq<char>, V>;

    closed spec fn view(&self) -> Map<Seq<char>, V> {
        map_of(self.pairs())
    }
}

impl<V> Table<V> {
    #[verifier::type_invariant]
    closed spec fn wf(self) -> bool {
        self.keys@.len() == self.values@.len() && distinct_keys(self.pairs())
    }

    closed spec fn pairs(&self) -> Seq<(String, V)> {
        pairs_of(self.keys@, self.values@)
    }

    /// The keys, in the order in which they came.
    pub closed spec fn order(&self) -> Seq<Seq<char>> {
        keys_of(self.pairs())
    }

    /// An empty table.
    pub fn new() -> (t: Table<V>)
        ensures
            t@ == Map::<Seq<char>, V>::empty(),
            t.order() == Seq::<Seq<char>>::empty(),
    {
        let t = Table { keys: Vec::new(), values: Vec::new() };
        proof {
            assert(t@ =~= Map::<Seq<char>, V>::empty());
            assert(t.order() =~= Seq::<Seq<char>>::empty());
        }
        t
    }

    /// How many keys there are.
    pub fn len(&self) -> (n: usize)
        ensures
            n == self.order().len(),
            keyed(self.order(), self@),
    {
        proof {
            use_type_invariant(self);
            let e = self.pairs();
            assert forall|k: Seq<char>| #[trigger] self@.dom().contains(k) implies self.order().contains(
                k,
            ) by {
                let i = choose|i: int| 0 <= i < e.len() && (#[trigger] e[i]).0@ == k;
                assert(self.order()[i] == k);
            }
            assert forall|k: Seq<char>| self.order().contains(k) implies #[trigger] self@.dom().contains(
                k,
            ) by {
                let i = choose|i: int| 0 <= i < e.len() && self.order()[i] == k;
                assert(e[i].0@ == k);
            }
            assert forall|i: int, j: int| 0 <= i < j < e.len() implies self.order()[i]
                != self.order()[j] by {
                assert(e[i].0@ != e[j].0@);
            }
        }
        self.keys.len()
    }

    /// The position of a key.
    fn find(&self, key: &str) -> (r: Option<usize>)
        ensures
            match r {
                Some(i) => i < self.keys@.len() && self.pairs()[i as int].0@ == key@,
                None => forall|i: int|
                    0 <= i < self.keys@.len() ==> (#[trigger] self.pairs()[i]).0@ != key@,
            },
    {
        let mut i: usize = 0;
        while i < self.keys.len()
            invariant
                i <= self.keys@.len(),
                forall|j: int| 0 <= j < i ==> (#[trigger] self.pairs()[j]).0@ != key@,
            decreases self.keys.len() - i,
        {
            if text::same(self.keys[i].as_str(), key) {
                return Some(i);
            }
            i += 1;
        }
        None
    }

    /// Whether `key` stands in the table.
    pub fn contains_key(&self, key: &str) -> (r: bool)
        ensures
            r == self@.dom().contains(key@),
    {
        match self.find(key) {
            Some(i) => {
                proof {
                    assert(self.pairs()[i as int].0@ == key@);
                }
                true
            },
            None => false,
        }
    }

    /// The value of `key`.
    pub fn get(&self, key: &str) -> (r: Option<&V>)
        ensures
            match r {
                Some(v) => self@.dom().contains(key@) && self@[key@] == *v,
                None => !self@.dom().contains(key@),
            },
    {
        match self.find(key) {
            Some(i) => {
                proof {
                    use_type_invariant(self);
                    map_of_at(self.pairs(), i as int);
                }
                Some(&self.values[i])
            },
            None => None,
        }
    }

    /// The value of `key`, to change in place.
    pub fn get_mut(&mut self, key: &str) -> (r: Option<&mut V>)
        ensures
            match r {
                Some(v) => old(self)@.dom().contains(key@) && *v == old(self)@[key@] && final(self)@
                    == old(self)@.insert(key@, *final(v)),
                None => !old(self)@.dom().contains(key@) && *final(self) == *old(self),
            },
            final(self).order() == old(self).order(),
    {
        proof {
            use_type_invariant(&*self);
        }
        let ghost before = self.pairs();
        match self.find(key) {
            Some(i) => {
                proof {
                    map_of_at(before, i as int);
                    value_changed(self.keys@, self.values@, i as int);
                }
                Some(&mut self.values[i])
            },
            None => None,
        }
    }

    /// The keys, in the order in which they came.
    pub fn keys(&self) -> (v: &Vec<String>)
        ensures
            text::texts(v@) == self.order(),
    {
        proof {
            assert(text::texts(self.keys@) =~= self.order());
        }
        &self.keys
    }

    /// The key that came as the `i`th.
    pub fn key_at(&self, i: usize) -> (k: &str)
        requires
            i < self.order().len(),
        ensures
            k@ == self.order()[i as int],
            self@.dom().contains(k@),
    {
        proof {
            use_type_invariant(self);
            map_of_at(self.pairs(), i as int);
        }
        self.keys[i].as_str()
    }

    /// The value of the key that came as the `i`th.
    pub fn value_at(&self, i: usize) -> (v: &V)
        requires
            i < self.order().len(),
        ensures
            *v == self@[self.order()[i as int]],
    {
        proof {
            use_type_invariant(self);
            map_of_at(self.pairs(), i as int);
        }
        &self.values[i]
    }

    /// Sets the value of `key`, and hands out the value it had.
    pub fn insert(&mut self, key: &str, value: V) -> (r: Option<V>)
        ensures
            final(self)@ == old(self)@.insert(key@, value),
            final(self).order() == if old(self)@.dom().contains(key@) {
                old(self).order()
            } else {
                old(self).order().push(key@)
            },
            match r {
                Some(v) => old(self)@.dom().contains(key@) && old(self)@[key@] == v,
                None => !old(self)@.dom().contains(key@),
            },
    {
        proof {
            use_type_invariant(&*self);
        }
        let ghost before = self.pairs();
        match self.find(key) {
            Some(i) => {
                proof {
                    map_of_at(before, i as int);
                    value_changed(self.keys@, self.values@, i as int);
                }
                let mut whole: Table<V> = Table::new();
                std::mem::swap(&mut whole, self);
                let mut values = whole.values;
                values.push(value);
                let was = values.swap_remove(i);
                let ghost v0 = old(self).values@;
                proof {
                    assert(values@ =~= v0.update(i as int, value));
                }
                *self = Table { keys: whole.keys, values };
                Some(was)
            },
            None => {
                let mut whole: Table<V> = Table::new();
                std::mem::swap(&mut whole, self);
                let mut values = whole.values;
                let mut keys = whole.keys;
                keys.push(key.to_owned());
                values.push(value);
                proof {
                    pushed(before, (keys@.last(), value));
                    assert(pairs_of(keys@, values@) =~= before.push((keys@.last(), value)));
                }
                *self = Table { keys, values };
                None
            },
        }
    }

    /// Takes `key` out, and hands out the value it had.
    pub fn remove(&mut self, key: &str) -> (r: Option<V>)
        ensures
            final(self)@ == old(self)@.remove(key@),
            final(self).order() == text::without(old(self).order(), key@),
            match r {
                Some(v) => old(self)@.dom().contains(key@) && old(self)@[key@] == v,
                None => !old(self)@.dom().contains(key@),
            },
    {
        proof {
            use_type_invariant(&*self);
        }
        let ghost before = self.pairs();
        match self.find(key) {
            Some(i) => {
                proof {
                    map_of_at(before, i as int);
                    taken_out(before, i as int);
                }
                let mut whole: Table<V> = Table::new();
                std::mem::swap(&mut whole, self);
                let mut values = whole.values;
                let mut keys = whole.keys;
                keys.remove(i);
                let was = values.remove(i);
                proof {
                    assert(pairs_of(keys@, values@) =~= before.remove(i as int));
                }
                *self = Table { keys, values };
                Some(was)
            },
            None => {
                proof {
                    assert(map_of(before).remove(key@) =~= map_of(before));
                    assert forall|j: int| 0 <= j < keys_of(before).len() implies #[trigger] keys_of(
                        before,
                    )[j] != key@ by {
                        assert(before[j].0@ != key@);
                    }
                    text::without_absent(keys_of(before), key@);
                }
                None
            },
        }
    }
}

/// A change of the `i`th value changes the map at its key alone.
proof fn value_changed<V>(keys: Seq<String>, values: Seq<V>, i: int)
    requires
        keys.len() == values.len(),
        distinct_keys(pairs_of(keys, values)),
        0 <= i < keys.len(),
    ensures
        forall|v: V|
            distinct_keys(#[trigger] pairs_of(keys, values.update(i, v))) && map_of(
                pairs_of(keys, values.update(i, v)),
            ) == map_of(pairs_of(keys, values)).insert(keys[i]@, v) && keys_of(
                pairs_of(keys, values.update(i, v)),
            ) == keys_of(pairs_of(keys, values)),
{
    let before = pairs_of(keys, values);
    assert forall|v: V|
        distinct_keys(#[trigger] pairs_of(keys, values.update(i, v))) && map_of(
            pairs_of(keys, values.update(i, v)),
        ) == map_of(pairs_of(keys, values)).insert(keys[i]@, v) && keys_of(
            pairs_of(keys, values.update(i, v)),
        ) == keys_of(pairs_of(keys, values)) by {
        let after = pairs_of(keys, values.update(i, v));
        assert forall|a: int, b: int| 0 <= a < b < after.len() implies (#[trigger] after[a]).0@ != (
        #[trigger] after[b]).0@ by {
            assert(before[a].0@ != before[b].0@);
        }
        same_but_one(before, after, i);
        assert(keys_of(after) =~= keys_of(before));
    }
}

proof fn same_but_one<V>(before: Seq<(String, V)>, after: Seq<(String, V)>, i: int)
    requires
        distinct_keys(before),
        distinct_keys(after),
        before.len() == after.len(),
        0 <= i < before.len(),
        before[i].0@ == after[i].0@,
        forall|j: int| 0 <= j < after.len() && j != i ==> (#[trigger] after[j]) == before[j],
    ensures
        map_of(after) =~= map_of(before).insert(after[i].0@, after[i].1),
{
    let target = map_of(before).insert(after[i].0@, after[i].1);
    assert forall|k: Seq<char>| map_of(after).dom().contains(k) == target.dom().contains(k) by {
        if map_of(after).dom().contains(k) {
            let j = choose|j: int| 0 <= j < after.len() && (#[trigger] after[j]).0@ == k;
            assert(before[j].0@ == k);
        }
        if target.dom().contains(k) {
            if k == after[i].0@ {
                assert(after[i].0@ == k);
            } else {
                let j = choose|j: int| 0 <= j < before.len() && (#[trigger] before[j]).0@ == k;
                assert(after[j].0@ == k);
            }
        }
    }
    assert forall|k: Seq<char>| map_of(after).dom().contains(k) implies #[trigger] map_of(after)[k]
        == target[k] by {
        let j = choose|j: int| 0 <= j < after.len() && (#[trigger] after[j]).0@ == k;
        map_of_at(after, j);
        if j != i {
            assert(after[j].0@ != after[i].0@) by {
                if j < i {
                    assert(after[j].0@ != after[i].0@);
                } else {
                    assert(after[i].0@ != after[j].0@);
                }
            }
            map_of_at(before, j);
        }
    }
}

proof fn pushed<V>(before: Seq<(String, V)>, x: (String, V))
    requires
        distinct_keys(before),
        forall|i: int| 0 <= i < before.len() ==> (#[trigger] before[i]).0@ != x.0@,
    ensures
        distinct_keys(before.push(x)),
        map_of(before.push(x)) == map_of(before).insert(x.0@, x.1),
        keys_of(before.push(x)) == keys_of(before).push(x.0@),
        !map_of(before).dom().contains(x.0@),
{
    let after = before.push(x);
    let n = before.len() as int;
    assert(keys_of(after) =~= keys_of(before).push(x.0@));
    let target = map_of(before).insert(x.0@, x.1);
    assert forall|k: Seq<char>| map_of(after).dom().contains(k) == target.dom().contains(k) by {
        if map_of(after).dom().contains(k) {
            let j = choose|j: int| 0 <= j < after.len() && (#[trigger] after[j]).0@ == k;
            if j < n {
                assert(before[j].0@ == k);
            }
        }
        if target.dom().contains(k) {
            if k == x.0@ {
                assert(after[n].0@ == k);
            } else {
                let j = choose|j: int| 0 <= j < before.len() && (#[trigger] before[j]).0@ == k;
                assert(after[j].0@ == k);
            }
        }
    }
    assert forall|k: Seq<char>| map_of(after).dom().contains(k) implies #[trigger] map_of(after)[k]
        == target[k] by {
        let j = choose|j: int| 0 <= j < after.len() && (#[trigger] after[j]).0@ == k;
        map_of_at(after, j);
        if j < n {
            map_of_at(before, j);
            assert(before[j].0@ != x.0@);
        }
    }
    assert(map_of(after) =~= target);
}

proof fn taken_out<V>(before: Seq<(String, V)>, i: int)
    requires
        distinct_keys(before),
        0 <= i < before.len(),
    ensures
        distinct_keys(before.remove(i)),
        map_of(before.remove(i)) == map_of(before).remove(before[i].0@),
        keys_of(before.remove(i)) == text::without(keys_of(before), before[i].0@),
{
    let key = before[i].0@;
    let after = before.remove(i);
    let back = |j: int|
        if j < i {
            j
        } else {
            j + 1
        };
    assert(forall|j: int| 0 <= j < after.len() ==> (#[trigger] after[j]) == before[back(j)]);
    assert forall|a: int, b: int| 0 <= a < b < after.len() implies (#[trigger] after[a]).0@ != (
    #[trigger] after[b]).0@ by {
        assert(before[back(a)].0@ != before[back(b)].0@);
    }
    let target = map_of(before).remove(key);
    assert forall|k: Seq<char>| map_of(after).dom().contains(k) == target.dom().contains(k) by {
        if map_of(after).dom().contains(k) {
            let j = choose|j: int| 0 <= j < after.len() && (#[trigger] after[j]).0@ == k;
            assert(before[back(j)].0@ == k);
            if back(j) < i {
                assert(before[back(j)].0@ != before[i].0@);
            } else {
                assert(before[i].0@ != before[back(j)].0@);
            }
        }
        if target.dom().contains(k) {
            let j = choose|j: int| 0 <= j < before.len() && (#[trigger] before[j]).0@ == k;
            let m = if j < i {
                j
            } else {
                j - 1
            };
            assert(after[m].0@ == k);
        }
    }
    assert forall|k: Seq<char>| map_of(after).dom().contains(k) implies #[trigger] map_of(after)[k]
        == target[k] by {
        let j = choose|j: int| 0 <= j < after.len() && (#[trigger] after[j]).0@ == k;
        map_of_at(after, j);
        map_of_at(before, back(j));
    }
    assert(map_of(after) =~= target);
    let ks = keys_of(before);
    let a = ks.take(i);
    let b = ks.skip(i + 1);
    assert(ks =~= a + (seq![key] + b));
    assert(keys_of(after) =~= a + b);
    text::without_of_sum(a, seq![key] + b, key);
    text::without_of_sum(seq![key], b, key);
    assert(seq![key].drop_last() =~= Seq::<Seq<char>>::empty());
    assert(text::without(seq![key], key) =~= Seq::<Seq<char>>::empty()) by {
        reveal_with_fuel(text::without, 2);
    }
    assert forall|j: int| 0 <= j < a.len() implies #[trigger] a[j] != key by {
        assert(before[j].0@ != before[i].0@);
    }
    assert forall|j: int| 0 <= j < b.len() implies #[trigger] b[j] != key by {
        assert(before[i].0@ != before[j + i + 1].0@);
    }
    text::without_absent(a, key);
    text::without_absent(b, key);
    assert(Seq::<Seq<char>>::empty() + b =~= b);
}

// ---------------------------------------------------------------------------
// Ids
// ---------------------------------------------------------------------------

/// A table from ids to texts. No id stands in it twice.
pub struct IdTable {
    entries: Vec<(u64, String)>,
}

/// The map that entries are.
pub open spec fn id_map(e: Seq<(u64, String)>) -> Map<u64, Seq<char>>
    decreases e.len(),
{
    if e.len() == 0 {
        Map::empty()
    } else {
        id_map(e.drop_last()).insert(e.last().0, e.last().1@)
    }
}

/// Whether no id occurs twice.
pub open spec fn distinct_ids(e: Seq<(u64, String)>) -> bool {
    forall|i: int, j: int| 0 <= i < j < e.len() ==> (#[trigger] e[i]).0 != (#[trigger] e[j]).0
}

/// The map without the ids of `t`.
pub open spec fn without_text(m: Map<u64, Seq<char>>, t: Seq<char>) -> Map<u64, Seq<char>> {
    Map::new(|id: u64| m.dom().contains(id) && m[id] != t, |id: u64| m[id])
}

proof fn id_map_dom(e: Seq<(u64, String)>, id: u64)
    ensures
        id_map(e).dom().contains(id) <==> exists|i: int| 0 <= i < e.len() && (#[trigger] e[i]).0
            == id,
    decreases e.len(),
{
    if e.len() > 0 {
        let t = e.drop_last();
        id_map_dom(t, id);
        if id_map(e).dom().contains(id) {
            if id == e.last().0 {
                assert(e[e.len() - 1].0 == id);
            } else {
                let i = choose|i: int| 0 <= i < t.len() && (#[trigger] t[i]).0 == id;
                assert(e[i].0 == id);
            }
        }
        if exists|i: int| 0 <= i < e.len() && (#[trigger] e[i]).0 == id {
            let i = choose|i: int| 0 <= i < e.len() && (#[trigger] e[i]).0 == id;
            if i < t.len() {
                assert(t[i].0 == id);
            }
        }
    }
}

proof fn id_map_at(e: Seq<(u64, String)>, i: int)
    requires
        distinct_ids(e),
        0 <= i < e.len(),
    ensures
        id_map(e).dom().contains(e[i].0),
        id_map(e)[e[i].0] == e[i].1@,
    decreases e.len(),
{
    if i < e.len() - 1 {
        let t = e.drop_last();
        assert(t[i] == e[i]);
        assert(distinct_ids(t)) by {
            assert forall|a: int, b: int| 0 <= a < b < t.len() implies (#[trigger] t[a]).0 != (
            #[trigger] t[b]).0 by {
                assert(e[a].0 != e[b].0);
            }
        }
        id_map_at(t, i);
        assert(e[i].0 != e[e.len() - 1].0);
    }
}

impl View for IdTable {
    type V = Map<u64, Seq<char>>;

    closed spec fn view(&self) -> Map<u64, Seq<char>> {
        id_map(self.entries@)
    }
}

impl IdTable {
    #[verifier::type_invariant]
    closed spec fn wf(self) -> bool {
        distinct_ids(self.entries@)
    }

    /// An empty table.
    pub fn new() -> (t: IdTable)
        ensures
            t@ == Map::<u64, Seq<char>>::empty(),
    {
        IdTable { entries: Vec::new() }
    }

    /// Whether there are no ids.
    pub fn is_empty(&self) -> (r: bool)
        ensures
            r == (self@ == Map::<u64, Seq<char>>::empty()),
    {
        let r = self.entries.len() == 0;
        proof {
            if !r {
                use_type_invariant(self);
                id_map_at(self.entries@, 0);
                assert(self@.dom().contains(self.entries@[0].0));
            } else {
                assert(self@ =~= Map::empty());
            }
        }
        r
    }

    /// The text of `id`.
    pub fn get(&self, id: u64) -> (r: Option<&str>)
        ensures
            match r {
                Some(s) => self@.dom().contains(id) && self@[id] == s@,
                None => !self@.dom().contains(id),
            },
    {
        let mut i: usize = 0;
        while i < self.entries.len()
            invariant
                i <= self.entries@.len(),
                forall|j: int| 0 <= j < i ==> (#[trigger] self.entries@[j]).0 != id,
            decreases self.entries.len() - i,
        {
            if self.entries[i].0 == id {
                proof {
                    use_type_invariant(self);
                    id_map_at(self.entries@, i as int);
                }
                return Some(self.entries[i].1.as_str());
            }
            i += 1;
        }
        proof {
            id_map_dom(self.entries@, id);
        }
        None
    }

    /// Takes `id` out.
    pub fn remove(&mut self, id: u64)
        ensures
            final(self)@ == old(self)@.remove(id),
    {
        proof {
            use_type_invariant(&*self);
        }
        let mut whole = IdTable::new();
        std::mem::swap(&mut whole, self);
        let e = whole.entries;
        let mut out: Vec<(u64, String)> = Vec::new();
        let mut i: usize = 0;
        proof {
            assert(id_map(e@.take(0)) =~= Map::empty());
            assert(id_map(out@) =~= id_map(e@.take(0)).remove(id));
        }
        while i < e.len()
            invariant
                i <= e@.len(),
                distinct_ids(e@),
                distinct_ids(out@),
                forall|j: int|
                    0 <= j < out@.len() ==> exists|k: int|
                        0 <= k < i && e@[k].0 == (#[trigger] out@[j]).0,
                id_map(out@) == id_map(e@.take(i as int)).remove(id),
            decreases e.len() - i,
        {
            let ghost was = out@;
            let ghost m = id_map(e@.take(i as int));
            proof {
                let head = e@.take(i + 1);
                assert(head.drop_last() =~= e@.take(i as int));
                assert(head.last() == e@[i as int]);
            }
            if e[i].0 != id {
                out.push((e[i].0, e[i].1.clone()));
                proof {
                    assert(out@.drop_last() =~= was);
                    assert forall|a: int, b: int| 0 <= a < b < out@.len() implies (
                    #[trigger] out@[a]).0 != (#[trigger] out@[b]).0 by {
                        if b == was.len() {
                            assert(out@[a] == was[a]);
                            let k = choose|k: int| 0 <= k < i && e@[k].0 == was[a].0;
                            assert(e@[k].0 != e@[i as int].0);
                        } else {
                            assert(was[a].0 != was[b].0);
                        }
                    }
                    assert forall|j: int| 0 <= j < out@.len() implies exists|k: int|
                        0 <= k < i + 1 && e@[k].0 == (#[trigger] out@[j]).0 by {
                        if j < was.len() {
                            assert(out@[j] == was[j]);
                            let k = choose|k: int| 0 <= k < i && e@[k].0 == was[j].0;
                            assert(0 <= k < i + 1 && e@[k].0 == out@[j].0);
                        } else {
                            assert(e@[i as int].0 == out@[j].0);
                        }
                    }
                    assert(m.insert(e@[i as int].0, e@[i as int].1@).remove(id) =~= m.remove(
                        id,
                    ).insert(e@[i as int].0, e@[i as int].1@));
                }
            } else {
                proof {
                    assert(m.insert(e@[i as int].0, e@[i as int].1@).remove(id) =~= m.remove(id));
                    assert forall|j: int| 0 <= j < out@.len() implies exists|k: int|
                        0 <= k < i + 1 && e@[k].0 == (#[trigger] out@[j]).0 by {
                        let k = choose|k: int| 0 <= k < i && e@[k].0 == out@[j].0;
                        assert(0 <= k < i + 1 && e@[k].0 == out@[j].0);
                    }
                }
            }
            i += 1;
        }
        proof {
            assert(e@.take(i as int) =~= e@);
        }
        *self = IdTable { entries: out };
    }

    /// Sets the text of `id`.
    pub fn insert(&mut self, id: u64, t: &str)
        ensures
            final(self)@ == old(self)@.insert(id, t@),
    {
        self.remove(id);
        proof {
            use_type_invariant(&*self);
        }
        let ghost m = self@;
        let mut whole = IdTable::new();
        std::mem::swap(&mut whole, self);
        let mut e = whole.entries;
        let ghost was = e@;
        e.push((id, t.to_owned()));
        proof {
            assert(e@.drop_last() =~= was);
            assert forall|a: int, b: int| 0 <= a < b < e@.len() implies (#[trigger] e@[a]).0 != (
            #[trigger] e@[b]).0 by {
                if b == was.len() {
                    assert(e@[a] == was[a]);
                    id_map_at(was, a);
                } else {
                    assert(was[a].0 != was[b].0);
                }
            }
            assert(m.insert(id, t@) =~= old(self)@.insert(id, t@));
        }
        *self = IdTable { entries: e };
    }

    /// Takes out every id of the text `t`.
    pub fn forget(&mut self, t: &str)
        ensures
            final(self)@ == without_text(old(self)@, t@),
    {
        proof {
            use_type_invariant(&*self);
        }
        let mut whole = IdTable::new();
        std::mem::swap(&mut whole, self);
        let e = whole.entries;
        let mut out: Vec<(u64, String)> = Vec::new();
        let mut i: usize = 0;
        proof {
            assert(id_map(e@.take(0)) =~= Map::empty());
            assert(id_map(out@) =~= without_text(id_map(e@.take(0)), t@));
        }
        while i < e.len()
            invariant
                i <= e@.len(),
                distinct_ids(e@),
                distinct_ids(out@),
                forall|j: int|
                    0 <= j < out@.len() ==> exists|k: int|
                        0 <= k < i && e@[k].0 == (#[trigger] out@[j]).0,
                id_map(out@) == without_text(id_map(e@.take(i as int)), t@),
            decreases e.len() - i,
        {
            let ghost was = out@;
            let ghost m = id_map(e@.take(i as int));
            let ghost key = e@[i as int].0;
            proof {
                let head = e@.take(i + 1);
                assert(head.drop_last() =~= e@.take(i as int));
                assert(head.last() == e@[i as int]);
                id_map_dom(e@.take(i as int), key);
                if m.dom().contains(key) {
                    let k = choose|k: int|
                        0 <= k < i && (#[trigger] e@.take(i as int)[k]).0 == key;
                    assert(e@[k].0 != e@[i as int].0);
                }
            }
            if !text::same(e[i].1.as_str(), t) {
                out.push((e[i].0, e[i].1.clone()));
                proof {
                    assert(out@.drop_last() =~= was);
                    assert forall|a: int, b: int| 0 <= a < b < out@.len() implies (
                    #[trigger] out@[a]).0 != (#[trigger] out@[b]).0 by {
                        if b == was.len() {
                            assert(out@[a] == was[a]);
                            let k = choose|k: int| 0 <= k < i && e@[k].0 == was[a].0;
                            assert(e@[k].0 != e@[i as int].0);
                        } else {
                            assert(was[a].0 != was[b].0);
                        }
                    }
                    assert forall|j: int| 0 <= j < out@.len() implies exists|k: int|
                        0 <= k < i + 1 && e@[k].0 == (#[trigger] out@[j]).0 by {
                        if j < was.len() {
                            assert(out@[j] == was[j]);
                            let k = choose|k: int| 0 <= k < i && e@[k].0 == was[j].0;
                            assert(0 <= k < i + 1 && e@[k].0 == out@[j].0);
                        } else {
                            assert(e@[i as int].0 == out@[j].0);
                        }
                    }
                    assert(without_text(m.insert(key, e@[i as int].1@), t@) =~= without_text(
                        m,
                        t@,
                    ).insert(key, e@[i as int].1@));
                }
            } else {
                proof {
                    assert(without_text(m.insert(key, e@[i as int].1@), t@) =~= without_text(m, t@));
                    assert forall|j: int| 0 <= j < out@.len() implies exists|k: int|
                        0 <= k < i + 1 && e@[k].0 == (#[trigger] out@[j]).0 by {
                        let k = choose|k: int| 0 <= k < i && e@[k].0 == out@[j].0;
                        assert(0 <= k < i + 1 && e@[k].0 == out@[j].0);
                    }
                }
            }
            i += 1;
        }
        proof {
            assert(e@.take(i as int) =~= e@);
        }
        *self = IdTable { entries: out };
    }
}

} // verus!
