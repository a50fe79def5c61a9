//! Small collections keyed by text: a map, a set, and a set of text pairs.
//! Each holds its items in a list in which no key occurs twice.
//!
//! std's `HashMap` and `HashSet` are not used for these: vstd states what
//! their methods do only for key types that obey its hashing key model, and
//! it grants that model to integers and booleans (and boxes of them), not to
//! `String`. Keyed by text, their contents could not be spoken of.

use vstd::prelude::*;

verus! {

/// The keys of a list of entries.
pub open spec fn keys_of<V>(s: Seq<(String, V)>) -> Seq<Seq<char>> {
    s.map_values(|e: (String, V)| e.0@)
}

/// The map that a list of entries with distinct keys stands for.
pub open spec fn map_of<V>(s: Seq<(String, V)>) -> Map<Seq<char>, V>
    decreases s.len(),
{
    if s.len() == 0 {
        Map::empty()
    } else {
        map_of(s.drop_last()).insert(s.last().0@, s.last().1)
    }
}

/// The map of a list holds exactly its keys, each with its own value.
proof fn lemma_map_of<V>(s: Seq<(String, V)>)
    requires
        keys_of(s).no_duplicates(),
    ensures
        forall|k: Seq<char>| #[trigger] map_of(s).contains_key(k) <==> keys_of(s).contains(k),
        forall|i: int| 0 <= i < s.len() ==> #[trigger] map_of(s)[s[i].0@] == s[i].1,
        map_of(s).dom().finite(),
        map_of(s).len() == s.len(),
    decreases s.len(),
{
    if s.len() > 0 {
        let t = s.drop_last();
        assert(keys_of(t) =~= keys_of(s).drop_last());
        lemma_map_of(t);
        assert forall|k: Seq<char>| #[trigger] map_of(s).contains_key(k) <==> keys_of(s).contains(k) by {
            if keys_of(s).contains(k) {
                let i = choose|i: int| 0 <= i < keys_of(s).len() && keys_of(s)[i] == k;
                if i < t.len() {
                    assert(keys_of(t)[i] == k);
                }
            }
            if keys_of(t).contains(k) {
                let i = choose|i: int| 0 <= i < keys_of(t).len() && keys_of(t)[i] == k;
                assert(keys_of(s)[i] == k);
            }
            assert(keys_of(s)[s.len() - 1] == s.last().0@);
        }
        assert forall|i: int| 0 <= i < s.len() implies #[trigger] map_of(s)[s[i].0@] == s[i].1 by {
            if i < t.len() {
                assert(t[i] == s[i]);
                assert(keys_of(s)[i] != keys_of(s)[s.len() - 1]);
            }
        }
        assert(!keys_of(t).contains(s.last().0@)) by {
            if keys_of(t).contains(s.last().0@) {
                let i = choose|i: int| 0 <= i < keys_of(t).len() && keys_of(t)[i] == s.last().0@;
                assert(keys_of(s)[i] == keys_of(s)[s.len() - 1]);
            }
        }
    }
}

/// Removing an entry from a list with distinct keys removes its key from the map.
proof fn lemma_map_of_remove<V>(s: Seq<(String, V)>, i: int)
    requires
        keys_of(s).no_duplicates(),
        0 <= i < s.len(),
    ensures
        keys_of(s.remove(i)).no_duplicates(),
        map_of(s.remove(i)) == map_of(s).remove(s[i].0@),
{
    let r = s.remove(i);
    assert(keys_of(r) =~= keys_of(s).remove(i));
    assert forall|a: int, b: int| 0 <= a < b < keys_of(r).len() implies keys_of(r)[a] != keys_of(r)[b] by {
        let a2 = if a < i { a } else { a + 1 };
        let b2 = if b < i { b } else { b + 1 };
        assert(keys_of(r)[a] == keys_of(s)[a2]);
        assert(keys_of(r)[b] == keys_of(s)[b2]);
    }
    lemma_map_of(s);
    lemma_map_of(r);
    assert forall|k: Seq<char>| #[trigger] map_of(r).contains_key(k) <==> map_of(s).remove(s[i].0@).contains_key(k) by {
        assert(map_of(r).contains_key(k) == keys_of(r).contains(k));
        assert(map_of(s).contains_key(k) == keys_of(s).contains(k));
        assert(keys_of(s)[i] == s[i].0@);
        if keys_of(r).contains(k) {
            let j = choose|j: int| 0 <= j < keys_of(r).len() && keys_of(r)[j] == k;
            let j2 = if j < i { j } else { j + 1 };
            assert(keys_of(s)[j2] == k);
            assert(j2 != i);
        }
        if keys_of(s).contains(k) && k != s[i].0@ {
            let j = choose|j: int| 0 <= j < keys_of(s).len() && keys_of(s)[j] == k;
            assert(j != i);
            let j2 = if j < i { j } else { j - 1 };
            assert(keys_of(r)[j2] == k);
        }
    }
    assert forall|k: Seq<char>| #[trigger] map_of(r).contains_key(k) implies map_of(r)[k] == map_of(s)[k] by {
        assert(map_of(r).contains_key(k) == keys_of(r).contains(k));
        let j = choose|j: int| 0 <= j < keys_of(r).len() && keys_of(r)[j] == k;
        let j2 = if j < i { j } else { j + 1 };
        assert(r[j] == s[j2]);
        assert(keys_of(r)[j] == r[j].0@);
        assert(map_of(r)[r[j].0@] == r[j].1);
        assert(map_of(s)[s[j2].0@] == s[j2].1);
    }
    assert(map_of(r) =~= map_of(s).remove(s[i].0@));
}

/// Appending an entry with a new key adds it to the map.
proof fn lemma_map_of_push<V>(s: Seq<(String, V)>, e: (String, V))
    requires
        keys_of(s).no_duplicates(),
        !keys_of(s).contains(e.0@),
    ensures
        keys_of(s.push(e)).no_duplicates(),
        map_of(s.push(e)) == map_of(s).insert(e.0@, e.1),
{
    let r = s.push(e);
    assert(keys_of(r) =~= keys_of(s).push(e.0@));
    assert forall|a: int, b: int| 0 <= a < b < keys_of(r).len() implies keys_of(r)[a] != keys_of(r)[b] by {
        if b == s.len() {
            assert(keys_of(s)[a] == keys_of(r)[a]);
        }
    }
    assert(r.drop_last() =~= s);
}

/// A map from text keys to values.
pub struct TextMap<V> {
    entries: Vec<(String, V)>,
}

impl<V> TextMap<V> {
    /// No key occurs twice.
    #[verifier::type_invariant]
    closed spec fn distinct_keys(&self) -> bool {
        keys_of(self.entries@).no_duplicates()
    }

    /// The map this stands for.
    pub closed spec fn contents(&self) -> Map<Seq<char>, V> {
        map_of(self.entries@)
    }

    /// An empty map.
    pub fn new() -> (r: TextMap<V>)
        ensures
            r.contents() == Map::<Seq<char>, V>::empty(),
    {
        let r = TextMap { entries: Vec::new() };
        assert(keys_of(r.entries@) =~= Seq::<Seq<char>>::empty());
        r
    }

    /// The position of `key`.
    fn find(&self, key: &String) -> (r: Option<usize>)
        ensures
            match r {
                Some(i) => i < self.entries@.len() && self.entries@[i as int].0@ == key@,
                None => !keys_of(self.entries@).contains(key@),
            },
    {
        let mut i: usize = 0;
        while i < self.entries.len()
            invariant
                i <= self.entries@.len(),
                forall|j: int| 0 <= j < i ==> keys_of(self.entries@)[j] != key@,
            decreases self.entries.len() - i,
        {
            if self.entries[i].0 == *key {
                return Some(i);
            }
            assert(keys_of(self.entries@)[i as int] == self.entries@[i as int].0@);
            i = i + 1;
        }
        None
    }

    /// Whether `key` has a value.
    pub fn contains_key(&self, key: &String) -> (r: bool)
        ensures
            r == self.contents().contains_key(key@),
    {
        proof {
            use_type_invariant(self);
            lemma_map_of(self.entries@);
        }
        match self.find(key) {
            Some(i) => {
                assert(keys_of(self.entries@)[i as int] == key@);
                true
            },
            None => false,
        }
    }

    /// The value of `key`.
    pub fn get(&self, key: &String) -> (r: Option<&V>)
        ensures
            match r {
                Some(v) => self.contents().contains_key(key@) && *v == self.contents()[key@],
                None => !self.contents().contains_key(key@),
            },
    {
        proof {
            use_type_invariant(self);
            lemma_map_of(self.entries@);
        }
        match self.find(key) {
            Some(i) => {
                assert(keys_of(self.entries@)[i as int] == key@);
                Some(&self.entries[i].1)
            },
            None => None,
        }
    }

    /// Takes out the value of `key`, which no longer has one.
    pub fn take(&mut self, key: &String) -> (r: Option<V>)
        ensures
            final(self).contents() == old(self).contents().remove(key@),
            match r {
                Some(v) => old(self).contents().contains_key(key@) && v == old(self).contents()[key@],
                None => !old(self).contents().contains_key(key@),
            },
    {
        proof {
            use_type_invariant(&*self);
            lemma_map_of(self.entries@);
        }
        match self.find(key) {
            Some(i) => {
                proof {
                    lemma_map_of_remove(self.entries@, i as int);
                    assert(keys_of(self.entries@)[i as int] == key@);
                }
                let mut entries: Vec<(String, V)> = Vec::new();
                std::mem::swap(&mut entries, &mut self.entries);
                let (_, v) = entries.remove(i);
                self.entries = entries;
                Some(v)
            },
            None => {
                assert(old(self).contents().remove(key@) =~= old(self).contents());
                None
            },
        }
    }

    /// Sets the value of `key`.
    pub fn insert(&mut self, key: String, value: V)
        ensures
            final(self).contents() == old(self).contents().insert(key@, value),
    {
        let _ = self.take(&key);
        proof {
            use_type_invariant(&*self);
            lemma_map_of(self.entries@);
            assert(!map_of(self.entries@).contains_key(key@));
            lemma_map_of_push(self.entries@, (key, value));
        }
        let ghost mid = self.contents();
        let mut entries: Vec<(String, V)> = Vec::new();
        std::mem::swap(&mut entries, &mut self.entries);
        entries.push((key, value));
        self.entries = entries;
        assert(self.contents() =~= old(self).contents().insert(key@, value)) by {
            assert(mid == old(self).contents().remove(key@));
        }
    }

    /// The number of keys.
    pub fn len(&self) -> (r: usize)
        ensures
            r == self.contents().len(),
    {
        proof {
            use_type_invariant(self);
            lemma_map_of(self.entries@);
        }
        self.entries.len()
    }
}

/// The characters of each text.
pub open spec fn texts(s: Seq<String>) -> Seq<Seq<char>> {
    s.map_values(|t: String| t@)
}

/// The set that a list of texts with no repeats stands for.
pub open spec fn set_of(s: Seq<String>) -> Set<Seq<char>> {
    texts(s).to_set()
}

/// A set of texts.
pub struct TextSet {
    items: Vec<String>,
}

impl TextSet {
    /// No text occurs twice.
    #[verifier::type_invariant]
    closed spec fn distinct_items(&self) -> bool {
        texts(self.items@).no_duplicates()
    }

    /// The set this stands for.
    pub closed spec fn contents(&self) -> Set<Seq<char>> {
        set_of(self.items@)
    }

    /// An empty set.
    pub fn new() -> (r: TextSet)
        ensures
            r.contents() == Set::<Seq<char>>::empty(),
    {
        let r = TextSet { items: Vec::new() };
        assert(texts(r.items@) =~= Seq::<Seq<char>>::empty());
        assert(set_of(r.items@) =~= Set::<Seq<char>>::empty());
        r
    }

    /// The position of `item`.
    fn find(&self, item: &String) -> (r: Option<usize>)
        ensures
            match r {
                Some(i) => i < self.items@.len() && self.items@[i as int]@ == item@,
                None => !set_of(self.items@).contains(item@),
            },
    {
        let mut i: usize = 0;
        while i < self.items.len()
            invariant
                i <= self.items@.len(),
                forall|j: int| 0 <= j < i ==> (#[trigger] self.items@[j])@ != item@,
            decreases self.items.len() - i,
        {
            if self.items[i] == *item {
                return Some(i);
            }
            i = i + 1;
        }
        proof {
            if set_of(self.items@).contains(item@) {
                let j = choose|j: int| 0 <= j < texts(self.items@).len() && #[trigger] texts(self.items@)[j] == item@;
                assert(self.items@[j]@ == item@);
            }
        }
        None
    }

    /// Whether `item` is in the set.
    pub fn contains(&self, item: &String) -> (r: bool)
        ensures
            r == self.contents().contains(item@),
    {
        match self.find(item) {
            Some(i) => {
                assert(texts(self.items@)[i as int] == item@);
                true
            },
            None => false,
        }
    }

    /// Adds `item`; the result tells whether it was new.
    pub fn insert(&mut self, item: String) -> (r: bool)
        ensures
            final(self).contents() == old(self).contents().insert(item@),
            r == !old(self).contents().contains(item@),
            final(self).contents().len() == old(self).contents().len() + if r {
                1int
            } else {
                0
            },
    {
        proof {
            use_type_invariant(&*self);
            texts(self.items@).unique_seq_to_set();
        }
        match self.find(&item) {
            Some(i) => {
                assert(texts(self.items@)[i as int] == item@);
                assert(old(self).contents().insert(item@) =~= old(self).contents());
                false
            },
            None => {
                let ghost before = texts(self.items@);
                let ghost v = item@;
                let mut items: Vec<String> = Vec::new();
                std::mem::swap(&mut items, &mut self.items);
                items.push(item);
                assert(texts(items@) =~= before.push(v));
                proof {
                    assert forall|a: int, b: int| 0 <= a < b < before.push(v).len() implies before.push(v)[a]
                        != before.push(v)[b] by {
                        if b == before.len() {
                            assert(before.contains(before[a]));
                        }
                    }
                }
                self.items = items;
                assert(texts(self.items@) =~= before.push(v));
                proof {
                    let after = before.push(v);
                    assert forall|x: Seq<char>| after.to_set().contains(x) <==> before.to_set().insert(v).contains(x) by {
                        if after.contains(x) {
                            let j = choose|j: int| 0 <= j < after.len() && after[j] == x;
                            if j < before.len() {
                                assert(before[j] == x);
                            }
                        }
                        if before.contains(x) {
                            let j = choose|j: int| 0 <= j < before.len() && before[j] == x;
                            assert(after[j] == x);
                        }
                        assert(after[before.len() as int] == v);
                    }
                    assert(after.to_set() =~= before.to_set().insert(v));
                    use_type_invariant(&*self);
                    texts(self.items@).unique_seq_to_set();
                }
                assert(self.contents() =~= old(self).contents().insert(v));
                true
            },
        }
    }

    /// Removes `item`.
    pub fn remove(&mut self, item: &String)
        ensures
            final(self).contents() == old(self).contents().remove(item@),
    {
        proof {
            use_type_invariant(&*self);
        }
        match self.find(item) {
            Some(i) => {
                let ghost before = texts(self.items@);
                let mut items: Vec<String> = Vec::new();
                std::mem::swap(&mut items, &mut self.items);
                items.remove(i);
                proof {
                    let after = texts(items@);
                    assert(after =~= before.remove(i as int));
                    assert forall|a: int, b: int| 0 <= a < b < after.len() implies after[a] != after[b] by {
                        let a2 = if a < i { a } else { a + 1 };
                        let b2 = if b < i { b } else { b + 1 };
                        assert(after[a] == before[a2] && after[b] == before[b2]);
                    }
                }
                self.items = items;
                proof {
                    let after = texts(self.items@);
                    assert forall|x: Seq<char>| after.to_set().contains(x) <==> before.to_set().remove(
                        item@,
                    ).contains(x) by {
                        if after.contains(x) {
                            let j = choose|j: int| 0 <= j < after.len() && after[j] == x;
                            let j2 = if j < i { j } else { j + 1 };
                            assert(before[j2] == x);
                            assert(before[i as int] == item@);
                        }
                        if before.contains(x) && x != item@ {
                            let j = choose|j: int| 0 <= j < before.len() && before[j] == x;
                            let j2 = if j < i { j } else { j - 1 };
                            assert(after[j2] == x);
                        }
                    }
                    assert(after.to_set() =~= before.to_set().remove(item@));
                }
            },
            None => {
                assert(old(self).contents().remove(item@) =~= old(self).contents());
            },
        }
    }

    /// Empties the set.
    pub fn clear(&mut self)
        ensures
            final(self).contents() == Set::<Seq<char>>::empty(),
    {
        let items: Vec<String> = Vec::new();
        assert(texts(items@) =~= Seq::<Seq<char>>::empty());
        self.items = items;
        assert(self.contents() =~= Set::<Seq<char>>::empty());
    }

    /// The number of items.
    pub fn len(&self) -> (r: usize)
        ensures
            r == self.contents().len(),
    {
        proof {
            use_type_invariant(self);
            texts(self.items@).unique_seq_to_set();
        }
        self.items.len()
    }
}

/// The characters of each pair of texts.
pub open spec fn pair_texts(s: Seq<(String, String)>) -> Seq<(Seq<char>, Seq<char>)> {
    s.map_values(|t: (String, String)| (t.0@, t.1@))
}

/// A set of pairs of texts.
pub struct PairSet {
    items: Vec<(String, String)>,
}

impl PairSet {
    /// No pair occurs twice.
    #[verifier::type_invariant]
    closed spec fn distinct_pairs(&self) -> bool {
        pair_texts(self.items@).no_duplicates()
    }

    /// The set this stands for.
    pub closed spec fn contents(&self) -> Set<(Seq<char>, Seq<char>)> {
        pair_texts(self.items@).to_set()
    }

    /// An empty set.
    pub fn new() -> (r: PairSet)
        ensures
            r.contents() == Set::<(Seq<char>, Seq<char>)>::empty(),
    {
        let r = PairSet { items: Vec::new() };
        assert(pair_texts(r.items@) =~= Seq::<(Seq<char>, Seq<char>)>::empty());
        assert(pair_texts(r.items@).to_set() =~= Set::<(Seq<char>, Seq<char>)>::empty());
        r
    }

    /// The position of the pair `(a, b)`.
    fn find(&self, a: &String, b: &String) -> (r: Option<usize>)
        ensures
            match r {
                Some(i) => i < self.items@.len() && pair_texts(self.items@)[i as int] == (a@, b@),
                None => !self.contents().contains((a@, b@)),
            },
    {
        let mut i: usize = 0;
        while i < self.items.len()
            invariant
                i <= self.items@.len(),
                forall|j: int| 0 <= j < i ==> #[trigger] pair_texts(self.items@)[j] != (a@, b@),
            decreases self.items.len() - i,
        {
            if self.items[i].0 == *a && self.items[i].1 == *b {
                return Some(i);
            }
            i = i + 1;
        }
        proof {
            if self.contents().contains((a@, b@)) {
                let j = choose|j: int| 0 <= j < pair_texts(self.items@).len() && #[trigger] pair_texts(self.items@)[j] == (a@, b@);
                assert(false);
            }
        }
        None
    }

    /// Whether the pair `(a, b)` is in the set.
    pub fn contains(&self, a: &String, b: &String) -> (r: bool)
        ensures
            r == self.contents().contains((a@, b@)),
    {
        match self.find(a, b) {
            Some(i) => {
                assert(pair_texts(self.items@).contains((a@, b@)));
                true
            },
            None => false,
        }
    }

    /// Adds the pair `(a, b)`; the result tells whether it was new.
    pub fn insert(&mut self, a: String, b: String) -> (r: bool)
        ensures
            final(self).contents() == old(self).contents().insert((a@, b@)),
            r == !old(self).contents().contains((a@, b@)),
    {
        proof {
            use_type_invariant(&*self);
        }
        match self.find(&a, &b) {
            Some(i) => {
                assert(pair_texts(self.items@).contains((a@, b@)));
                assert(old(self).contents().insert((a@, b@)) =~= old(self).contents());
                false
            },
            None => {
                let ghost before = pair_texts(self.items@);
                let ghost v = (a@, b@);
                let mut items: Vec<(String, String)> = Vec::new();
                std::mem::swap(&mut items, &mut self.items);
                items.push((a, b));
                assert(pair_texts(items@) =~= before.push(v));
                proof {
                    assert forall|x: int, y: int| 0 <= x < y < before.push(v).len() implies before.push(v)[x]
                        != before.push(v)[y] by {
                        if y == before.len() {
                            assert(before.contains(before[x]));
                        }
                    }
                }
                self.items = items;
                proof {
                    let after = before.push(v);
                    assert forall|x: (Seq<char>, Seq<char>)| after.to_set().contains(x) <==> before.to_set().insert(
                        v,
                    ).contains(x) by {
                        if after.contains(x) {
                            let j = choose|j: int| 0 <= j < after.len() && after[j] == x;
                            if j < before.len() {
                                assert(before[j] == x);
                            }
                        }
                        if before.contains(x) {
                            let j = choose|j: int| 0 <= j < before.len() && before[j] == x;
                            assert(after[j] == x);
                        }
                        assert(after[before.len() as int] == v);
                    }
                    assert(after.to_set() =~= before.to_set().insert(v));
                }
                true
            },
        }
    }

    /// Removes the pair `(a, b)`.
    pub fn remove(&mut self, a: &String, b: &String)
        ensures
            final(self).contents() == old(self).contents().remove((a@, b@)),
    {
        proof {
            use_type_invariant(&*self);
        }
        match self.find(a, b) {
            Some(i) => {
                let ghost before = pair_texts(self.items@);
                let ghost gone = (a@, b@);
                let mut items: Vec<(String, String)> = Vec::new();
                std::mem::swap(&mut items, &mut self.items);
                items.remove(i);
                proof {
                    let after = pair_texts(items@);
                    assert(after =~= before.remove(i as int));
                    assert forall|x: int, y: int| 0 <= x < y < after.len() implies after[x] != after[y] by {
                        let x2 = if x < i { x } else { x + 1 };
                        let y2 = if y < i { y } else { y + 1 };
                        assert(after[x] == before[x2] && after[y] == before[y2]);
                    }
                }
                self.items = items;
                proof {
                    let after = pair_texts(self.items@);
                    assert forall|x: (Seq<char>, Seq<char>)| after.to_set().contains(x) <==> before.to_set().remove(
                        gone,
                    ).contains(x) by {
                        if after.contains(x) {
                            let j = choose|j: int| 0 <= j < after.len() && after[j] == x;
                            let j2 = if j < i { j } else { j + 1 };
                            assert(before[j2] == x);
                            assert(before[i as int] == gone);
                        }
                        if before.contains(x) && x != gone {
                            let j = choose|j: int| 0 <= j < before.len() && before[j] == x;
                            let j2 = if j < i { j } else { j - 1 };
                            assert(after[j2] == x);
                        }
                    }
                    assert(after.to_set() =~= before.to_set().remove(gone));
                }
            },
            None => {
                assert(old(self).contents().remove((a@, b@)) =~= old(self).contents());
            },
        }
    }
}

} // verus!
