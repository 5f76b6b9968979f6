//! Attribute values as the key-value backend stores them, and the keyed
//! collection of attributes that makes up one stored row.

use vstd::prelude::*;

verus! {

/// One attribute value of the backend. Each field stands for one backend
/// type and is set where the value has that type: `s` a string, `n` a
/// number written as decimal text, `boolean` a boolean, `m` a nested map.
#[derive(Debug)]
pub struct AttributeValue {
    pub s: Option<String>,
    pub n: Option<String>,
    pub boolean: Option<bool>,
    pub m: Option<AttributeMap>,
}

/// Attributes by name. No name occurs twice.
#[derive(Debug)]
pub struct AttributeMap {
    entries: Vec<(String, AttributeValue)>,
}

/// What an `AttributeValue` holds.
pub ghost struct AttributeModel {
    pub s: Option<Seq<char>>,
    pub n: Option<Seq<char>>,
    pub boolean: Option<bool>,
    pub m: Option<Map<Seq<char>, AttributeModel>>,
}

/// The characters of an optional string.
pub open spec fn text_view(s: Option<String>) -> Option<Seq<char>> {
    match s {
        Some(t) => Some(t@),
        None => None,
    }
}

impl AttributeValue {
    /// What the value holds.
    pub open spec fn model(self) -> AttributeModel
        decreases self,
    {
        AttributeModel {
            s: text_view(self.s),
            n: text_view(self.n),
            boolean: self.boolean,
            m: match self.m {
                Some(map) => Some(map.model()),
                None => None,
            },
        }
    }
}

impl AttributeMap {
    /// What the map holds: each name with the value it has.
    pub closed spec fn model(self) -> Map<Seq<char>, AttributeModel>
        decreases self,
    {
        Map::new(
            |k: Seq<char>| exists|i: int| self.holds(k, i),
            |k: Seq<char>|
                {
                    let i = choose|i: int| self.holds(k, i);
                    if self.holds(k, i) {
                        self.entries@[i].1.model()
                    } else {
                        arbitrary()
                    }
                },
        )
    }
}

impl View for AttributeValue {
    type V = AttributeModel;

    open spec fn view(&self) -> AttributeModel {
        self.model()
    }
}

impl View for AttributeMap {
    type V = Map<Seq<char>, AttributeModel>;

    open spec fn view(&self) -> Map<Seq<char>, AttributeModel> {
        self.model()
    }
}

impl AttributeModel {
    /// A value of no backend type.
    pub open spec fn empty() -> AttributeModel {
        AttributeModel { s: None, n: None, boolean: None, m: None }
    }

    /// The string-typed value `s`.
    pub open spec fn string(s: Seq<char>) -> AttributeModel {
        AttributeModel { s: Some(s), n: None, boolean: None, m: None }
    }

    /// The number-typed value with the decimal text `n`.
    pub open spec fn number(n: Seq<char>) -> AttributeModel {
        AttributeModel { s: None, n: Some(n), boolean: None, m: None }
    }

    /// The boolean-typed value `b`.
    pub open spec fn boolean(b: bool) -> AttributeModel {
        AttributeModel { s: None, n: None, boolean: Some(b), m: None }
    }

    /// The map-typed value `m`.
    pub open spec fn map(m: Map<Seq<char>, AttributeModel>) -> AttributeModel {
        AttributeModel { s: None, n: None, boolean: None, m: Some(m) }
    }
}

impl AttributeValue {
    /// A value of no backend type.
    pub fn empty() -> (v: AttributeValue)
        ensures
            v@ == AttributeModel::empty(),
    {
        AttributeValue { s: None, n: None, boolean: None, m: None }
    }
}

impl AttributeMap {
    /// The entry at `i` is named `k`.
    spec fn holds(self, k: Seq<char>, i: int) -> bool {
        0 <= i < self.entries@.len() && self.entries@[i].0@ == k
    }

    #[verifier::type_invariant]
    spec fn distinct_names(self) -> bool {
        forall|i: int, j: int|
            0 <= i < j < self.entries@.len() ==> self.entries@[i].0@ != self.entries@[j].0@
    }

    /// With distinct names, the view maps the name of each entry to that
    /// entry's value, and holds no other name.
    proof fn lemma_view(self)
        requires
            self.distinct_names(),
        ensures
            forall|i: int|
                0 <= i < self.entries@.len() ==> self@.contains_key(
                    #[trigger] self.entries@[i].0@,
                ) && self@[self.entries@[i].0@] == self.entries@[i].1@,
            forall|k: Seq<char>| #[trigger]
                self@.contains_key(k) ==> exists|i: int| self.holds(k, i),
    {
        assert forall|i: int| 0 <= i < self.entries@.len() implies self@.contains_key(
            #[trigger] self.entries@[i].0@,
        ) && self@[self.entries@[i].0@] == self.entries@[i].1@ by {
            let k = self.entries@[i].0@;
            assert(self.holds(k, i));
            let j = choose|j: int| self.holds(k, j);
            assert(self.holds(k, j));
            assert(j == i);
            assert(self@.dom().contains(k));
            assert(self@[k] == self.entries@[j].1@);
        }
    }

    /// The map without attributes.
    pub fn new() -> (m: AttributeMap)
        ensures
            m@ == Map::<Seq<char>, AttributeModel>::empty(),
    {
        let m = AttributeMap { entries: Vec::new() };
        assert(m@ =~= Map::<Seq<char>, AttributeModel>::empty());
        m
    }

    /// How many attributes the map holds.
    pub fn len(&self) -> (n: usize)
        ensures
            n == self@.len(),
            self@.dom().finite(),
    {
        proof {
            use_type_invariant(self);
            self.lemma_len(self.entries@.len() as int);
            assert(self.upto(self.entries@.len() as int) =~= self@.dom()) by {
                self.lemma_view();
            }
        }
        self.entries.len()
    }

    /// The names of the first `n` entries.
    spec fn upto(self, n: int) -> Set<Seq<char>> {
        Set::new(|k: Seq<char>| exists|i: int| 0 <= i < n && self.holds(k, i))
    }

    proof fn lemma_len(self, n: int)
        requires
            self.distinct_names(),
            0 <= n <= self.entries@.len(),
        ensures
            self.upto(n).finite(),
            self.upto(n).len() == n,
        decreases n,
    {
        if n == 0 {
            assert(self.upto(0) =~= Set::<Seq<char>>::empty());
        } else {
            self.lemma_len(n - 1);
            let k = self.entries@[n - 1].0@;
            assert(self.holds(k, n - 1));
            assert(self.upto(n) =~= self.upto(n - 1).insert(k)) by {
                assert forall|x: Seq<char>| self.upto(n).contains(x) implies self.upto(
                    n - 1,
                ).insert(k).contains(x) by {
                    let i = choose|i: int| 0 <= i < n && self.holds(x, i);
                    if i < n - 1 {
                        assert(self.upto(n - 1).contains(x));
                    }
                }
                assert forall|x: Seq<char>| self.upto(n - 1).insert(k).contains(
                    x,
                ) implies self.upto(n).contains(x) by {
                    if x == k {
                        assert(self.holds(x, n - 1));
                    } else {
                        let i = choose|i: int| 0 <= i < n - 1 && self.holds(x, i);
                        assert(0 <= i < n && self.holds(x, i));
                    }
                }
            }
            assert(!self.upto(n - 1).contains(k)) by {
                if self.upto(n - 1).contains(k) {
                    let i = choose|i: int| 0 <= i < n - 1 && self.holds(k, i);
                    assert(self.entries@[i].0@ != self.entries@[n - 1].0@);
                }
            }
        }
    }

    /// Where the attribute named `key` stands, if the map holds one.
    fn position(&self, key: &str) -> (r: Option<usize>)
        ensures
            match r {
                Some(i) => self.holds(key@, i as int),
                None => forall|i: int| !self.holds(key@, i),
            },
    {
        let mut i: usize = 0;
        while i < self.entries.len()
            invariant
                i <= self.entries@.len(),
                forall|j: int| 0 <= j < i ==> !self.holds(key@, j),
            decreases self.entries@.len() - i,
        {
            if self.entries[i].0.as_str().eq(key) {
                return Some(i);
            }
            i = i + 1;
        }
        None
    }

    /// The attribute named `key`, if the map holds one.
    pub fn get(&self, key: &str) -> (r: Option<&AttributeValue>)
        ensures
            match r {
                Some(v) => self@.contains_key(key@) && self@[key@] == v@,
                None => !self@.contains_key(key@),
            },
    {
        proof {
            use_type_invariant(self);
            self.lemma_view();
        }
        match self.position(key) {
            Some(i) => Some(&self.entries[i].1),
            None => None,
        }
    }

    /// Pushing an entry under a name that the map lacks adds that name.
    proof fn lemma_push(self, after: AttributeMap, name: String, value: AttributeValue)
        requires
            self.distinct_names(),
            forall|j: int| !self.holds(name@, j),
            after.entries@ == self.entries@.push((name, value)),
        ensures
            after.distinct_names(),
            after@ == self@.insert(name@, value@),
    {
        let n = self.entries@.len() as int;
        let target = self@.insert(name@, value@);
        assert(after.distinct_names()) by {
            assert forall|i: int, j: int| 0 <= i < j < after.entries@.len() implies after.entries@[i].0@
                != after.entries@[j].0@ by {
                if j == n {
                    assert(!self.holds(name@, i));
                }
            }
        }
        self.lemma_view();
        after.lemma_view();
        assert forall|x: Seq<char>| #[trigger] after@.dom().contains(x) implies target.dom().contains(
            x,
        ) && after@[x] == target[x] by {
            let j = choose|j: int| after.holds(x, j);
            assert(after@[after.entries@[j].0@] == after.entries@[j].1@);
            if j < n {
                assert(self.holds(x, j));
                assert(self@.contains_key(self.entries@[j].0@));
                assert(self@[self.entries@[j].0@] == self.entries@[j].1@);
            }
        }
        assert forall|x: Seq<char>| #[trigger] target.dom().contains(x) implies after@.dom().contains(
            x,
        ) by {
            if x == name@ {
                assert(after@.contains_key(after.entries@[n].0@));
            } else {
                let j = choose|j: int| self.holds(x, j);
                assert(after.entries@[j] == self.entries@[j]);
                assert(after@.contains_key(after.entries@[j].0@));
            }
        }
        assert(after@.dom() =~= target.dom());
        assert(after@ =~= target);
    }

    /// Dropping the entry at `i` takes its name out of the map.
    proof fn lemma_drop(self, after: AttributeMap, i: int)
        requires
            self.distinct_names(),
            0 <= i < self.entries@.len(),
            after.entries@ == self.entries@.remove(i),
        ensures
            after.distinct_names(),
            after@ == self@.remove(self.entries@[i].0@),
            forall|j: int| !after.holds(self.entries@[i].0@, j),
    {
        let k = self.entries@[i].0@;
        let target = self@.remove(k);
        assert(after.distinct_names());
        assert forall|j: int| !after.holds(k, j) by {
            if after.holds(k, j) {
                if j < i {
                    assert(self.holds(k, j));
                } else {
                    assert(self.holds(k, j + 1));
                }
            }
        }
        self.lemma_view();
        after.lemma_view();
        assert forall|x: Seq<char>| #[trigger] after@.dom().contains(x) implies target.dom().contains(
            x,
        ) && after@[x] == target[x] by {
            let j = choose|j: int| after.holds(x, j);
            assert(after@[after.entries@[j].0@] == after.entries@[j].1@);
            if j < i {
                assert(self.holds(x, j));
                assert(self@.contains_key(self.entries@[j].0@));
                assert(self@[self.entries@[j].0@] == self.entries@[j].1@);
            } else {
                assert(self.holds(x, j + 1));
                assert(self@.contains_key(self.entries@[j + 1].0@));
                assert(self@[self.entries@[j + 1].0@] == self.entries@[j + 1].1@);
            }
        }
        assert forall|x: Seq<char>| #[trigger] target.dom().contains(x) implies after@.dom().contains(
            x,
        ) by {
            let j = choose|j: int| self.holds(x, j);
            if j < i {
                assert(after.entries@[j] == self.entries@[j]);
                assert(after@.contains_key(after.entries@[j].0@));
            } else {
                assert(j != i);
                assert(after.entries@[j - 1] == self.entries@[j]);
                assert(after@.contains_key(after.entries@[j - 1].0@));
            }
        }
        assert(after@.dom() =~= target.dom());
        assert(after@ =~= target);
    }

    /// Sets the attribute named `key` to `value` and hands back the value
    /// that the name had before, if it had one.
    pub fn insert(&mut self, key: String, value: AttributeValue) -> (before: Option<
        AttributeValue,
    >)
        ensures
            final(self)@ == old(self)@.insert(key@, value@),
            match before {
                Some(v) => old(self)@.contains_key(key@) && old(self)@[key@] == v@,
                None => !old(self)@.contains_key(key@),
            },
    {
        proof {
            use_type_invariant(&*self);
            self.lemma_view();
        }
        let ghost start = *self;
        let found = self.position(key.as_str());
        let mut entries: Vec<(String, AttributeValue)> = Vec::new();
        std::mem::swap(&mut entries, &mut self.entries);
        let before = match found {
            Some(i) => {
                let gone = entries.remove(i);
                Some(gone.1)
            },
            None => None,
        };
        let ghost mid = AttributeMap { entries };
        proof {
            match found {
                Some(i) => {
                    start.lemma_drop(mid, i as int);
                },
                None => {
                    assert(mid.entries@ =~= start.entries@);
                    assert forall|j: int| !mid.holds(key@, j) by {
                        assert(!start.holds(key@, j));
                    }
                    mid.lemma_view();
                    assert(mid@ =~= start@);
                },
            }
        }
        entries.push((key, value));
        proof {
            let after = AttributeMap { entries };
            mid.lemma_push(after, key, value);
            assert(after@ =~= start@.insert(key@, value@));
        }
        self.entries = entries;
        before
    }

    /// Takes the attribute named `key` out of the map and hands back its
    /// value, if the map held one.
    pub fn remove(&mut self, key: &str) -> (gone: Option<AttributeValue>)
        ensures
            final(self)@ == old(self)@.remove(key@),
            match gone {
                Some(v) => old(self)@.contains_key(key@) && old(self)@[key@] == v@,
                None => !old(self)@.contains_key(key@),
            },
    {
        proof {
            use_type_invariant(&*self);
            self.lemma_view();
        }
        let ghost start = *self;
        match self.position(key) {
            Some(i) => {
                let mut entries: Vec<(String, AttributeValue)> = Vec::new();
                std::mem::swap(&mut entries, &mut self.entries);
                let gone = entries.remove(i);
                proof {
                    start.lemma_drop(AttributeMap { entries }, i as int);
                }
                self.entries = entries;
                Some(gone.1)
            },
            None => {
                assert(self@ =~= start@.remove(key@));
                None
            },
        }
    }

    /// The attributes as pairs of name and value, each name once.
    pub fn into_entries(self) -> (entries: Vec<(String, AttributeValue)>)
        ensures
            entries@.len() == self@.len(),
            forall|i: int|
                0 <= i < entries@.len() ==> self@.contains_key(#[trigger] entries@[i].0@)
                    && self@[entries@[i].0@] == entries@[i].1@,
            forall|i: int, j: int|
                0 <= i < j < entries@.len() ==> entries@[i].0@ != entries@[j].0@,
    {
        proof {
            use_type_invariant(&self);
            self.lemma_view();
            self.lemma_len(self.entries@.len() as int);
            assert(self.upto(self.entries@.len() as int) =~= self@.dom());
        }
        self.entries
    }
}

} // verus!
