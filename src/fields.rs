use vstd::prelude::*;

verus! {

/// The map that results from writing the pairs in order, a later pair
/// replacing an earlier one with the same name.
pub open spec fn fields_map(s: Seq<(Seq<char>, Seq<char>)>) -> Map<Seq<char>, Seq<char>>
    decreases s.len(),
{
    if s.len() == 0 {
        Map::empty()
    } else {
        fields_map(s.drop_last()).insert(s.last().0, s.last().1)
    }
}

pub open spec fn names_unique(s: Seq<(Seq<char>, Seq<char>)>) -> bool {
    forall|i: int, j: int| 0 <= i < j < s.len() ==> s[i].0 != s[j].0
}

proof fn lemma_fields_map_dom(s: Seq<(Seq<char>, Seq<char>)>, k: Seq<char>)
    ensures
        fields_map(s).contains_key(k) <==> exists|i: int| 0 <= i < s.len() && s[i].0 == k,
    decreases s.len(),
{
    if s.len() > 0 {
        lemma_fields_map_dom(s.drop_last(), k);
        if fields_map(s).contains_key(k) && k != s.last().0 {
            let i = choose|i: int| 0 <= i < s.len() - 1 && s.drop_last()[i].0 == k;
            assert(s[i].0 == k);
        }
        if exists|i: int| 0 <= i < s.len() && s[i].0 == k {
            let i = choose|i: int| 0 <= i < s.len() && s[i].0 == k;
            if i < s.len() - 1 {
                assert(s.drop_last()[i].0 == k);
            }
        }
    }
}

proof fn lemma_fields_map_value(s: Seq<(Seq<char>, Seq<char>)>, i: int)
    requires
        names_unique(s),
        0 <= i < s.len(),
    ensures
        fields_map(s).contains_key(s[i].0),
        fields_map(s)[s[i].0] == s[i].1,
    decreases s.len(),
{
    if i < s.len() - 1 {
        lemma_fields_map_value(s.drop_last(), i);
    }
}

proof fn lemma_fields_map_update(s: Seq<(Seq<char>, Seq<char>)>, i: int, v: Seq<char>)
    requires
        names_unique(s),
        0 <= i < s.len(),
    ensures
        names_unique(s.update(i, (s[i].0, v))),
        fields_map(s.update(i, (s[i].0, v))) == fields_map(s).insert(s[i].0, v),
{
    let k = s[i].0;
    let t = s.update(i, (k, v));
    let m = fields_map(s).insert(k, v);
    assert(names_unique(t));
    assert forall|key: Seq<char>| #[trigger] fields_map(t).contains_key(key) <==> m.contains_key(key) by {
        lemma_fields_map_dom(s, key);
        lemma_fields_map_dom(t, key);
        if fields_map(s).contains_key(key) {
            let j = choose|j: int| 0 <= j < s.len() && s[j].0 == key;
            assert(t[j].0 == key);
        }
        if fields_map(t).contains_key(key) {
            let j = choose|j: int| 0 <= j < t.len() && t[j].0 == key;
            assert(s[j].0 == key);
        }
        lemma_fields_map_value(t, i);
    }
    assert forall|key: Seq<char>| fields_map(t).contains_key(key) implies #[trigger] fields_map(t)[key] == m[key] by {
        lemma_fields_map_dom(t, key);
        let j = choose|j: int| 0 <= j < t.len() && t[j].0 == key;
        lemma_fields_map_value(t, j);
        if j != i {
            assert(s[j].0 == key);
            lemma_fields_map_value(s, j);
        }
    }
    assert(fields_map(t) =~= m);
}

/// A map from names to values, such as header fields or query parameters,
/// that keeps its entries in the order in which names were first written.
pub struct FieldMap {
    entries: Vec<(String, String)>,
}

impl FieldMap {
    /// The entries, name and value, in order.
    pub closed spec fn pairs(&self) -> Seq<(Seq<char>, Seq<char>)> {
        self.entries@.map_values(|e: (String, String)| (e.0@, e.1@))
    }

    pub closed spec fn wf(&self) -> bool {
        names_unique(self.pairs())
    }

    pub fn new() -> (r: FieldMap)
        ensures
            r.wf(),
            r.pairs() == Seq::<(Seq<char>, Seq<char>)>::empty(),
            r@ == Map::<Seq<char>, Seq<char>>::empty(),
    {
        let r = FieldMap { entries: Vec::new() };
        assert(r.pairs() =~= Seq::<(Seq<char>, Seq<char>)>::empty());
        r
    }

    /// Number of distinct names.
    pub fn len(&self) -> (r: usize)
        ensures
            r == self.pairs().len(),
    {
        self.entries.len()
    }

    /// The entry at position `i`.
    pub fn entry(&self, i: usize) -> (r: (&String, &String))
        requires
            i < self.pairs().len(),
        ensures
            r.0@ == self.pairs()[i as int].0,
            r.1@ == self.pairs()[i as int].1,
    {
        let e = &self.entries[i];
        (&e.0, &e.1)
    }

    fn position(&self, name: &String) -> (r: Option<usize>)
        ensures
            match r {
                Some(i) => i < self.pairs().len() && self.pairs()[i as int].0 == name@,
                None => forall|i: int| 0 <= i < self.pairs().len() ==> self.pairs()[i].0 != name@,
            },
    {
        let mut i: usize = 0;
        while i < self.entries.len()
            invariant
                i <= self.entries@.len(),
                forall|j: int| 0 <= j < i ==> self.pairs()[j].0 != name@,
            decreases self.entries@.len() - i,
        {
            if self.entries[i].0 == *name {
                return Some(i);
            }
            i = i + 1;
        }
        None
    }

    /// Sets `name` to `value`; a name already present keeps its position and
    /// takes the new value.
    pub fn insert(&mut self, name: String, value: String)
        requires
            old(self).wf(),
        ensures
            final(self).wf(),
            final(self)@ == old(self)@.insert(name@, value@),
            old(self)@.contains_key(name@) ==> final(self).pairs() == old(self).pairs().update(
                choose|i: int| 0 <= i < old(self).pairs().len() && old(self).pairs()[i].0 == name@,
                (name@, value@),
            ),
            !old(self)@.contains_key(name@) ==> final(self).pairs() == old(self).pairs().push(
                (name@, value@),
            ),
    {
        let ghost s = self.pairs();
        proof {
            lemma_fields_map_dom(s, name@);
        }
        match self.position(&name) {
            Some(i) => {
                let ghost k = name@;
                let ghost v = value@;
                self.entries.set(i, (name, value));
                let ghost t = self.pairs();
                assert(t =~= s.update(i as int, (k, v)));
                assert(names_unique(t));
                assert(s[i as int].0 == k);
                proof {
                    lemma_fields_map_update(s, i as int, v);
                }
            },
            None => {
                let ghost k = name@;
                let ghost v = value@;
                self.entries.push((name, value));
                let ghost t = self.pairs();
                assert(t =~= s.push((k, v)));
                assert(t.drop_last() =~= s);
            },
        }
    }

    /// The value written last under `name`, if any.
    pub fn get(&self, name: &str) -> (r: Option<&String>)
        requires
            self.wf(),
        ensures
            r.is_some() <==> self@.contains_key(name@),
            r.is_some() ==> r.unwrap()@ == self@[name@],
    {
        let key = name.to_owned();
        let p = self.position(&key);
        proof {
            lemma_fields_map_dom(self.pairs(), name@);
        }
        match p {
            Some(i) => {
                proof {
                    lemma_fields_map_value(self.pairs(), i as int);
                }
                Some(&self.entries[i].1)
            },
            None => None,
        }
    }
}

impl View for FieldMap {
    type V = Map<Seq<char>, Seq<char>>;

    open spec fn view(&self) -> Map<Seq<char>, Seq<char>> {
        fields_map(self.pairs())
    }
}

} // verus!
