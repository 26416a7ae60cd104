use vstd::prelude::*;

verus! {

/// The map that a list of `(name, value)` entries stands for: a later entry for a
/// name hides an earlier one.
pub open spec fn entries_map<V>(s: Seq<(String, V)>) -> Map<Seq<char>, V>
    decreases s.len(),
{
    if s.len() == 0 {
        Map::empty()
    } else {
        entries_map(s.drop_last()).insert(s.last().0@, s.last().1)
    }
}

proof fn lemma_entries_map_found<V>(s: Seq<(String, V)>, i: int, k: Seq<char>)
    requires
        0 <= i < s.len(),
        s[i].0@ == k,
        forall|j: int| i < j < s.len() ==> (#[trigger] s[j]).0@ != k,
    ensures
        entries_map(s).contains_key(k),
        entries_map(s)[k] == s[i].1,
    decreases s.len(),
{
    if i < s.len() - 1 {
        let p = s.drop_last();
        assert forall|j: int| i < j < p.len() implies (#[trigger] p[j]).0@ != k by {
            assert(p[j] == s[j]);
        }
        lemma_entries_map_found(p, i, k);
        assert(s[s.len() - 1].0@ != k);
    }
}

proof fn lemma_entries_map_absent<V>(s: Seq<(String, V)>, k: Seq<char>)
    requires
        forall|j: int| 0 <= j < s.len() ==> (#[trigger] s[j]).0@ != k,
    ensures
        !entries_map(s).contains_key(k),
    decreases s.len(),
{
    if s.len() > 0 {
        let p = s.drop_last();
        assert forall|j: int| 0 <= j < p.len() implies (#[trigger] p[j]).0@ != k by {
            assert(p[j] == s[j]);
        }
        lemma_entries_map_absent(p, k);
        assert(s[s.len() - 1].0@ != k);
    }
}

/// A table from names to values, written to once per name.
#[derive(Clone, Debug, PartialEq, Eq)]
pub struct NameMap<V> {
    pub entries: Vec<(String, V)>,
}

impl<V> View for NameMap<V> {
    type V = Map<Seq<char>, V>;

    open spec fn view(&self) -> Map<Seq<char>, V> {
        entries_map(self.entries@)
    }
}

impl<V> NameMap<V> {
    pub fn new() -> (r: NameMap<V>)
        ensures
            r@ == Map::<Seq<char>, V>::empty(),
    {
        NameMap { entries: Vec::new() }
    }

    /// The index of the entry that holds `name`'s value.
    fn find(&self, name: &String) -> (r: Option<usize>)
        ensures
            match r {
                Some(i) => {
                    &&& i < self.entries@.len()
                    &&& self@.contains_key(name@)
                    &&& self@[name@] == self.entries@[i as int].1
                },
                None => !self@.contains_key(name@),
            },
    {
        let mut i = self.entries.len();
        while i > 0
            invariant
                i <= self.entries@.len(),
                forall|j: int| i <= j < self.entries@.len() ==> (#[trigger] self.entries@[j]).0@
                    != name@,
            decreases i,
        {
            if self.entries[i - 1].0 == *name {
                proof {
                    lemma_entries_map_found(self.entries@, i - 1, name@);
                }
                return Some(i - 1);
            }
            i = i - 1;
        }
        proof {
            lemma_entries_map_absent(self.entries@, name@);
        }
        None
    }

    pub fn contains(&self, name: &String) -> (r: bool)
        ensures
            r == self@.contains_key(name@),
    {
        self.find(name).is_some()
    }

    pub fn get(&self, name: &String) -> (r: Option<&V>)
        ensures
            match r {
                Some(v) => self@.contains_key(name@) && self@[name@] == *v,
                None => !self@.contains_key(name@),
            },
    {
        match self.find(name) {
            Some(i) => Some(&self.entries[i].1),
            None => None,
        }
    }

    /// Sets `name` to `value`, replacing any earlier value.
    pub fn insert(&mut self, name: String, value: V)
        ensures
            final(self)@ == old(self)@.insert(name@, value),
    {
        let ghost before = self.entries@;
        self.entries.push((name, value));
        assert(self.entries@.drop_last() =~= before);
    }

    /// Adds `name` with `value` unless `name` is already present, in which case the
    /// table is left as it was and `false` is returned.
    pub fn insert_new(&mut self, name: String, value: V) -> (r: bool)
        ensures
            r == !old(self)@.contains_key(name@),
            r ==> final(self)@ == old(self)@.insert(name@, value),
            !r ==> final(self)@ == old(self)@,
    {
        if self.contains(&name) {
            return false;
        }
        let ghost before = self.entries@;
        self.entries.push((name, value));
        assert(self.entries@.drop_last() =~= before);
        true
    }
}

/// The set that a list of names stands for.
pub open spec fn names_set(s: Seq<String>) -> Set<Seq<char>>
    decreases s.len(),
{
    if s.len() == 0 {
        Set::empty()
    } else {
        names_set(s.drop_last()).insert(s.last()@)
    }
}

proof fn lemma_names_set(s: Seq<String>, k: Seq<char>)
    ensures
        names_set(s).contains(k) <==> exists|j: int| 0 <= j < s.len() && (#[trigger] s[j])@ == k,
    decreases s.len(),
{
    if s.len() > 0 {
        let p = s.drop_last();
        lemma_names_set(p, k);
        if names_set(p).contains(k) {
            let j = choose|j: int| 0 <= j < p.len() && (#[trigger] p[j])@ == k;
            assert(s[j] == p[j]);
        }
        if exists|j: int| 0 <= j < s.len() && (#[trigger] s[j])@ == k {
            let j = choose|j: int| 0 <= j < s.len() && (#[trigger] s[j])@ == k;
            if j < p.len() {
                assert(p[j] == s[j]);
            }
        }
    }
}

/// A set of names.
#[derive(Clone, Debug, PartialEq, Eq)]
pub struct NameSet {
    pub names: Vec<String>,
}

impl View for NameSet {
    type V = Set<Seq<char>>;

    open spec fn view(&self) -> Set<Seq<char>> {
        names_set(self.names@)
    }
}

impl NameSet {
    pub fn new() -> (r: NameSet)
        ensures
            r@ == Set::<Seq<char>>::empty(),
    {
        NameSet { names: Vec::new() }
    }

    pub fn contains(&self, name: &String) -> (r: bool)
        ensures
            r == self@.contains(name@),
    {
        let mut i: usize = 0;
        while i < self.names.len()
            invariant
                i <= self.names@.len(),
                forall|j: int| 0 <= j < i ==> (#[trigger] self.names@[j])@ != name@,
            decreases self.names@.len() - i,
        {
            if self.names[i] == *name {
                proof {
                    lemma_names_set(self.names@, name@);
                }
                return true;
            }
            i = i + 1;
        }
        proof {
            lemma_names_set(self.names@, name@);
        }
        false
    }

    pub fn insert(&mut self, name: String)
        ensures
            final(self)@ == old(self)@.insert(name@),
    {
        if !self.contains(&name) {
            let ghost before = self.names@;
            self.names.push(name);
            assert(self.names@.drop_last() =~= before);
        } else {
            assert(old(self)@.insert(name@) =~= old(self)@);
        }
    }

    pub fn clone_set(&self) -> (r: NameSet)
        ensures
            r@ == self@,
    {
        let mut names: Vec<String> = Vec::new();
        let mut i: usize = 0;
        while i < self.names.len()
            invariant
                i <= self.names@.len(),
                names@.len() == i,
                forall|j: int| 0 <= j < i ==> (#[trigger] names@[j])@ == self.names@[j]@,
            decreases self.names@.len() - i,
        {
            names.push(self.names[i].clone());
            i = i + 1;
        }
        let r = NameSet { names };
        proof {
            assert forall|k: Seq<char>| r@.contains(k) <==> self@.contains(k) by {
                lemma_names_set(r.names@, k);
                lemma_names_set(self.names@, k);
                if r@.contains(k) {
                    let j = choose|j: int| 0 <= j < r.names@.len() && (#[trigger] r.names@[j])@ == k;
                    assert(self.names@[j]@ == k);
                }
                if self@.contains(k) {
                    let j = choose|j: int| 0 <= j < self.names@.len() && (#[trigger] self.names@[j])@ == k;
                    assert(r.names@[j]@ == k);
                }
            }
            assert(r@ =~= self@);
        }
        r
    }
}

} // verus!
