use vstd::prelude::*;

verus! {

/// The declared field names of a collection: a set of strings.
#[derive(Debug)]
pub struct FieldSet {
    names: Vec<String>,
}

impl View for FieldSet {
    type V = Set<Seq<char>>;

    closed spec fn view(&self) -> Set<Seq<char>> {
        Set::new(|k: Seq<char>| exists|i: int| 0 <= i < self.names@.len() && #[trigger] self.names@[i]@ == k)
    }
}

impl FieldSet {
    /// The names in storage order; each name of the set occurs once.
    pub closed spec fn name_seq(&self) -> Seq<Seq<char>> {
        self.names@.map_values(|s: String| s@)
    }

    /// A copy of the set.
    pub fn clone_set(&self) -> (r: FieldSet)
        ensures
            r@ == self@,
    {
        let mut names: Vec<String> = Vec::new();
        let mut i: usize = 0;
        while i < self.names.len()
            invariant
                i <= self.names@.len(),
                names@ == self.names@.take(i as int),
            decreases self.names@.len() - i,
        {
            names.push(self.names[i].clone());
            assert(self.names@.take(i + 1) =~= self.names@.take(i as int).push(self.names@[i as int]));
            i = i + 1;
        }
        assert(self.names@.take(self.names@.len() as int) =~= self.names@);
        let r = FieldSet { names };
        assert(r@ =~= self@);
        r
    }

    /// The names, each once.
    pub fn to_vec(&self) -> (r: Vec<String>)
        ensures
            r@.map_values(|s: String| s@).to_set() == self@,
    {
        let c = self.clone_set();
        proof {
            let ms = c.names@.map_values(|s: String| s@);
            assert forall|k: Seq<char>| ms.to_set().contains(k) <==> self@.contains(k) by {
                if self@.contains(k) {
                    let i = choose|i: int| 0 <= i < c.names@.len() && #[trigger] c.names@[i]@ == k;
                    assert(ms[i] == k);
                }
                if ms.contains(k) {
                    let i = choose|i: int| 0 <= i < ms.len() && #[trigger] ms[i] == k;
                    assert(c.names@[i]@ == k);
                }
            }
            assert(ms.to_set() =~= self@);
        }
        c.names
    }

    /// The set of the given names.
    pub fn from_names(names: &Vec<String>) -> (r: FieldSet)
        ensures
            r@ == names@.map_values(|s: String| s@).to_set(),
    {
        let ghost ns = names@.map_values(|s: String| s@);
        let mut set = FieldSet::new();
        let mut i: usize = 0;
        while i < names.len()
            invariant
                i <= names@.len(),
                ns == names@.map_values(|s: String| s@),
                set@ == ns.take(i as int).to_set(),
            decreases names@.len() - i,
        {
            set.insert(names[i].clone());
            proof {
                assert(ns.take(i + 1) =~= ns.take(i as int).push(ns[i as int]));
                ns.take(i as int).lemma_push_to_set_commute(ns[i as int]);
            }
            i = i + 1;
        }
        assert(ns.take(ns.len() as int) =~= ns);
        set
    }

    /// Whether every name of this set is in `other`.
    pub fn is_subset_of(&self, other: &FieldSet) -> (r: bool)
        ensures
            r == self@.subset_of(other@),
    {
        let mut i: usize = 0;
        while i < self.names.len()
            invariant
                i <= self.names@.len(),
                forall|j: int| 0 <= j < i ==> other@.contains(#[trigger] self.names@[j]@),
            decreases self.names@.len() - i,
        {
            if !other.contains(&self.names[i]) {
                assert(self@.contains(self.names@[i as int]@));
                return false;
            }
            i = i + 1;
        }
        assert forall|k: Seq<char>| #[trigger] self@.contains(k) implies other@.contains(k) by {
            let j = choose|j: int| 0 <= j < self.names@.len() && #[trigger] self.names@[j]@ == k;
        }
        true
    }

    /// An empty set of names.
    pub fn new() -> (r: FieldSet)
        ensures
            r@ == Set::<Seq<char>>::empty(),
    {
        let r = FieldSet { names: Vec::new() };
        assert(r@ =~= Set::<Seq<char>>::empty());
        r
    }

    /// Whether `name` is in the set.
    pub fn contains(&self, name: &String) -> (r: bool)
        ensures
            r == self@.contains(name@),
    {
        let mut i: usize = 0;
        while i < self.names.len()
            invariant
                i <= self.names@.len(),
                forall|j: int| 0 <= j < i ==> self.names@[j]@ != name@,
            decreases self.names@.len() - i,
        {
            if self.names[i] == *name {
                assert(self.names@[i as int]@ == name@);
                return true;
            }
            i = i + 1;
        }
        false
    }

    /// Adds `name`; a name already present is left as it is.
    pub fn insert(&mut self, name: String)
        ensures
            final(self)@ == old(self)@.insert(name@),
    {
        if !self.contains(&name) {
            self.names.push(name);
            proof {
                let n = self.names@.len() - 1;
                assert forall|k: Seq<char>| #[trigger] final(self)@.contains(k) == old(self)@.insert(name@).contains(k) by {
                    if old(self)@.contains(k) {
                        let i = choose|i: int| 0 <= i < old(self).names@.len() && #[trigger] old(self).names@[i]@ == k;
                        assert(self.names@[i]@ == k);
                    }
                    if k == name@ {
                        assert(self.names@[n]@ == k);
                    }
                    if self@.contains(k) {
                        let i = choose|i: int| 0 <= i < self.names@.len() && #[trigger] self.names@[i]@ == k;
                        if i < n {
                            assert(old(self).names@[i]@ == k);
                        }
                    }
                }
                assert(final(self)@ =~= old(self)@.insert(name@));
            }
        }
    }
}

impl PartialEq for FieldSet {
    fn eq(&self, other: &FieldSet) -> (r: bool)
        ensures
            r == (self@ == other@),
    {
        let r = self.is_subset_of(other) && other.is_subset_of(self);
        proof {
            if r {
                assert(self@ =~= other@);
            }
        }
        r
    }
}

impl vstd::std_specs::cmp::PartialEqSpecImpl for FieldSet {
    open spec fn obeys_eq_spec() -> bool {
        true
    }

    open spec fn eq_spec(&self, other: &FieldSet) -> bool {
        self@ == other@
    }
}

} // verus!
