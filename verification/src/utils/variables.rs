//! The variables that a matched rule extracts from a request: a finite map
//! from variable names to values, kept as a list of entries with distinct names.

use vstd::prelude::*;

verus! {

/// Variables by name, as characters.
pub type VarMap = Map<Seq<char>, Seq<char>>;

/// The map that a list of (name, value) entries describes when read from the
/// first entry to the last, a later entry replacing an earlier one of the same name.
pub open spec fn entries_map(s: Seq<(String, String)>) -> Map<Seq<char>, Seq<char>>
    decreases s.len(),
{
    if s.len() == 0 {
        Map::empty()
    } else {
        entries_map(s.drop_last()).insert(s.last().0@, s.last().1@)
    }
}

/// No two entries carry the same name.
pub open spec fn distinct_names(s: Seq<(String, String)>) -> bool {
    forall|i: int, j: int| 0 <= i < j < s.len() ==> s[i].0@ != s[j].0@
}

/// A name is in the map exactly when some entry carries it.
pub proof fn lemma_entries_map_dom(s: Seq<(String, String)>, k: Seq<char>)
    ensures
        entries_map(s).contains_key(k) <==> exists|i: int| 0 <= i < s.len() && s[i].0@ == k,
    decreases s.len(),
{
    if s.len() > 0 {
        lemma_entries_map_dom(s.drop_last(), k);
        if entries_map(s).contains_key(k) && s.last().0@ != k {
            let i = choose|i: int| 0 <= i < s.len() - 1 && s.drop_last()[i].0@ == k;
            assert(s[i].0@ == k);
        }
        if exists|i: int| 0 <= i < s.len() && s[i].0@ == k {
            let i = choose|i: int| 0 <= i < s.len() && s[i].0@ == k;
            if i < s.len() - 1 {
                assert(s.drop_last()[i].0@ == k);
            }
        }
    }
}

/// With distinct names, every entry is found in the map with its value.
pub proof fn lemma_entries_map_index(s: Seq<(String, String)>, i: int)
    requires
        distinct_names(s),
        0 <= i < s.len(),
    ensures
        entries_map(s).contains_key(s[i].0@),
        entries_map(s)[s[i].0@] == s[i].1@,
    decreases s.len(),
{
    if i < s.len() - 1 {
        assert(distinct_names(s.drop_last()));
        lemma_entries_map_index(s.drop_last(), i);
        assert(s.drop_last()[i] == s[i]);
    }
}

/// Replacing the value of the entry at `i` replaces the value of its name in the map.
pub proof fn lemma_entries_map_update(s: Seq<(String, String)>, i: int, e: (String, String))
    requires
        distinct_names(s),
        0 <= i < s.len(),
        e.0@ == s[i].0@,
    ensures
        entries_map(s.update(i, e)) == entries_map(s).insert(e.0@, e.1@),
        distinct_names(s.update(i, e)),
    decreases s.len(),
{
    let t = s.update(i, e);
    if i == s.len() - 1 {
        assert(t.drop_last() =~= s.drop_last());
        assert(entries_map(t) =~= entries_map(s).insert(e.0@, e.1@));
    } else {
        assert(distinct_names(s.drop_last()));
        lemma_entries_map_update(s.drop_last(), i, e);
        assert(t.drop_last() =~= s.drop_last().update(i, e));
        assert(s.last().0@ != e.0@);
        assert(entries_map(t) =~= entries_map(s).insert(e.0@, e.1@));
    }
}

/// With distinct names, the map has as many names as there are entries.
pub proof fn lemma_entries_map_len(s: Seq<(String, String)>)
    requires
        distinct_names(s),
    ensures
        entries_map(s).dom().finite(),
        entries_map(s).len() == s.len(),
    decreases s.len(),
{
    if s.len() > 0 {
        assert(distinct_names(s.drop_last()));
        lemma_entries_map_len(s.drop_last());
        lemma_entries_map_dom(s.drop_last(), s.last().0@);
        if entries_map(s.drop_last()).contains_key(s.last().0@) {
            let i = choose|i: int|
                0 <= i < s.drop_last().len() && s.drop_last()[i].0@ == s.last().0@;
            assert(s[i].0@ == s[s.len() - 1].0@);
        }
    }
}

/// Variables extracted from a request, by name.
#[derive(Debug)]
pub struct ConfigVariables {
    entries: Vec<(String, String)>,
}

impl View for ConfigVariables {
    type V = Map<Seq<char>, Seq<char>>;

    closed spec fn view(&self) -> Map<Seq<char>, Seq<char>> {
        entries_map(self.entries@)
    }
}

impl ConfigVariables {
    #[verifier::type_invariant]
    closed spec fn names_distinct(self) -> bool {
        distinct_names(self.entries@)
    }

    /// No variables.
    pub fn new() -> (r: Self)
        ensures
            r@ == Map::<Seq<char>, Seq<char>>::empty(),
    {
        ConfigVariables { entries: Vec::new() }
    }

    /// The position of the entry named `key`, if any.
    fn position(&self, key: &str) -> (r: Option<usize>)
        ensures
            match r {
                Some(i) => i < self.entries@.len() && self.entries@[i as int].0@ == key@,
                None => forall|i: int|
                    0 <= i < self.entries@.len() ==> self.entries@[i].0@ != key@,
            },
    {
        let n = self.entries.len();
        let mut i: usize = 0;
        while i < n
            invariant
                n == self.entries@.len(),
                i <= n,
                forall|j: int| 0 <= j < i ==> self.entries@[j].0@ != key@,
            decreases n - i,
        {
            if crate::text::str_eq(self.entries[i].0.as_str(), key) {
                return Some(i);
            }
            i = i + 1;
        }
        None
    }

    /// The value of `key`, if it is set.
    pub fn get(&self, key: &str) -> (r: Option<&String>)
        ensures
            match r {
                Some(v) => self@.contains_key(key@) && self@[key@] == v@,
                None => !self@.contains_key(key@),
            },
    {
        proof {
            use_type_invariant(self);
            lemma_entries_map_dom(self.entries@, key@);
        }
        match self.position(key) {
            Some(i) => {
                proof {
                    lemma_entries_map_index(self.entries@, i as int);
                }
                Some(&self.entries[i].1)
            },
            None => None,
        }
    }

    /// Whether `key` is set.
    pub fn contains_key(&self, key: &str) -> (r: bool)
        ensures
            r == self@.contains_key(key@),
    {
        self.get(key).is_some()
    }

    /// Sets `key` to `value`, replacing an earlier value of `key`.
    pub fn insert(&mut self, key: String, value: String)
        ensures
            final(self)@ == old(self)@.insert(key@, value@),
    {
        proof {
            use_type_invariant(&*self);
        }
        let pos = self.position(key.as_str());
        let mut entries: Vec<(String, String)> = Vec::new();
        std::mem::swap(&mut entries, &mut self.entries);
        let ghost old_entries = entries@;
        match pos {
            Some(i) => {
                proof {
                    lemma_entries_map_update(entries@, i as int, (key, value));
                }
                entries.set(i, (key, value));
            },
            None => {
                entries.push((key, value));
                assert(entries@.drop_last() =~= old_entries);
            },
        }
        self.entries = entries;
    }

    /// The number of variables.
    pub fn len(&self) -> (r: usize)
        ensures
            r == self@.len(),
            self@.dom().finite(),
    {
        proof {
            use_type_invariant(self);
            lemma_entries_map_len(self.entries@);
        }
        self.entries.len()
    }

    /// Whether no variable is set.
    pub fn is_empty(&self) -> (r: bool)
        ensures
            r == (self@ == Map::<Seq<char>, Seq<char>>::empty()),
    {
        proof {
            use_type_invariant(self);
            lemma_entries_map_len(self.entries@);
            if self.entries@.len() > 0 {
                lemma_entries_map_index(self.entries@, 0);
                assert(!Map::<Seq<char>, Seq<char>>::empty().contains_key(self.entries@[0].0@));
            } else {
                assert(self@ =~= Map::<Seq<char>, Seq<char>>::empty());
            }
        }
        self.entries.len() == 0
    }

    /// Sets every variable of `other` here, its values replacing those of the same name.
    pub fn extend(&mut self, other: ConfigVariables)
        ensures
            final(self)@ == old(self)@.union_prefer_right(other@),
    {
        let n = other.entries.len();
        let mut i: usize = 0;
        assert(other.entries@.take(0) =~= Seq::<(String, String)>::empty());
        assert(old(self)@.union_prefer_right(Map::empty()) =~= old(self)@);
        while i < n
            invariant
                n == other.entries@.len(),
                i <= n,
                self@ == old(self)@.union_prefer_right(entries_map(other.entries@.take(i as int))),
            decreases n - i,
        {
            let key = other.entries[i].0.clone();
            let value = other.entries[i].1.clone();
            let ghost before = entries_map(other.entries@.take(i as int));
            self.insert(key, value);
            assert(other.entries@.take(i + 1).drop_last() =~= other.entries@.take(i as int));
            assert(self@ =~= old(self)@.union_prefer_right(
                entries_map(other.entries@.take(i + 1)),
            ));
            i = i + 1;
        }
        assert(other.entries@.take(n as int) =~= other.entries@);
    }

    /// Whether every variable of `other` is set here to the same value.
    fn includes(&self, other: &ConfigVariables) -> (r: bool)
        ensures
            r == other@.submap_of(self@),
    {
        proof {
            use_type_invariant(other);
        }
        let n = other.entries.len();
        let mut i: usize = 0;
        while i < n
            invariant
                n == other.entries@.len(),
                i <= n,
                distinct_names(other.entries@),
                forall|j: int|
                    0 <= j < i ==> #[trigger] self@.contains_key(other.entries@[j].0@)
                        && self@[other.entries@[j].0@] == other.entries@[j].1@,
            decreases n - i,
        {
            let found = self.get(other.entries[i].0.as_str());
            proof {
                lemma_entries_map_index(other.entries@, i as int);
            }
            let ghost k = other.entries@[i as int].0@;
            match found {
                Some(v) => {
                    if !crate::text::str_eq(v.as_str(), other.entries[i].1.as_str()) {
                        assert(other@.contains_key(k) && self@[k] != other@[k]);
                        return false;
                    }
                    assert(self@.contains_key(k) && self@[k] == other.entries@[i as int].1@);
                },
                None => {
                    assert(other@.contains_key(k) && !self@.contains_key(k));
                    return false;
                },
            }
            assert forall|j: int|
                0 <= j < i + 1 implies #[trigger] self@.contains_key(other.entries@[j].0@)
                && self@[other.entries@[j].0@] == other.entries@[j].1@ by {
                if j == i {
                    assert(other.entries@[j].0@ == k);
                }
            }
            i = i + 1;
        }
        proof {
            assert forall|k: Seq<char>| #[trigger] other@.contains_key(k) implies self@.contains_key(
                k,
            ) && self@[k] == other@[k] by {
                lemma_entries_map_dom(other.entries@, k);
                let j = choose|j: int| 0 <= j < other.entries@.len() && other.entries@[j].0@ == k;
                lemma_entries_map_index(other.entries@, j);
            }
        }
        true
    }
}

/// The variables of an optional result, as a map.
pub open spec fn vars_view(o: Option<ConfigVariables>) -> Option<VarMap> {
    match o {
        Some(v) => Some(v@),
        None => None,
    }
}

impl PartialEq for ConfigVariables {
    fn eq(&self, other: &Self) -> (r: bool) {
        let r = self.includes(other) && other.includes(self);
        proof {
            if r {
                assert forall|k: Seq<char>| #[trigger] self@.contains_key(k) implies other@.contains_key(k)
                    && self@[k] == other@[k] by {
                    assert(self@.submap_of(other@));
                }
                assert forall|k: Seq<char>| #[trigger] other@.contains_key(k) implies self@.contains_key(k)
                    by {
                    assert(other@.submap_of(self@));
                }
                assert(self@ =~= other@);
            }
        }
        r
    }
}

impl vstd::std_specs::cmp::PartialEqSpecImpl for ConfigVariables {
    open spec fn obeys_eq_spec() -> bool {
        true
    }

    open spec fn eq_spec(&self, other: &Self) -> bool {
        self@ == other@
    }
}

} // verus!
