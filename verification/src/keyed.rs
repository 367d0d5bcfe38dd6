//! A list of values under distinct string names, seen as a map from name to
//! value: storing under a name that is already there replaces its value.
use vstd::prelude::*;

use crate::text::str_eq;

verus! {

broadcast use vstd::seq_lib::group_seq_properties;

/// No two entries carry the same name.
pub open spec fn distinct_names<V>(s: Seq<(String, V)>) -> bool {
    forall|i: int, j: int| 0 <= i < j < s.len() ==> s[i].0@ != s[j].0@
}

/// The map from name to value (by view) that the entries describe; a later
/// entry wins over an earlier one with the same name.
pub open spec fn named_map<V: View>(s: Seq<(String, V)>) -> Map<Seq<char>, V::V>
    decreases s.len(),
{
    if s.len() == 0 {
        Map::empty()
    } else {
        named_map(s.drop_last()).insert(s.last().0@, s.last().1@)
    }
}

/// The names of the map are the names of the entries.
pub proof fn lemma_named_map_keys<V: View>(s: Seq<(String, V)>)
    ensures
        forall|k: Seq<char>|
            #[trigger] named_map(s).contains_key(k) <==> exists|i: int|
                0 <= i < s.len() && #[trigger] s[i].0@ == k,
    decreases s.len(),
{
    if s.len() > 0 {
        let d = s.drop_last();
        lemma_named_map_keys(d);
        assert forall|k: Seq<char>| #[trigger]
            named_map(s).contains_key(k) <==> exists|i: int|
                0 <= i < s.len() && #[trigger] s[i].0@ == k by {
            if named_map(s).contains_key(k) {
                if k == s.last().0@ {
                    assert(s[s.len() - 1].0@ == k);
                } else {
                    assert(named_map(s) == named_map(d).insert(s.last().0@, s.last().1@));
                    assert(named_map(d).contains_key(k));
                    let i = choose|i: int| 0 <= i < d.len() && #[trigger] d[i].0@ == k;
                    assert(s[i].0@ == k);
                }
            }
            if exists|i: int| 0 <= i < s.len() && #[trigger] s[i].0@ == k {
                let i = choose|i: int| 0 <= i < s.len() && #[trigger] s[i].0@ == k;
                assert(named_map(s) == named_map(d).insert(s.last().0@, s.last().1@));
                if i < s.len() - 1 {
                    assert(d[i].0@ == k);
                    assert(named_map(d).contains_key(k));
                }
            }
        }
    }
}

/// With distinct names, each entry's value is what the map gives for its
/// name.
pub proof fn lemma_named_map_values<V: View>(s: Seq<(String, V)>, i: int)
    requires
        distinct_names(s),
        0 <= i < s.len(),
    ensures
        named_map(s).contains_key(s[i].0@),
        named_map(s)[s[i].0@] == s[i].1@,
    decreases s.len(),
{
    if i < s.len() - 1 {
        let d = s.drop_last();
        assert(d[i] == s[i]);
        lemma_named_map_values(d, i);
    }
}

/// With distinct names, removing an entry removes its name from the map.
pub proof fn lemma_named_map_remove<V: View>(s: Seq<(String, V)>, i: int)
    requires
        distinct_names(s),
        0 <= i < s.len(),
    ensures
        named_map(s.remove(i)) == named_map(s).remove(s[i].0@),
        distinct_names(s.remove(i)),
    decreases s.len(),
{
    let d = s.drop_last();
    let k = s[i].0@;
    if i == s.len() - 1 {
        assert(s.remove(i) =~= d);
        lemma_named_map_keys(d);
        assert(!named_map(d).contains_key(k));
        assert(named_map(d) =~= named_map(d).insert(k, s.last().1@).remove(k));
    } else {
        assert(d[i] == s[i]);
        lemma_named_map_remove(d, i);
        assert(s.remove(i).drop_last() =~= d.remove(i));
        assert(s.remove(i).last() == s.last());
        assert(s.last().0@ != k);
        assert(named_map(d.remove(i)).insert(s.last().0@, s.last().1@) =~= named_map(d).insert(
            s.last().0@,
            s.last().1@,
        ).remove(k));
    }
}

/// Values under distinct names.
#[derive(Debug)]
pub struct NamedList<V> {
    items: Vec<(String, V)>,
}

impl<V: View> View for NamedList<V> {
    type V = Map<Seq<char>, V::V>;

    closed spec fn view(&self) -> Map<Seq<char>, V::V> {
        named_map(self.items@)
    }
}

impl<V> NamedList<V> {
    #[verifier::type_invariant]
    spec fn names_distinct(&self) -> bool {
        distinct_names(self.items@)
    }
}

impl<V: View> NamedList<V> {
    /// No values.
    pub fn new() -> (r: NamedList<V>)
        ensures
            r@ == Map::<Seq<char>, V::V>::empty(),
    {
        NamedList { items: Vec::new() }
    }

    fn find(&self, name: &str) -> (r: Option<usize>)
        ensures
            (match r {
                Some(i) => i < self.items.len() && self.items@[i as int].0@ == name@,
                None => !self@.contains_key(name@),
            }),
    {
        proof {
            use_type_invariant(self);
            lemma_named_map_keys(self.items@);
        }
        let mut i: usize = 0;
        while i < self.items.len()
            invariant
                i <= self.items.len(),
                forall|j: int| 0 <= j < i ==> #[trigger] self.items@[j].0@ != name@,
            decreases self.items.len() - i,
        {
            if str_eq(self.items[i].0.as_str(), name) {
                return Some(i);
            }
            i = i + 1;
        }
        None
    }

    /// The value stored under `name`, if any.
    pub fn get(&self, name: &str) -> (r: Option<&V>)
        ensures
            (match r {
                Some(v) => self@.contains_key(name@) && self@[name@] == v@,
                None => !self@.contains_key(name@),
            }),
    {
        proof {
            use_type_invariant(self);
        }
        match self.find(name) {
            Some(i) => {
                proof {
                    lemma_named_map_values(self.items@, i as int);
                }
                Some(&self.items[i].1)
            },
            None => None,
        }
    }

    /// Whether a value is stored under `name`.
    pub fn contains(&self, name: &str) -> (r: bool)
        ensures
            r == self@.contains_key(name@),
    {
        self.get(name).is_some()
    }

    /// Takes out the value stored under `name`, if any.
    pub fn take(&mut self, name: &str) -> (r: Option<V>)
        ensures
            (match r {
                Some(v) => old(self)@.contains_key(name@) && old(self)@[name@] == v@
                    && final(self)@ == old(self)@.remove(name@),
                None => !old(self)@.contains_key(name@) && final(self)@ == old(self)@,
            }),
    {
        proof {
            use_type_invariant(&*self);
        }
        match self.find(name) {
            Some(i) => {
                proof {
                    lemma_named_map_values(self.items@, i as int);
                    lemma_named_map_remove(self.items@, i as int);
                }
                let mut items: Vec<(String, V)> = Vec::new();
                std::mem::swap(&mut items, &mut self.items);
                let (_, v) = items.remove(i);
                self.items = items;
                Some(v)
            },
            None => None,
        }
    }

    /// Stores `value` under `name`, in place of any value stored there.
    pub fn insert(&mut self, name: String, value: V)
        ensures
            final(self)@ == old(self)@.insert(name@, value@),
    {
        let _ = self.take(name.as_str());
        proof {
            use_type_invariant(&*self);
            lemma_named_map_keys(self.items@);
            assert forall|i: int| 0 <= i < self.items.len() implies #[trigger] self.items@[i].0@
                != name@ by {
                if self.items@[i].0@ == name@ {
                    assert(self@.contains_key(name@));
                }
            }
        }
        let ghost before = self.items@;
        let mut items: Vec<(String, V)> = Vec::new();
        std::mem::swap(&mut items, &mut self.items);
        items.push((name, value));
        assert(items@.drop_last() =~= before);
        self.items = items;
    }

    /// The entries, each name with its value.
    pub fn entries(&self) -> (r: &Vec<(String, V)>)
        ensures
            named_map(r@) == self@,
            distinct_names(r@),
    {
        proof {
            use_type_invariant(self);
        }
        &self.items
    }
}

} // verus!
