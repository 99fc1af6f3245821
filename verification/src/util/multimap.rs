use vstd::prelude::*;
use vstd::string::*;

verus! {

/// The map that the entries `es` give: each key maps to the values of its first entry.
pub open spec fn entries_map(es: Seq<(Seq<char>, Seq<Seq<char>>)>) -> Map<Seq<char>, Seq<Seq<char>>>
    decreases es.len(),
{
    if es.len() == 0 {
        Map::empty()
    } else {
        entries_map(es.drop_first()).insert(es[0].0, es[0].1)
    }
}

/// `m` with `value` appended to the values of `key`.
pub open spec fn multimap_put(
    m: Map<Seq<char>, Seq<Seq<char>>>,
    key: Seq<char>,
    value: Seq<char>,
) -> Map<Seq<char>, Seq<Seq<char>>> {
    m.insert(
        key,
        if m.contains_key(key) {
            m[key].push(value)
        } else {
            seq![value]
        },
    )
}

proof fn lemma_entries_map_update(es: Seq<(Seq<char>, Seq<Seq<char>>)>, j: int, vs: Seq<Seq<char>>)
    requires
        0 <= j < es.len(),
        forall|i: int| 0 <= i < j ==> (#[trigger] es[i]).0 != es[j].0,
    ensures
        entries_map(es.update(j, (es[j].0, vs))) == entries_map(es).insert(es[j].0, vs),
        entries_map(es).contains_key(es[j].0),
        entries_map(es)[es[j].0] == es[j].1,
    decreases j,
{
    let u = es.update(j, (es[j].0, vs));
    if j == 0 {
        assert(u.drop_first() =~= es.drop_first());
        assert(entries_map(u) =~= entries_map(es).insert(es[j].0, vs));
    } else {
        let rest = es.drop_first();
        assert forall|i: int| 0 <= i < j - 1 implies (#[trigger] rest[i]).0 != rest[j - 1].0 by {
            assert(rest[i] == es[i + 1]);
        }
        lemma_entries_map_update(rest, j - 1, vs);
        assert(u.drop_first() =~= rest.update(j - 1, (rest[j - 1].0, vs)));
        assert(es[0].0 != es[j].0);
        assert(entries_map(u) =~= entries_map(es).insert(es[j].0, vs));
    }
}

proof fn lemma_entries_map_push(es: Seq<(Seq<char>, Seq<Seq<char>>)>, k: Seq<char>, vs: Seq<Seq<char>>)
    requires
        forall|i: int| 0 <= i < es.len() ==> (#[trigger] es[i]).0 != k,
    ensures
        entries_map(es.push((k, vs))) == entries_map(es).insert(k, vs),
        !entries_map(es).contains_key(k),
    decreases es.len(),
{
    let p = es.push((k, vs));
    if es.len() == 0 {
        assert(p.drop_first() =~= es);
        assert(entries_map(p) =~= entries_map(es).insert(k, vs));
    } else {
        let rest = es.drop_first();
        assert forall|i: int| 0 <= i < rest.len() implies (#[trigger] rest[i]).0 != k by {
            assert(rest[i] == es[i + 1]);
        }
        lemma_entries_map_push(rest, k, vs);
        assert(p.drop_first() =~= rest.push((k, vs)));
        assert(entries_map(p) =~= entries_map(es).insert(k, vs));
    }
}

/// A map from names to the list of the values given to them, in the order given.
#[derive(Debug)]
pub struct MultiMap {
    entries: Vec<(String, Vec<String>)>,
}

impl MultiMap {
    closed spec fn entry_views(&self) -> Seq<(Seq<char>, Seq<Seq<char>>)> {
        self.entries@.map_values(|e: (String, Vec<String>)| (e.0@, e.1.deep_view()))
    }
}

impl View for MultiMap {
    type V = Map<Seq<char>, Seq<Seq<char>>>;

    closed spec fn view(&self) -> Map<Seq<char>, Seq<Seq<char>>> {
        entries_map(self.entry_views())
    }
}

impl MultiMap {
    /// An empty map.
    pub fn new() -> (r: Self)
        ensures
            r@ == Map::<Seq<char>, Seq<Seq<char>>>::empty(),
    {
        let r = MultiMap { entries: Vec::new() };
        proof {
            assert(r.entry_views() =~= Seq::empty());
        }
        r
    }

    fn find(&self, key: &String) -> (r: Option<usize>)
        ensures
            match r {
                Some(j) => j < self.entries@.len() && self.entry_views()[j as int].0 == key@
                    && forall|i: int| 0 <= i < j ==> (#[trigger] self.entry_views()[i]).0 != key@,
                None => forall|i: int| 0 <= i < self.entries@.len() ==> (#[trigger] self.entry_views()[i]).0 != key@,
            },
    {
        let mut j: usize = 0;
        while j < self.entries.len()
            invariant
                j <= self.entries@.len(),
                forall|i: int| 0 <= i < j ==> (#[trigger] self.entry_views()[i]).0 != key@,
            decreases self.entries@.len() - j,
        {
            if self.entries[j].0 == *key {
                return Some(j);
            }
            j = j + 1;
        }
        None
    }

    /// Appends `value` to the values of `key`.
    pub fn put(&mut self, key: String, value: String)
        ensures
            final(self)@ == multimap_put(old(self)@, key@, value@),
    {
        let ghost es = self.entry_views();
        match self.find(&key) {
            Some(j) => {
                proof {
                    lemma_entries_map_update(es, j as int, es[j as int].1.push(value@));
                }
                let mut entry = self.entries.remove(j);
                let ghost old_values = entry.1.deep_view();
                entry.1.push(value);
                self.entries.insert(j, entry);
                proof {
                    assert(entry.1.deep_view() =~= old_values.push(value@));
                    assert(self.entry_views() =~= es.update(j as int, (es[j as int].0, es[j as int].1.push(value@))));
                }
            },
            None => {
                proof {
                    lemma_entries_map_push(es, key@, seq![value@]);
                }
                let mut values: Vec<String> = Vec::new();
                values.push(value);
                self.entries.push((key, values));
                proof {
                    assert(values.deep_view() =~= seq![value@]);
                    assert(self.entry_views() =~= es.push((key@, seq![value@])));
                }
            },
        }
    }

    /// The values of `key`, in the order given.
    pub fn get(&self, key: &str) -> (r: Option<&Vec<String>>)
        ensures
            match r {
                Some(v) => self@.contains_key(key@) && v.deep_view() == self@[key@],
                None => !self@.contains_key(key@),
            },
    {
        let k = key.to_owned();
        let ghost es = self.entry_views();
        match self.find(&k) {
            Some(j) => {
                proof {
                    lemma_entries_map_update(es, j as int, es[j as int].1);
                }
                Some(&self.entries[j].1)
            },
            None => {
                proof {
                    lemma_entries_map_push(es, k@, Seq::empty());
                }
                None
            },
        }
    }

    /// Whether no name has a value.
    pub fn is_empty(&self) -> (r: bool)
        ensures
            r == (self@ == Map::<Seq<char>, Seq<Seq<char>>>::empty()),
    {
        proof {
            if self.entries@.len() > 0 {
                let es = self.entry_views();
                assert(entries_map(es).contains_key(es[0].0));
                assert(!Map::<Seq<char>, Seq<Seq<char>>>::empty().contains_key(es[0].0));
            } else {
                assert(self.entry_views() =~= Seq::empty());
            }
        }
        self.entries.len() == 0
    }
}

} // verus!
