//! The assets that a run is asked to provide.

use vstd::prelude::*;

use crate::text::chars_of;
use crate::hash_list::{as_map, distinct, find, lemma_find, lemma_lookup_entry, lookup};
use crate::names::{
    comes_before, contains_text, has_text, lemma_precedes_one_way, lemma_precedes_total,
    lemma_precedes_transitive, precedes,
};

verus! {

/// Definition for a test file.
#[derive(Debug)]
pub struct TestAssetDef {
    /// Name of the file on disk. This should be unique for the file.
    pub filename: String,
    /// Sha256 hash of the file's data in hexadecimal lowercase representation.
    pub hash: String,
    /// The url the test file can be obtained from.
    pub url: String,
}

impl Clone for TestAssetDef {
    fn clone(&self) -> (copy: Self)
        ensures
            copy == *self,
    {
        TestAssetDef {
            filename: self.filename.clone(),
            hash: self.hash.clone(),
            url: self.url.clone(),
        }
    }
}

/// Whether the names of `entries` go up from each entry to the next.
pub open spec fn ascending<V>(entries: Seq<(Seq<char>, V)>) -> bool {
    forall|i: int, j: int|
        0 <= i < j < entries.len() ==> precedes((#[trigger] entries[i]).0, (#[trigger] entries[j]).0)
}

/// Names that go up are distinct.
pub proof fn lemma_ascending_distinct<V>(entries: Seq<(Seq<char>, V)>)
    requires
        ascending(entries),
    ensures
        distinct(entries),
{
    assert forall|i: int, j: int| 0 <= i < j < entries.len() implies (#[trigger] entries[i]).0 != (
    #[trigger] entries[j]).0 by {
        lemma_precedes_one_way(entries[i].0, entries[j].0);
    }
}

/// Whether an asset of this name passes the filter: every name passes where
/// there is none, else the names that hold the filter's text.
pub open spec fn passes(name: Seq<char>, filter: Option<Seq<char>>) -> bool {
    match filter {
        Some(pattern) => contains_text(name, pattern),
        None => true,
    }
}

/// The definitions of the entries that pass the filter, in the order of the entries.
pub open spec fn selected(
    entries: Seq<(Seq<char>, TestAssetDef)>,
    filter: Option<Seq<char>>,
) -> Seq<TestAssetDef>
    decreases entries.len(),
{
    if entries.len() == 0 {
        Seq::empty()
    } else if passes(entries.last().0, filter) {
        selected(entries.drop_last(), filter).push(entries.last().1)
    } else {
        selected(entries.drop_last(), filter)
    }
}

/// Without a filter every definition is selected.
pub proof fn lemma_selected_all(entries: Seq<(Seq<char>, TestAssetDef)>)
    ensures
        selected(entries, None) == Seq::new(entries.len(), |i: int| entries[i].1),
    decreases entries.len(),
{
    if entries.len() > 0 {
        let front = entries.drop_last();
        lemma_selected_all(front);
        assert(selected(front, None).push(entries.last().1) =~= Seq::new(
            entries.len(),
            |i: int| entries[i].1,
        ));
    } else {
        assert(selected(entries, None) =~= Seq::new(entries.len(), |i: int| entries[i].1));
    }
}

/// The assets of a manifest by their names. No name occurs twice, and the
/// assets stand in the order of their names.
#[derive(Debug)]
pub struct TestAsset {
    assets: Vec<(String, TestAssetDef)>,
}

impl View for TestAsset {
    type V = Map<Seq<char>, TestAssetDef>;

    /// The mapping from name to definition.
    open spec fn view(&self) -> Map<Seq<char>, TestAssetDef> {
        as_map(self.entries())
    }
}

impl TestAsset {
    /// The names with their definitions, in order.
    pub closed spec fn entries(&self) -> Seq<(Seq<char>, TestAssetDef)> {
        Seq::new(self.assets@.len(), |i: int| (self.assets@[i].0@, self.assets@[i].1))
    }

    #[verifier::type_invariant]
    pub open spec fn wf(&self) -> bool {
        ascending(self.entries())
    }

    /// No assets.
    pub fn new() -> (none: Self)
        ensures
            none.entries() == Seq::<(Seq<char>, TestAssetDef)>::empty(),
            none@ == Map::<Seq<char>, TestAssetDef>::empty(),
    {
        let none = TestAsset { assets: Vec::new() };
        assert(none.entries() =~= Seq::empty());
        assert(none@ =~= Map::empty());
        none
    }

    /// Puts `def` under `name`, in the place of what the name had.
    pub fn insert(&mut self, name: String, def: TestAssetDef)
        ensures
            final(self)@ == old(self)@.insert(name@, def),
            ascending(final(self).entries()),
    {
        proof {
            use_type_invariant(&*self);
        }
        let ghost before = self.entries();
        let wanted = chars_of(name.as_str());
        let count: usize = self.assets.len();
        let mut at: usize = 0;
        while at < count
            invariant
                at <= count == self.assets@.len(),
                before == self.entries(),
                wanted@ == name@,
                forall|i: int| 0 <= i < at ==> precedes((#[trigger] before[i]).0, name@),
            ensures
                at <= count,
                forall|i: int| 0 <= i < at ==> precedes((#[trigger] before[i]).0, name@),
                at < count ==> !precedes(before[at as int].0, name@),
            decreases count - at,
        {
            let here = chars_of(self.assets[at].0.as_str());
            if !comes_before(&here, &wanted) {
                break ;
            }
            at += 1;
        }
        let replace = at < count && self.assets[at].0 == name;
        let mut taken = TestAsset::new();
        std::mem::swap(self, &mut taken);
        let mut assets = taken.assets;
        let ghost entry = (name@, def);
        if replace {
            assets.set(at, (name, def));
        } else {
            assets.insert(at, (name, def));
        }
        proof {
            let after = Seq::new(assets@.len(), |i: int| (assets@[i].0@, assets@[i].1));
            let shift = if replace {
                1int
            } else {
                0int
            };
            assert(after.len() == before.len() + 1 - shift);
            assert(after[at as int] == entry);
            assert forall|i: int| 0 <= i < at implies after[i] == before[i] by {}
            assert forall|i: int| at < i < after.len() implies after[i] == before[i - 1 + shift] by {}
            if at < count && !replace {
                lemma_precedes_total(before[at as int].0, name@);
            }
            assert forall|i: int, j: int| 0 <= i < j < after.len() implies precedes(
                (#[trigger] after[i]).0,
                (#[trigger] after[j]).0,
            ) by {
                if i < at && j > at {
                    assert(precedes(before[i].0, before[j - 1 + shift].0));
                } else if i == at {
                    if replace {
                        assert(precedes(before[at as int].0, before[j].0));
                    } else if j - 1 > at {
                        assert(precedes(before[at as int].0, before[j - 1].0));
                        lemma_precedes_transitive(name@, before[at as int].0, before[j - 1].0);
                    }
                } else if j == at {
                } else if i < at {
                    assert(precedes(before[i].0, before[j].0));
                } else {
                    assert(precedes(before[i - 1 + shift].0, before[j - 1 + shift].0));
                }
            }
            lemma_ascending_distinct(before);
            lemma_ascending_distinct(after);
            assert forall|other: Seq<char>| #[trigger]
                lookup(after, other) == (if other == name@ {
                    Some(def)
                } else {
                    lookup(before, other)
                }) by {
                lemma_find(before, other);
                lemma_find(after, other);
                if other == name@ {
                    lemma_lookup_entry(after, at as int);
                } else {
                    match find(before, other) {
                        Some(i) => {
                            let moved = if i < at {
                                i
                            } else {
                                i + 1 - shift
                            };
                            assert(after[moved] == before[i]);
                            lemma_lookup_entry(after, moved);
                        },
                        None => {
                            if let Some(k) = find(after, other) {
                                if k < at {
                                    assert(before[k].0 == other);
                                } else {
                                    assert(before[k - 1 + shift].0 == other);
                                }
                            }
                        },
                    }
                }
            }
            assert(as_map(after) =~= as_map(before).insert(name@, def));
        }
        *self = TestAsset { assets };
    }

    /// The names of the assets, in order.
    pub fn names(&self) -> (names: Vec<String>)
        ensures
            names@.len() == self.entries().len(),
            forall|i: int| 0 <= i < names@.len() ==> (#[trigger] names@[i])@ == self.entries()[i].0,
            ascending(self.entries()),
    {
        proof {
            use_type_invariant(self);
        }
        let mut names: Vec<String> = Vec::new();
        let mut i: usize = 0;
        while i < self.assets.len()
            invariant
                i <= self.assets@.len(),
                names@.len() == i,
                forall|k: int| 0 <= k < i ==> (#[trigger] names@[k])@ == self.entries()[k].0,
            decreases self.assets@.len() - i,
        {
            names.push(self.assets[i].0.clone());
            i += 1;
        }
        names
    }

    /// The definitions of the assets, in the order of their names.
    pub fn values(&self) -> (defs: Vec<TestAssetDef>)
        ensures
            defs@ == selected(self.entries(), None),
            defs@ == Seq::new(self.entries().len(), |i: int| self.entries()[i].1),
            ascending(self.entries()),
    {
        proof {
            use_type_invariant(self);
            lemma_selected_all(self.entries());
        }
        self.select(None)
    }

    /// The definitions of the assets whose names pass the filter: the names
    /// that hold the filter's text, or all where there is no filter.
    pub fn select(&self, filter: Option<&str>) -> (defs: Vec<TestAssetDef>)
        ensures
            defs@ == selected(
                self.entries(),
                match filter {
                    Some(pattern) => Some(pattern@),
                    None => None,
                },
            ),
    {
        let ghost wanted = match filter {
            Some(pattern) => Some(pattern@),
            None => None,
        };
        let pattern: Option<Vec<char>> = match filter {
            Some(pattern) => Some(chars_of(pattern)),
            None => None,
        };
        let mut defs: Vec<TestAssetDef> = Vec::new();
        let mut i: usize = 0;
        assert(self.entries().take(0) =~= Seq::empty());
        while i < self.assets.len()
            invariant
                i <= self.assets@.len(),
                match pattern {
                    Some(text) => wanted == Some(text@),
                    None => wanted is None,
                },
                defs@ == selected(self.entries().take(i as int), wanted),
            decreases self.assets@.len() - i,
        {
            let ghost longer = self.entries().take(i + 1);
            proof {
                assert(longer.drop_last() =~= self.entries().take(i as int));
                assert(longer.last() == self.entries()[i as int]);
            }
            let keep = match &pattern {
                Some(text) => {
                    let name = chars_of(self.assets[i].0.as_str());
                    has_text(&name, text)
                },
                None => true,
            };
            if keep {
                defs.push(self.assets[i].1.clone());
            }
            i += 1;
        }
        assert(self.entries().take(i as int) =~= self.entries());
        defs
    }
}

} // verus!
