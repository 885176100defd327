//! The result mapping: an insertion-ordered association from section name
//! to section body, with unique keys, viewed as a `Map<Seq<char>, Seq<char>>`.

use vstd::prelude::*;
use crate::text;

verus! {

broadcast use vstd::set::group_set_axioms, vstd::map::group_map_axioms;

/// The mapping a sequence of (name, body) entries denotes: each entry
/// inserted from left to right, a later entry overwriting an earlier one
/// of the same name.
pub open spec fn entries_map(e: Seq<(String, String)>) -> Map<Seq<char>, Seq<char>>
    decreases e.len(),
{
    if e.len() == 0 {
        Map::empty()
    } else {
        entries_map(e.drop_last()).insert(e.last().0@, e.last().1@)
    }
}

/// Entry names are pairwise distinct.
pub open spec fn keys_unique(e: Seq<(String, String)>) -> bool {
    forall|p: int, q: int| 0 <= p < q < e.len() ==> e[p].0@ != e[q].0@
}

/// Some entry bears the name `k`.
pub open spec fn has_key(e: Seq<(String, String)>, k: Seq<char>) -> bool {
    exists|i: int| 0 <= i < e.len() && e[i].0@ == k
}

/// The denoted mapping contains exactly the names the entries bear.
proof fn lemma_entries_map_dom(e: Seq<(String, String)>)
    ensures
        forall|k: Seq<char>| #[trigger] entries_map(e).contains_key(k) <==> has_key(e, k),
    decreases e.len(),
{
    if e.len() > 0 {
        let dl = e.drop_last();
        lemma_entries_map_dom(dl);
        assert(entries_map(e) == entries_map(dl).insert(e.last().0@, e.last().1@));
        assert forall|k: Seq<char>| #[trigger] entries_map(e).contains_key(k) implies has_key(
            e,
            k,
        ) by {
            if k == e.last().0@ {
                assert(e[e.len() - 1].0@ == k);
            } else {
                assert(entries_map(dl).contains_key(k));
                let i = choose|i: int| 0 <= i < dl.len() && dl[i].0@ == k;
                assert(e[i].0@ == k);
            }
        }
        assert forall|k: Seq<char>| has_key(e, k) implies #[trigger] entries_map(e).contains_key(
            k,
        ) by {
            let i = choose|i: int| 0 <= i < e.len() && e[i].0@ == k;
            if i < e.len() - 1 {
                assert(dl[i].0@ == k);
                assert(has_key(dl, k));
            }
        }
    }
}

/// The denoted mapping sends the name of an entry that no later entry
/// shadows to that entry's body.
proof fn lemma_entries_map_at(e: Seq<(String, String)>, i: int)
    requires
        0 <= i < e.len(),
        forall|j: int| i < j < e.len() ==> e[j].0@ != e[i].0@,
    ensures
        entries_map(e).contains_key(e[i].0@),
        entries_map(e)[e[i].0@] == e[i].1@,
    decreases e.len(),
{
    let dl = e.drop_last();
    if i < e.len() - 1 {
        assert(e.last().0@ != e[i].0@);
        assert(dl[i] == e[i]);
        lemma_entries_map_at(dl, i);
    }
}

/// With pairwise-distinct names, the denoted mapping has exactly one
/// element per entry.
proof fn lemma_entries_map_len(e: Seq<(String, String)>)
    requires
        keys_unique(e),
    ensures
        entries_map(e).dom().finite(),
        entries_map(e).dom().len() == e.len(),
    decreases e.len(),
{
    if e.len() == 0 {
        assert(entries_map(e).dom() =~= Set::<Seq<char>>::empty());
    } else {
        let dl = e.drop_last();
        lemma_entries_map_len(dl);
        lemma_entries_map_dom(dl);
        assert(!has_key(dl, e.last().0@));
        assert(entries_map(e).dom() =~= entries_map(dl).dom().insert(e.last().0@));
    }
}

/// Removing the one entry that bears a name removes exactly that name
/// from the denoted mapping.
proof fn lemma_entries_map_remove(e: Seq<(String, String)>, i: int)
    requires
        keys_unique(e),
        0 <= i < e.len(),
    ensures
        entries_map(e.remove(i)) == entries_map(e).remove(e[i].0@),
    decreases e.len(),
{
    let k = e[i].0@;
    let dl = e.drop_last();
    if i == e.len() - 1 {
        assert(e.remove(i) =~= dl);
        lemma_entries_map_dom(dl);
        assert(!has_key(dl, k));
        assert(entries_map(dl).insert(k, e.last().1@).remove(k) =~= entries_map(dl));
    } else {
        assert(e.last().0@ != k);
        assert(e.remove(i).drop_last() =~= dl.remove(i));
        assert(e.remove(i).last() == e.last());
        assert(entries_map(e.remove(i)) == entries_map(dl.remove(i)).insert(
            e.last().0@,
            e.last().1@,
        ));
        lemma_entries_map_remove(dl, i);
        assert(entries_map(dl).remove(k).insert(e.last().0@, e.last().1@) =~= entries_map(
            dl,
        ).insert(e.last().0@, e.last().1@).remove(k));
    }
}

/// An insertion-ordered mapping from section name to section body.
/// Its view is the finite map the entries denote.
#[derive(Debug)]
pub struct SectionMap {
    entries: Vec<(String, String)>,
}

impl View for SectionMap {
    type V = Map<Seq<char>, Seq<char>>;

    closed spec fn view(&self) -> Map<Seq<char>, Seq<char>> {
        entries_map(self.entries@)
    }
}

impl SectionMap {
    /// Well-formedness: every name is borne by at most one entry.
    /// Constructors establish it and every method preserves it.
    pub closed spec fn wf(self) -> bool {
        keys_unique(self.entries@)
    }

    /// The empty mapping.
    pub fn new() -> (r: SectionMap)
        ensures
            r@ == Map::<Seq<char>, Seq<char>>::empty(),
            r.wf(),
    {
        SectionMap { entries: Vec::new() }
    }

    /// The position of the entry named `name`, if one exists.
    fn find_key(entries: &Vec<(String, String)>, name: &str) -> (r: Option<usize>)
        ensures
            match r {
                Some(i) => i < entries@.len() && entries@[i as int].0@ == name@,
                None => forall|j: int| 0 <= j < entries@.len() ==> entries@[j].0@ != name@,
            },
    {
        let mut i: usize = 0;
        let n = entries.len();
        while i < n
            invariant
                0 <= i <= n,
                n == entries@.len(),
                forall|j: int| 0 <= j < i ==> entries@[j].0@ != name@,
            decreases n - i,
        {
            let e = &entries[i];
            if text::str_eq(e.0.as_str(), name) {
                return Some(i);
            }
            i = i + 1;
        }
        None
    }

    /// Binds `name` to `text`, overwriting any body previously bound to
    /// that name.
    pub fn insert(&mut self, name: String, text: String)
        requires
            old(self).wf(),
        ensures
            final(self)@ == old(self)@.insert(name@, text@),
            final(self).wf(),
    {
        let ghost e0 = self.entries@;
        match Self::find_key(&self.entries, name.as_str()) {
            Some(i) => {
                proof {
                    lemma_entries_map_remove(e0, i as int);
                }
                self.entries.remove(i);
                let ghost e1 = self.entries@;
                self.entries.push((name, text));
                proof {
                    assert forall|j: int| 0 <= j < e1.len() implies e1[j].0@ != e0[i as int].0@ by {
                        if j < i {
                            assert(e1[j] == e0[j]);
                        } else {
                            assert(e1[j] == e0[j + 1]);
                        }
                    }
                    assert(keys_unique(self.entries@));
                    assert(self.entries@.drop_last() =~= e1);
                    assert(entries_map(e0).remove(e0[i as int].0@).insert(name@, text@)
                        =~= entries_map(e0).insert(name@, text@));
                }
            },
            None => {
                self.entries.push((name, text));
                proof {
                    assert(keys_unique(self.entries@));
                    assert(self.entries@.drop_last() =~= e0);
                }
            },
        }
    }

    /// The body bound to `name`, or `None` when the mapping has no
    /// section of that name.
    pub fn get<'a>(&'a self, name: &str) -> (r: Option<&'a String>)
        requires
            self.wf(),
        ensures
            match r {
                Some(t) => self@.contains_key(name@) && t@ == self@[name@],
                None => !self@.contains_key(name@),
            },
    {
        match Self::find_key(&self.entries, name) {
            Some(i) => {
                proof {
                    lemma_entries_map_at(self.entries@, i as int);
                }
                Some(&self.entries[i].1)
            },
            None => {
                proof {
                    lemma_entries_map_dom(self.entries@);
                }
                None
            },
        }
    }

    /// Whether the mapping has a section named `name`.
    pub fn contains_key(&self, name: &str) -> (r: bool)
        requires
            self.wf(),
        ensures
            r == self@.contains_key(name@),
    {
        self.get(name).is_some()
    }

    /// The number of sections held.
    pub fn len(&self) -> (r: usize)
        requires
            self.wf(),
        ensures
            r == self@.dom().len(),
    {
        proof {
            lemma_entries_map_len(self.entries@);
        }
        self.entries.len()
    }
}

} // verus!
