//! The label table: a finite map from label names to line indices.

use vstd::prelude::*;

verus! {

/// The label table of a program: label names, each with the index of the
/// line that carries it. A name is bound to one line at a time.
#[derive(Debug)]
pub struct LabelTable {
    entries: Vec<(String, usize)>,
}

/// Whether the `i`-th entry binds `name`.
pub open spec fn named_at(entries: Seq<(String, usize)>, i: int, name: Seq<char>) -> bool {
    0 <= i < entries.len() && entries[i].0@ == name
}

/// Whether the `i`-th entry is the first that binds `name`.
pub open spec fn first_named_at(entries: Seq<(String, usize)>, i: int, name: Seq<char>) -> bool {
    named_at(entries, i, name) && forall|j: int| 0 <= j < i ==> !named_at(entries, j, name)
}

/// The position of the first entry that binds `name`, where there is one.
pub open spec fn position_of(entries: Seq<(String, usize)>, name: Seq<char>) -> int {
    choose|i: int| first_named_at(entries, i, name)
}

/// Whether no two entries bind the same name.
pub open spec fn distinct_names(entries: Seq<(String, usize)>) -> bool {
    forall|i: int, j: int| 0 <= i < j < entries.len() ==> entries[i].0@ != entries[j].0@
}

/// The first entry that binds a name is the only first one.
proof fn lemma_first_is_unique(entries: Seq<(String, usize)>, i: int, name: Seq<char>)
    requires
        first_named_at(entries, i, name),
    ensures
        position_of(entries, name) == i,
{
    let p = position_of(entries, name);
    assert(first_named_at(entries, p, name));
    if p < i {
        assert(!named_at(entries, p, name));
    } else if i < p {
        assert(!named_at(entries, i, name));
    }
}

impl View for LabelTable {
    type V = Map<Seq<char>, usize>;

    closed spec fn view(&self) -> Map<Seq<char>, usize> {
        Map::new(
            |name: Seq<char>| exists|i: int| first_named_at(self.entries@, i, name),
            |name: Seq<char>| self.entries@[position_of(self.entries@, name)].1,
        )
    }
}

impl LabelTable {
    /// Whether every name is bound once. A table that was made by `new` and
    /// filled by `insert` is so.
    pub closed spec fn wf(&self) -> bool {
        distinct_names(self.entries@)
    }

    /// An empty table.
    pub fn new() -> (table: LabelTable)
        ensures
            table.wf(),
            table@ == Map::<Seq<char>, usize>::empty(),
    {
        let table = LabelTable { entries: Vec::new() };
        assert(table@ =~= Map::<Seq<char>, usize>::empty());
        table
    }

    /// Where the first entry for `name` stands, if there is one.
    fn find(&self, name: &String) -> (r: Option<usize>)
        ensures
            match r {
                Some(i) => first_named_at(self.entries@, i as int, name@) && self@.contains_key(
                    name@,
                ) && self@[name@] == self.entries@[i as int].1,
                None => !self@.contains_key(name@) && forall|i: int|
                    !named_at(self.entries@, i, name@),
            },
    {
        let mut i: usize = 0;
        while i < self.entries.len()
            invariant
                i <= self.entries.len(),
                forall|k: int| 0 <= k < i ==> !named_at(self.entries@, k, name@),
            decreases self.entries.len() - i,
        {
            if self.entries[i].0 == *name {
                proof {
                    assert(first_named_at(self.entries@, i as int, name@));
                    lemma_first_is_unique(self.entries@, i as int, name@);
                }
                return Some(i);
            }
            i += 1;
        }
        None
    }

    /// The line that `name` labels, if the table holds it.
    pub fn get(&self, name: &String) -> (r: Option<usize>)
        ensures
            r == (if self@.contains_key(name@) {
                Some(self@[name@])
            } else {
                None::<usize>
            }),
    {
        match self.find(name) {
            Some(i) => Some(self.entries[i].1),
            None => None,
        }
    }

    /// Whether the table holds `name`.
    pub fn contains_key(&self, name: &String) -> (r: bool)
        ensures
            r == self@.contains_key(name@),
    {
        self.find(name).is_some()
    }

    /// Binds `name` to `line`, and returns the line it was bound to before.
    pub fn insert(&mut self, name: String, line: usize) -> (r: Option<usize>)
        ensures
            final(self)@ == old(self)@.insert(name@, line),
            r == (if old(self)@.contains_key(name@) {
                Some(old(self)@[name@])
            } else {
                None::<usize>
            }),
            old(self).wf() ==> final(self).wf(),
    {
        let ghost before = self@;
        let ghost old_entries = self.entries@;
        let found = self.find(&name);
        let ghost key = name@;
        let r = match found {
            Some(i) => {
                let was = self.entries[i].1;
                self.entries.set(i, (name, line));
                Some(was)
            },
            None => {
                self.entries.push((name, line));
                None
            },
        };
        proof {
            let new_entries = self.entries@;
            let at: int = match found {
                Some(i) => i as int,
                None => old_entries.len() as int,
            };
            assert(new_entries[at].0@ == key && new_entries[at].1 == line);
            assert forall|i: int, k: Seq<char>| i != at implies (named_at(new_entries, i, k)
                <==> named_at(old_entries, i, k)) by {}
            assert(first_named_at(new_entries, at, key));
            lemma_first_is_unique(new_entries, at, key);
            let after = self@;
            let want = before.insert(key, line);
            assert(after.dom().contains(key) && after[key] == line);
            assert forall|k: Seq<char>| after.dom().contains(k) <==> want.dom().contains(k) by {
                if k != key {
                    if before.dom().contains(k) {
                        let p = position_of(old_entries, k);
                        assert(first_named_at(old_entries, p, k));
                        assert(p != at);
                        assert(first_named_at(new_entries, p, k));
                    }
                    if after.dom().contains(k) {
                        let p = choose|i: int| first_named_at(new_entries, i, k);
                        assert(p != at);
                        assert(first_named_at(old_entries, p, k));
                    }
                }
            }
            assert forall|k: Seq<char>| after.dom().contains(k) implies after[k] == want[k] by {
                if k != key {
                    let p = position_of(old_entries, k);
                    assert(first_named_at(old_entries, p, k));
                    assert(p != at);
                    assert(first_named_at(new_entries, p, k));
                    lemma_first_is_unique(new_entries, p, k);
                }
            }
            assert(self@ =~= before.insert(key, line));
            if distinct_names(old_entries) {
                assert forall|i: int, j: int| 0 <= i < j < new_entries.len() implies new_entries[i].0@
                    != new_entries[j].0@ by {
                    if i != at && j != at {
                        assert(old_entries[i].0@ != old_entries[j].0@);
                    } else if found is Some {
                        assert(old_entries[at].0@ == key);
                        assert(old_entries[i].0@ != old_entries[j].0@);
                    } else {
                        assert(!named_at(old_entries, i, key));
                    }
                }
            }
        }
        r
    }

    /// How many names the table holds.
    pub fn len(&self) -> (n: usize)
        requires
            self.wf(),
        ensures
            n == self@.len(),
            self@.dom().finite(),
    {
        proof {
            self.lemma_len();
        }
        self.entries.len()
    }

    proof fn lemma_len(self)
        requires
            self.wf(),
        ensures
            self@.dom().finite(),
            self@.len() == self.entries.len(),
    {
        Self::lemma_prefix(self.entries@, self.entries.len() as int);
        assert forall|k: Seq<char>| self@.dom().contains(k) <==> Self::prefix_names(
            self.entries@,
            self.entries.len() as int,
        ).contains(k) by {
            if exists|i: int| named_at(self.entries@, i, k) {
                Self::lemma_has_first(
                    self.entries@,
                    choose|i: int| named_at(self.entries@, i, k),
                    k,
                );
            }
        }
        assert(self@.dom() =~= Self::prefix_names(self.entries@, self.entries.len() as int));
    }

    /// A name that some entry binds has a first entry that binds it.
    proof fn lemma_has_first(entries: Seq<(String, usize)>, i: int, name: Seq<char>)
        requires
            named_at(entries, i, name),
        ensures
            exists|p: int| first_named_at(entries, p, name),
        decreases i,
    {
        if exists|j: int| 0 <= j < i && named_at(entries, j, name) {
            let j = choose|j: int| 0 <= j < i && named_at(entries, j, name);
            Self::lemma_has_first(entries, j, name);
        } else {
            assert(first_named_at(entries, i, name));
        }
    }

    spec fn prefix_names(entries: Seq<(String, usize)>, n: int) -> Set<Seq<char>> {
        Set::new(|k: Seq<char>| exists|i: int| named_at(entries, i, k) && i < n)
    }

    proof fn lemma_prefix(entries: Seq<(String, usize)>, n: int)
        requires
            distinct_names(entries),
            0 <= n <= entries.len(),
        ensures
            Self::prefix_names(entries, n).finite(),
            Self::prefix_names(entries, n).len() == n,
        decreases n,
    {
        if n == 0 {
            assert(Self::prefix_names(entries, n) =~= Set::<Seq<char>>::empty());
        } else {
            Self::lemma_prefix(entries, n - 1);
            let last = entries[n - 1].0@;
            assert(named_at(entries, n - 1, last));
            assert(Self::prefix_names(entries, n) =~= Self::prefix_names(entries, n - 1).insert(
                last,
            ));
            assert(!Self::prefix_names(entries, n - 1).contains(last));
        }
    }
}

} // verus!
