//! A database: the packages of one repository, or the installed ones, each
//! under its name.

use crate::db::package::{lemma_package_stays, Package};
use crate::db::pool::{extends, Istr};
use std::collections::HashMap;
use vstd::prelude::*;
use vstd::std_specs::hash::group_hash_axioms;

verus! {

/// No two packages of `entries` have the same name.
pub open spec fn names_distinct(entries: Seq<Package>) -> bool {
    forall|a: int, b: int|
        0 <= a < entries.len() && 0 <= b < entries.len() && (#[trigger] entries[a]).name
            == (#[trigger] entries[b]).name ==> a == b
}

/// The position of the package named `name` in `entries`, if there is one.
pub open spec fn position_of(entries: Seq<Package>, name: Istr) -> Option<int>
    decreases entries.len(),
{
    if entries.len() == 0 {
        None
    } else if entries.last().name == name {
        Some(entries.len() - 1)
    } else {
        position_of(entries.drop_last(), name)
    }
}

/// What `position_of` returns, without the recursion.
pub proof fn lemma_position_of(entries: Seq<Package>, name: Istr)
    ensures
        match position_of(entries, name) {
            Some(p) => 0 <= p < entries.len() && entries[p].name == name,
            None => forall|k: int| 0 <= k < entries.len() ==> (#[trigger] entries[k]).name != name,
        },
    decreases entries.len(),
{
    if entries.len() > 0 && entries.last().name != name {
        lemma_position_of(entries.drop_last(), name);
        assert forall|k: int| 0 <= k < entries.len() - 1 implies entries.drop_last()[k]
            == entries[k] by {}
        if position_of(entries.drop_last(), name) is None {
            assert forall|k: int| 0 <= k < entries.len() implies (#[trigger] entries[k]).name
                != name by {
                if k < entries.len() - 1 {
                    assert(entries.drop_last()[k].name != name);
                }
            }
        }
    }
}

/// The packages of a database, in the order in which their names came in.
/// Its view is that list; no two packages in it have the same name. An index
/// finds the position of a name in one step.
#[derive(Debug)]
pub struct Database {
    entries: Vec<Package>,
    index: HashMap<u32, usize>,
}

impl View for Database {
    type V = Seq<Package>;

    closed spec fn view(&self) -> Seq<Package> {
        self.entries@
    }
}

/// The index `index` holds, for every package of `entries`, the position
/// under the handle of its name, and holds nothing else.
spec fn indexed(entries: Seq<Package>, index: Map<u32, usize>) -> bool {
    &&& forall|k: int|
        0 <= k < entries.len() ==> index.contains_key((#[trigger] entries[k]).name.id)
            && index[entries[k].name.id] == k
    &&& forall|id: u32| #[trigger]
        index.contains_key(id) ==> index[id] < entries.len() && entries[index[id] as int].name.id
            == id
}

/// The names of an indexed list differ, and the index knows the position of
/// each.
proof fn lemma_indexed(entries: Seq<Package>, index: Map<u32, usize>, name: Istr)
    requires
        indexed(entries, index),
    ensures
        names_distinct(entries),
        position_of(entries, name) == if index.contains_key(name.id) {
            Some(index[name.id] as int)
        } else {
            None
        },
{
    lemma_position_of(entries, name);
    assert forall|a: int, b: int|
        0 <= a < entries.len() && 0 <= b < entries.len() && (#[trigger] entries[a]).name == (
        #[trigger] entries[b]).name implies a == b by {
        assert(index[entries[a].name.id] == a);
        assert(index[entries[b].name.id] == b);
    }
    if index.contains_key(name.id) {
        let k = index[name.id] as int;
        assert(entries[k].name == name);
        let p = position_of(entries, name).unwrap();
        assert(index[entries[p].name.id] == p);
    } else {
        if let Some(p) = position_of(entries, name) {
            assert(index.contains_key(entries[p].name.id));
        }
    }
}

impl Database {
    #[verifier::type_invariant]
    spec fn inv(&self) -> bool {
        indexed(self.entries@, self.index@)
    }

    /// Every package is well-formed in `pool`.
    pub open spec fn wf(&self, pool: Seq<Seq<char>>) -> bool {
        forall|k: int| 0 <= k < self@.len() ==> (#[trigger] self@[k]).wf(pool)
    }

    /// A database without packages.
    pub fn new() -> (db: Database)
        ensures
            db@.len() == 0,
    {
        broadcast use group_hash_axioms;

        Database { entries: Vec::new(), index: HashMap::new() }
    }

    /// The number of packages, whose names differ from one another.
    pub fn len(&self) -> (n: usize)
        ensures
            n == self@.len(),
            names_distinct(self@),
    {
        proof {
            use_type_invariant(self);
            lemma_indexed(self.entries@, self.index@, Istr { id: 0 });
        }
        self.entries.len()
    }

    /// The package at position `k`.
    pub fn at(&self, k: usize) -> (p: &Package)
        requires
            k < self@.len(),
        ensures
            *p == self@[k as int],
    {
        &self.entries[k]
    }

    /// The position of the package named `name`.
    pub fn position(&self, name: Istr) -> (r: Option<usize>)
        ensures
            match r {
                Some(p) => position_of(self@, name) == Some(p as int) && p < self@.len(),
                None => position_of(self@, name) is None,
            },
    {
        broadcast use group_hash_axioms;

        proof {
            use_type_invariant(self);
            lemma_indexed(self.entries@, self.index@, name);
        }
        match self.index.get(&name.id) {
            Some(k) => Some(*k),
            None => None,
        }
    }

    /// The package named `name`.
    pub fn get(&self, name: Istr) -> (r: Option<&Package>)
        ensures
            match r {
                Some(p) => position_of(self@, name) is Some && *p == self@[position_of(
                    self@,
                    name,
                ).unwrap()] && p.name == name,
                None => position_of(self@, name) is None,
            },
    {
        proof {
            lemma_position_of(self@, name);
        }
        match self.position(name) {
            Some(k) => Some(&self.entries[k]),
            None => None,
        }
    }

    /// Puts `pkg` under its name. A package of that name that the database
    /// holds already gives way to `pkg` and leaves its position to it; a
    /// package with a new name goes to the end.
    pub fn insert(&mut self, pkg: Package)
        ensures
            match position_of(old(self)@, pkg.name) {
                Some(p) => final(self)@ == old(self)@.update(p, pkg),
                None => final(self)@ == old(self)@.push(pkg),
            },
    {
        broadcast use group_hash_axioms;

        proof {
            use_type_invariant(&*self);
            lemma_indexed(self.entries@, self.index@, pkg.name);
        }
        let found = self.position(pkg.name);
        let mut held = Database::new();
        std::mem::swap(self, &mut held);
        let Database { mut entries, mut index } = held;
        let id = pkg.name.id;
        match found {
            Some(k) => {
                entries[k] = pkg;
            },
            None => {
                index.insert(id, entries.len());
                entries.push(pkg);
            },
        }
        *self = Database { entries, index };
    }
}

/// A database keeps being well-formed when the pool grows.
pub proof fn lemma_database_stays(db: Database, later: Seq<Seq<char>>, earlier: Seq<Seq<char>>)
    requires
        extends(later, earlier),
        db.wf(earlier),
    ensures
        db.wf(later),
{
    assert forall|k: int| 0 <= k < db@.len() implies (#[trigger] db@[k]).wf(later) by {
        lemma_package_stays(db@[k], later, earlier);
    }
}

} // verus!
