//! The name table: each identifier of a package stored once, referenced by position.
use vstd::prelude::*;

use crate::error::Error;
use crate::types::FName;

verus! {

/// Whether `s` occurs in `names`.
pub open spec fn contains_name(names: Seq<Seq<char>>, s: Seq<char>) -> bool {
    exists|i: int| 0 <= i < names.len() && names[i] == s
}

/// No string occurs twice.
pub open spec fn no_duplicates(names: Seq<Seq<char>>) -> bool {
    forall|i: int, j: int|
        0 <= i < names.len() && 0 <= j < names.len() && i != j ==> names[i] != names[j]
}

/// The table and position that interning `s` into `names` gives: the position `s`
/// already holds, or else a new last entry.
pub open spec fn spec_intern(names: Seq<Seq<char>>, s: Seq<char>) -> (Seq<Seq<char>>, int) {
    if contains_name(names, s) {
        (names, choose|i: int| 0 <= i < names.len() && names[i] == s)
    } else {
        (names.push(s), names.len() as int)
    }
}

/// A deduplicated string pool whose order is significant.
pub struct NameMap {
    names: Vec<String>,
}

impl View for NameMap {
    type V = Seq<Seq<char>>;

    closed spec fn view(&self) -> Seq<Seq<char>> {
        self.names@.map_values(|s: String| s@)
    }
}

impl NameMap {
    pub open spec fn wf(&self) -> bool {
        no_duplicates(self@)
    }

    /// An empty table.
    pub fn new() -> (r: NameMap)
        ensures
            r.wf(),
            r@ == Seq::<Seq<char>>::empty(),
    {
        let r = NameMap { names: Vec::new() };
        assert(r@ =~= Seq::<Seq<char>>::empty());
        r
    }

    pub fn len(&self) -> (r: usize)
        ensures
            r == self@.len(),
    {
        self.names.len()
    }

    /// The position of `s` in the table, if it is there.
    pub fn find(&self, s: &String) -> (r: Option<usize>)
        requires
            self.wf(),
        ensures
            r is None <==> !contains_name(self@, s@),
            r matches Some(i) ==> i < self@.len() && self@[i as int] == s@,
    {
        let mut i: usize = 0;
        while i < self.names.len()
            invariant
                i <= self.names@.len(),
                forall|j: int| 0 <= j < i ==> self@[j] != s@,
            decreases self.names@.len() - i,
        {
            if self.names[i] == *s {
                assert(self@[i as int] == s@);
                return Some(i);
            }
            i = i + 1;
        }
        None
    }

    /// The position of `s`, appending it first if it is not in the table yet.
    /// Matching is exact and case-sensitive.
    pub fn intern(&mut self, s: String) -> (r: usize)
        requires
            old(self).wf(),
        ensures
            final(self).wf(),
            (final(self)@, r as int) == spec_intern(old(self)@, s@),
    {
        match self.find(&s) {
            Some(i) => {
                assert(self@[i as int] == s@);
                i
            },
            None => {
                let r = self.names.len();
                let ghost before = self@;
                self.names.push(s);
                assert(self@ =~= before.push(s@));
                r
            },
        }
    }

    /// Whether `name` points at an entry of the table.
    pub open spec fn valid_name(&self, name: FName) -> bool {
        0 <= name.index < self@.len()
    }

    /// The string that `name` points at, or an error where it points outside the table.
    pub fn resolve(&self, name: FName) -> (r: Result<String, Error>)
        ensures
            self.valid_name(name) ==> r is Ok && r->Ok_0@ == self@[name.index as int],
            !self.valid_name(name) ==> r == Err::<String, Error>(Error::InvalidNameIndex),
    {
        if name.index >= 0 && (name.index as usize) < self.names.len() {
            Ok(self.names[name.index as usize].clone())
        } else {
            Err(Error::InvalidNameIndex)
        }
    }

    /// The entries in table order, as they are written out.
    pub fn entries(&self) -> (r: &Vec<String>)
        ensures
            r@.map_values(|s: String| s@) == self@,
    {
        &self.names
    }
}

/// Interning a string twice gives the same position both times and leaves the table
/// as the first call left it; a table built by interning never holds a string twice.
pub proof fn lemma_intern_idempotent(names: Seq<Seq<char>>, s: Seq<char>)
    requires
        no_duplicates(names),
    ensures
        ({
            let (t1, i1) = spec_intern(names, s);
            let (t2, i2) = spec_intern(t1, s);
            &&& no_duplicates(t1)
            &&& t2 == t1
            &&& i2 == i1
            &&& 0 <= i1 < t1.len()
            &&& t1[i1] == s
        }),
{
    let (t1, i1) = spec_intern(names, s);
    if contains_name(names, s) {
        let i = choose|i: int| 0 <= i < names.len() && names[i] == s;
        assert(names[i] == s);
    } else {
        assert(t1[names.len() as int] == s);
        assert(contains_name(t1, s));
        let j = choose|j: int| 0 <= j < t1.len() && t1[j] == s;
        assert(no_duplicates(t1));
    }
}

} // verus!
