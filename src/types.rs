//! Small value types shared by every table and record.
use vstd::prelude::*;

use crate::archive::{
    i32_at, le_bytes_i32, le_bytes_u32, lemma_i32_at, lemma_u32_at, lemma_u32_bytes_round_trip, u32_at, write_i32, write_u32,
    Reader,
};
use crate::error::Error;

verus! {

/// A 128-bit identifier, held as four 32-bit words.
#[derive(Debug, Clone, Copy, PartialEq, Eq, Structural)]
pub struct Guid {
    pub a: u32,
    pub b: u32,
    pub c: u32,
    pub d: u32,
}

/// The identifier whose sixteen bytes start at `at`.
pub open spec fn guid_at(s: Seq<u8>, at: int) -> Guid {
    Guid { a: u32_at(s, at), b: u32_at(s, at + 4), c: u32_at(s, at + 8), d: u32_at(s, at + 12) }
}

/// The sixteen bytes of an identifier.
pub open spec fn guid_bytes(g: Guid) -> Seq<u8> {
    le_bytes_u32(g.a) + le_bytes_u32(g.b) + le_bytes_u32(g.c) + le_bytes_u32(g.d)
}

/// A reference into the name table: the entry's position and an instance number.
#[derive(Debug, Clone, Copy, PartialEq, Eq, Structural)]
pub struct FName {
    pub index: i32,
    pub number: i32,
}

/// The name whose eight bytes start at `at`.
pub open spec fn fname_at(s: Seq<u8>, at: int) -> FName {
    FName { index: i32_at(s, at), number: i32_at(s, at + 4) }
}

/// The eight bytes of a name reference.
pub open spec fn fname_bytes(n: FName) -> Seq<u8> {
    le_bytes_i32(n.index) + le_bytes_i32(n.number)
}

/// A reference to an object: `0` is none, `k > 0` is export `k`, `k < 0` is import `-k`.
#[derive(Debug, Clone, Copy, PartialEq, Eq, Structural)]
pub struct PackageIndex {
    pub index: i32,
}

/// Where a package index leads once it is resolved against the two tables.
#[derive(Debug, Clone, Copy, PartialEq, Eq, Structural)]
pub enum Resolved {
    Export(usize),
    Import(usize),
}

impl PackageIndex {
    pub fn is_null(&self) -> (r: bool)
        ensures
            r == (self.index == 0),
    {
        self.index == 0
    }

    pub fn is_export(&self) -> (r: bool)
        ensures
            r == (self.index > 0),
    {
        self.index > 0
    }

    pub fn is_import(&self) -> (r: bool)
        ensures
            r == (self.index < 0),
    {
        self.index < 0
    }

    /// Where this index leads in tables of `n_imports` imports and `n_exports` exports.
    pub open spec fn spec_resolve(&self, n_imports: nat, n_exports: nat) -> Option<Resolved> {
        if self.index > 0 && self.index <= n_exports {
            Some(Resolved::Export((self.index - 1) as usize))
        } else if self.index < 0 && -self.index <= n_imports {
            Some(Resolved::Import((-self.index - 1) as usize))
        } else {
            None
        }
    }

    /// Resolves this index against tables of the given sizes, without touching them;
    /// `None` where the index is null or points past a table.
    pub fn resolve(&self, n_imports: usize, n_exports: usize) -> (r: Option<Resolved>)
        ensures
            r == self.spec_resolve(n_imports as nat, n_exports as nat),
    {
        if self.index > 0 {
            let k = self.index as usize;
            if k <= n_exports {
                Some(Resolved::Export(k - 1))
            } else {
                None
            }
        } else if self.index < 0 {
            if self.index == i32::MIN {
                if 0x8000_0000usize <= n_imports {
                    Some(Resolved::Import(0x7fff_ffffusize))
                } else {
                    None
                }
            } else {
                let k = (-self.index) as usize;
                if k <= n_imports {
                    Some(Resolved::Import(k - 1))
                } else {
                    None
                }
            }
        } else {
            None
        }
    }
}

/// A resolved index names an entry that exists in its table, and the null index
/// resolves to nothing.
pub proof fn lemma_resolved_index_is_valid(i: PackageIndex, n_imports: nat, n_exports: nat)
    ensures
        i.index == 0 ==> i.spec_resolve(n_imports, n_exports) is None,
        i.spec_resolve(n_imports, n_exports) matches Some(Resolved::Export(k)) ==> k < n_exports
            && i.index == k + 1,
        i.spec_resolve(n_imports, n_exports) matches Some(Resolved::Import(k)) ==> k < n_imports
            && i.index == -(k + 1),
{
}

/// Eight bytes that spell a name reference read back as it.
pub proof fn lemma_fname_at(s: Seq<u8>, at: int, n: FName)
    requires
        0 <= at,
        at + 8 <= s.len(),
        s.subrange(at, at + 8) == fname_bytes(n),
    ensures
        fname_at(s, at) == n,
{
    assert(s.subrange(at, at + 4) =~= s.subrange(at, at + 8).subrange(0, 4));
    assert(s.subrange(at + 4, at + 8) =~= s.subrange(at, at + 8).subrange(4, 8));
    assert(fname_bytes(n).subrange(0, 4) =~= le_bytes_i32(n.index));
    assert(fname_bytes(n).subrange(4, 8) =~= le_bytes_i32(n.number));
    lemma_i32_at(s, at, n.index);
    lemma_i32_at(s, at + 4, n.number);
}

/// Sixteen bytes that spell an identifier read back as it.
pub proof fn lemma_guid_at(s: Seq<u8>, at: int, g: Guid)
    requires
        0 <= at,
        at + 16 <= s.len(),
        s.subrange(at, at + 16) == guid_bytes(g),
    ensures
        guid_at(s, at) == g,
{
    let w = s.subrange(at, at + 16);
    assert(s.subrange(at, at + 4) =~= w.subrange(0, 4));
    assert(s.subrange(at + 4, at + 8) =~= w.subrange(4, 8));
    assert(s.subrange(at + 8, at + 12) =~= w.subrange(8, 12));
    assert(s.subrange(at + 12, at + 16) =~= w.subrange(12, 16));
    assert(guid_bytes(g).subrange(0, 4) =~= le_bytes_u32(g.a));
    assert(guid_bytes(g).subrange(4, 8) =~= le_bytes_u32(g.b));
    assert(guid_bytes(g).subrange(8, 12) =~= le_bytes_u32(g.c));
    assert(guid_bytes(g).subrange(12, 16) =~= le_bytes_u32(g.d));
    lemma_u32_at(s, at, g.a);
    lemma_u32_at(s, at + 4, g.b);
    lemma_u32_at(s, at + 8, g.c);
    lemma_u32_at(s, at + 12, g.d);
}

/// Writing back a name reference read from eight bytes gives the same bytes.
pub proof fn lemma_fname_bytes_round_trip(s: Seq<u8>, at: int)
    requires
        0 <= at,
        at + 8 <= s.len(),
    ensures
        fname_bytes(fname_at(s, at)) == s.subrange(at, at + 8),
{
    let x = u32_at(s, at);
    let y = u32_at(s, at + 4);
    assert((x as i32) as u32 == x) by (bit_vector);
    assert((y as i32) as u32 == y) by (bit_vector);
    lemma_u32_bytes_round_trip(s, at);
    lemma_u32_bytes_round_trip(s, at + 4);
    assert(fname_bytes(fname_at(s, at)) =~= s.subrange(at, at + 8));
}

/// Writing back an identifier read from sixteen bytes gives the same bytes.
pub proof fn lemma_guid_bytes_round_trip(s: Seq<u8>, at: int)
    requires
        0 <= at,
        at + 16 <= s.len(),
    ensures
        guid_bytes(guid_at(s, at)) == s.subrange(at, at + 16),
{
    lemma_u32_bytes_round_trip(s, at);
    lemma_u32_bytes_round_trip(s, at + 4);
    lemma_u32_bytes_round_trip(s, at + 8);
    lemma_u32_bytes_round_trip(s, at + 12);
    assert(guid_bytes(guid_at(s, at)) =~= s.subrange(at, at + 16));
}

impl Reader {
    /// Reads a sixteen-byte identifier.
    pub fn read_guid(&mut self) -> (r: Result<Guid, Error>)
        requires
            old(self).wf(),
        ensures
            final(self).wf(),
            final(self).data == old(self).data,
            old(self).pos + 16 <= old(self).data@.len() ==> r == Ok::<Guid, Error>(
                guid_at(old(self).data@, old(self).pos as int),
            ) && final(self).pos == old(self).pos + 16,
            old(self).pos + 16 > old(self).data@.len() ==> r == Err::<Guid, Error>(
                Error::UnexpectedEof { offset: old(self).pos },
            ) && final(self).pos == old(self).pos,
    {
        if self.data.len() - self.pos < 16 {
            return Err(Error::UnexpectedEof { offset: self.pos });
        }
        let a = self.read_u32().unwrap();
        let b = self.read_u32().unwrap();
        let c = self.read_u32().unwrap();
        let d = self.read_u32().unwrap();
        Ok(Guid { a, b, c, d })
    }

    /// Reads a name reference; its index is not checked against any table here.
    pub fn read_fname(&mut self) -> (r: Result<FName, Error>)
        requires
            old(self).wf(),
        ensures
            final(self).wf(),
            final(self).data == old(self).data,
            old(self).pos + 8 <= old(self).data@.len() ==> r == Ok::<FName, Error>(
                fname_at(old(self).data@, old(self).pos as int),
            ) && final(self).pos == old(self).pos + 8,
            old(self).pos + 8 > old(self).data@.len() ==> r == Err::<FName, Error>(
                Error::UnexpectedEof { offset: old(self).pos },
            ) && final(self).pos == old(self).pos,
    {
        if self.data.len() - self.pos < 8 {
            return Err(Error::UnexpectedEof { offset: self.pos });
        }
        let index = self.read_i32().unwrap();
        let number = self.read_i32().unwrap();
        Ok(FName { index, number })
    }

    /// Reads a package index.
    pub fn read_package_index(&mut self) -> (r: Result<PackageIndex, Error>)
        requires
            old(self).wf(),
        ensures
            final(self).wf(),
            final(self).data == old(self).data,
            old(self).pos + 4 <= old(self).data@.len() ==> r == Ok::<PackageIndex, Error>(
                PackageIndex { index: i32_at(old(self).data@, old(self).pos as int) },
            ) && final(self).pos == old(self).pos + 4,
            old(self).pos + 4 > old(self).data@.len() ==> r == Err::<PackageIndex, Error>(
                Error::UnexpectedEof { offset: old(self).pos },
            ) && final(self).pos == old(self).pos,
    {
        match self.read_i32() {
            Ok(index) => Ok(PackageIndex { index }),
            Err(e) => Err(e),
        }
    }
}

/// Appends the sixteen bytes of an identifier.
pub fn write_guid(out: &mut Vec<u8>, g: Guid)
    ensures
        final(out)@ == old(out)@ + guid_bytes(g),
{
    let ghost before = out@;
    write_u32(out, g.a);
    write_u32(out, g.b);
    write_u32(out, g.c);
    write_u32(out, g.d);
    assert(out@ =~= before + guid_bytes(g));
}

/// Appends the eight bytes of a name reference.
pub fn write_fname(out: &mut Vec<u8>, n: FName)
    ensures
        final(out)@ == old(out)@ + fname_bytes(n),
{
    let ghost before = out@;
    write_i32(out, n.index);
    write_i32(out, n.number);
    assert(out@ =~= before + fname_bytes(n));
}

} // verus!
