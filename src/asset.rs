//! The read context shared by every decoder of one package: the cursor and the tables.
use vstd::prelude::*;

use crate::archive::{i32_at, le_bytes_i32, lemma_i32_at, write_i32, Reader};
use crate::custom_version::CustomVersionSet;
use crate::error::Error;
use crate::names::NameMap;
use crate::types::{fname_at, fname_bytes, lemma_fname_at, write_fname, FName, PackageIndex, Resolved};

verus! {

/// A reference to an object of another package.
#[derive(Debug, Clone, Copy, PartialEq, Eq, Structural)]
pub struct Import {
    pub class_package: FName,
    pub class_name: FName,
    pub outer_index: PackageIndex,
    pub object_name: FName,
}

/// The import whose twenty-eight bytes start at `at`.
pub open spec fn parse_import(s: Seq<u8>, at: int) -> Result<(Import, int), Error> {
    if at + 28 > s.len() {
        Err(Error::UnexpectedEof { offset: at as usize })
    } else {
        Ok(
            (
                Import {
                    class_package: fname_at(s, at),
                    class_name: fname_at(s, at + 8),
                    outer_index: PackageIndex { index: i32_at(s, at + 16) },
                    object_name: fname_at(s, at + 20),
                },
                at + 28,
            ),
        )
    }
}

/// The bytes of an import.
pub open spec fn import_bytes(i: Import) -> Seq<u8> {
    fname_bytes(i.class_package) + fname_bytes(i.class_name) + le_bytes_i32(i.outer_index.index)
        + fname_bytes(i.object_name)
}

impl Import {
    /// Reads an import.
    pub fn read(reader: &mut Reader) -> (r: Result<Import, Error>)
        requires
            old(reader).wf(),
        ensures
            final(reader).wf(),
            final(reader).data == old(reader).data,
            outcome(r, final(reader).pos) == parse_import(old(reader).data@, old(reader).pos as int),
    {
        if reader.data.len() - reader.pos < 28 {
            return Err(Error::UnexpectedEof { offset: reader.pos });
        }
        let class_package = reader.read_fname().unwrap();
        let class_name = reader.read_fname().unwrap();
        let outer_index = reader.read_package_index().unwrap();
        let object_name = reader.read_fname().unwrap();
        Ok(Import { class_package, class_name, outer_index, object_name })
    }

    /// Writes an import.
    pub fn write(&self, out: &mut Vec<u8>)
        ensures
            final(out)@ == old(out)@ + import_bytes(*self),
    {
        let ghost before = out@;
        write_fname(out, self.class_package);
        write_fname(out, self.class_name);
        write_i32(out, self.outer_index.index);
        write_fname(out, self.object_name);
        assert(out@ =~= before + import_bytes(*self));
    }
}

/// Writing an import and reading the bytes back gives the same import.
pub proof fn lemma_import_round_trip(i: Import)
    ensures
        parse_import(import_bytes(i), 0) == Ok::<(Import, int), Error>((i, 28)),
{
    let b = import_bytes(i);
    assert(b.subrange(0, 8) =~= fname_bytes(i.class_package));
    assert(b.subrange(8, 16) =~= fname_bytes(i.class_name));
    assert(b.subrange(16, 20) =~= le_bytes_i32(i.outer_index.index));
    assert(b.subrange(20, 28) =~= fname_bytes(i.object_name));
    lemma_fname_at(b, 0, i.class_package);
    lemma_fname_at(b, 8, i.class_name);
    lemma_i32_at(b, 16, i.outer_index.index);
    lemma_fname_at(b, 20, i.object_name);
}

/// What decoders read from: the cursor, the name table, the custom versions, the
/// import table and the name of each export's object.
pub struct AssetReader {
    pub cursor: Reader,
    pub names: NameMap,
    pub custom_versions: CustomVersionSet,
    pub imports: Vec<Import>,
    pub export_names: Vec<FName>,
}

/// The outcome of a decode as the spec parsers state it: the value and the offset after it.
pub open spec fn outcome<T>(r: Result<T, Error>, pos: usize) -> Result<(T, int), Error> {
    match r {
        Ok(v) => Ok((v, pos as int)),
        Err(e) => Err(e),
    }
}

impl AssetReader {
    pub open spec fn wf(&self) -> bool {
        &&& self.cursor.wf()
        &&& self.names.wf()
        &&& self.custom_versions.wf()
    }

    /// `other` has the same tables and buffer as `self`; only the cursor may differ.
    pub open spec fn same_context(&self, other: &AssetReader) -> bool {
        &&& self.cursor.data == other.cursor.data
        &&& self.names == other.names
        &&& self.custom_versions == other.custom_versions
        &&& self.imports == other.imports
        &&& self.export_names == other.export_names
    }

    pub open spec fn bytes(&self) -> Seq<u8> {
        self.cursor.data@
    }

    /// The name of the class that `index` points at: an import's or an export's object
    /// name; `None` where the index is null or out of range.
    pub open spec fn spec_class_name(&self, index: PackageIndex) -> Option<FName> {
        match index.spec_resolve(self.imports@.len(), self.export_names@.len()) {
            Some(Resolved::Import(k)) => Some(self.imports@[k as int].object_name),
            Some(Resolved::Export(k)) => Some(self.export_names@[k as int]),
            None => None,
        }
    }

    pub fn class_name(&self, index: PackageIndex) -> (r: Option<FName>)
        ensures
            r == self.spec_class_name(index),
    {
        match index.resolve(self.imports.len(), self.export_names.len()) {
            Some(Resolved::Import(k)) => Some(self.imports[k].object_name),
            Some(Resolved::Export(k)) => Some(self.export_names[k]),
            None => None,
        }
    }

    /// The class type string that `index` leads to, where the index and the name both resolve.
    pub open spec fn spec_class_type(&self, index: PackageIndex) -> Option<Seq<char>> {
        match self.spec_class_name(index) {
            Some(n) => if self.names.valid_name(n) {
                Some(self.names@[n.index as int])
            } else {
                None
            },
            None => None,
        }
    }

    pub fn class_type(&self, index: PackageIndex) -> (r: Option<String>)
        ensures
            r matches Some(s) ==> self.spec_class_type(index) == Some(s@),
            r is None ==> self.spec_class_type(index) is None,
    {
        match self.class_name(index) {
            Some(n) => match self.names.resolve(n) {
                Ok(s) => Some(s),
                Err(_) => None,
            },
            None => None,
        }
    }
}

} // verus!
