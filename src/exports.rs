//! Export records: the header every export shares, and the richer records built on it
//! by reading further from the same cursor.
use vstd::arithmetic::div_mod::{lemma_fundamental_div_mod, lemma_fundamental_div_mod_converse};
use vstd::prelude::*;

use crate::archive::{
    i32_at, le_bytes_i32, le_bytes_u32, lemma_i32_at, lemma_u32_at, lemma_u32_bytes_round_trip, u32_at, write_bytes, write_i32, write_u32, Reader,
};
use crate::asset::{outcome, AssetReader};
use crate::custom_version::spec_has_property_guid;
use crate::error::Error;
use crate::names::{no_duplicates, NameMap};
use crate::custom_version::CustomVersionSet;
use crate::properties::{
    is_unknown_type, lemma_decoded_list_bytes, lemma_unknown_type_property_wf, none_str, ValueModel,
    encode_list, has_end_marker, lemma_parse_list_bounds, lemma_property_list_round_trip, models, parse_list, property_wf,
    sizes_fit, write_property_list, Property, PropertyModel,
};
use crate::types::{
    fname_at, fname_bytes, lemma_fname_at, lemma_fname_bytes_round_trip, write_fname, FName,
    PackageIndex,
};

verus! {

/// The header of an export: what it is, where it sits, and where its payload lies.
#[derive(Debug, Clone, Copy, PartialEq, Eq, Structural)]
pub struct BaseExport {
    pub class_index: PackageIndex,
    pub super_index: PackageIndex,
    pub outer_index: PackageIndex,
    pub object_name: FName,
    pub object_flags: u32,
    pub serial_size: u32,
    pub serial_offset: u32,
}

/// An export of which only the header is known.
pub type UnknownExport = BaseExport;

/// The number of bytes of an export header.
pub const BASE_EXPORT_SIZE: usize = 32;

/// The export header whose bytes start at `at`.
pub open spec fn parse_base_export(s: Seq<u8>, at: int) -> Result<(BaseExport, int), Error> {
    if at + 32 > s.len() {
        Err(Error::UnexpectedEof { offset: at as usize })
    } else {
        Ok(
            (
                BaseExport {
                    class_index: PackageIndex { index: i32_at(s, at) },
                    super_index: PackageIndex { index: i32_at(s, at + 4) },
                    outer_index: PackageIndex { index: i32_at(s, at + 8) },
                    object_name: fname_at(s, at + 12),
                    object_flags: u32_at(s, at + 20),
                    serial_size: u32_at(s, at + 24),
                    serial_offset: u32_at(s, at + 28),
                },
                at + 32,
            ),
        )
    }
}

/// The bytes of an export header.
pub open spec fn base_export_bytes(e: BaseExport) -> Seq<u8> {
    le_bytes_u32(e.class_index.index as u32) + le_bytes_u32(e.super_index.index as u32)
        + le_bytes_u32(e.outer_index.index as u32) + fname_bytes(e.object_name) + le_bytes_u32(
        e.object_flags,
    ) + le_bytes_u32(e.serial_size) + le_bytes_u32(e.serial_offset)
}

impl BaseExport {
    /// Reads an export header.
    pub fn read(reader: &mut Reader) -> (r: Result<BaseExport, Error>)
        requires
            old(reader).wf(),
        ensures
            final(reader).wf(),
            final(reader).data == old(reader).data,
            outcome(r, final(reader).pos) == parse_base_export(
                old(reader).data@,
                old(reader).pos as int,
            ),
    {
        if reader.data.len() - reader.pos < BASE_EXPORT_SIZE {
            return Err(Error::UnexpectedEof { offset: reader.pos });
        }
        let class_index = reader.read_package_index().unwrap();
        let super_index = reader.read_package_index().unwrap();
        let outer_index = reader.read_package_index().unwrap();
        let object_name = reader.read_fname().unwrap();
        let object_flags = reader.read_u32().unwrap();
        let serial_size = reader.read_u32().unwrap();
        let serial_offset = reader.read_u32().unwrap();
        Ok(
            BaseExport {
                class_index,
                super_index,
                outer_index,
                object_name,
                object_flags,
                serial_size,
                serial_offset,
            },
        )
    }

    /// Writes an export header.
    pub fn write(&self, out: &mut Vec<u8>)
        ensures
            final(out)@ == old(out)@ + base_export_bytes(*self),
    {
        let ghost before = out@;
        write_i32(out, self.class_index.index);
        write_i32(out, self.super_index.index);
        write_i32(out, self.outer_index.index);
        write_fname(out, self.object_name);
        write_u32(out, self.object_flags);
        write_u32(out, self.serial_size);
        write_u32(out, self.serial_offset);
        assert(out@ =~= before + base_export_bytes(*self));
    }
}

/// An export whose payload is kept as the bytes it was read from.
pub struct RawExport {
    unknown_export: UnknownExport,
    data: Vec<u8>,
}

impl RawExport {
    pub closed spec fn spec_unknown_export(&self) -> UnknownExport {
        self.unknown_export
    }

    pub closed spec fn spec_data(&self) -> Seq<u8> {
        self.data@
    }

    /// Captures the next `serial_size` bytes of the cursor as the payload of `unk`.
    pub fn from_unk(unk: UnknownExport, asset: &mut AssetReader) -> (r: Result<RawExport, Error>)
        requires
            old(asset).wf(),
        ensures
            final(asset).wf(),
            final(asset).same_context(old(asset)),
            old(asset).cursor.pos + unk.serial_size <= old(asset).bytes().len() ==> r is Ok
                && r->Ok_0.spec_unknown_export() == unk && r->Ok_0.spec_data() == old(
                asset,
            ).bytes().subrange(
                old(asset).cursor.pos as int,
                old(asset).cursor.pos + unk.serial_size,
            ) && final(asset).cursor.pos == old(asset).cursor.pos + unk.serial_size,
            old(asset).cursor.pos + unk.serial_size > old(asset).bytes().len() ==> r == Err::<
                RawExport,
                Error,
            >(Error::UnexpectedEof { offset: old(asset).cursor.pos }),
    {
        match asset.cursor.read_bytes(unk.serial_size as usize) {
            Ok(data) => Ok(RawExport { unknown_export: unk, data }),
            Err(e) => Err(e),
        }
    }

    /// A raw export carries no property list.
    pub fn get_normal_export(&self) -> (r: Option<&NormalExport>)
        ensures
            r is None,
    {
        None
    }

    pub fn get_normal_export_mut(&mut self) -> (r: Option<&mut NormalExport>)
        ensures
            r is None,
    {
        None
    }

    pub fn get_unknown_export(&self) -> (r: &UnknownExport)
        ensures
            *r == self.spec_unknown_export(),
    {
        &self.unknown_export
    }

    pub fn get_unknown_export_mut(&mut self) -> (r: &mut UnknownExport)
        ensures
            *r == old(self).spec_unknown_export(),
            final(self).spec_data() == old(self).spec_data(),
            final(self).spec_unknown_export() == *final(r),
    {
        &mut self.unknown_export
    }

    /// The captured payload.
    pub fn data(&self) -> (r: &Vec<u8>)
        ensures
            r@ == self.spec_data(),
    {
        &self.data
    }

    /// Writes the payload back as it was read.
    pub fn write(&self, out: &mut Vec<u8>)
        ensures
            final(out)@ == old(out)@ + self.spec_data(),
    {
        write_bytes(out, &self.data);
    }
}

/// An export whose payload is a tagged property list.
pub struct NormalExport {
    pub base_export: BaseExport,
    pub properties: Vec<Property>,
}

pub struct NormalModel {
    pub base_export: BaseExport,
    pub properties: Seq<PropertyModel>,
}

impl View for NormalExport {
    type V = NormalModel;

    open spec fn view(&self) -> NormalModel {
        NormalModel { base_export: self.base_export, properties: models(self.properties@) }
    }
}

/// The outcome of a decode of a record that has a view.
pub open spec fn view_outcome<T: View>(r: Result<T, Error>, pos: usize) -> Result<(T::V, int), Error> {
    match r {
        Ok(v) => Ok((v@, pos as int)),
        Err(e) => Err(e),
    }
}

/// The property list of an export's payload; such lists carry property headers.
pub open spec fn parse_normal(
    base: BaseExport,
    names: Seq<Seq<char>>,
    gate: bool,
    s: Seq<u8>,
    at: int,
) -> Result<(NormalModel, int), Error> {
    match parse_list(names, gate, s, at) {
        Err(e) => Err(e),
        Ok((props, p)) => Ok((NormalModel { base_export: base, properties: props }, p)),
    }
}

/// Whether property headers in an export's payload carry the optional identifier.
pub open spec fn export_gate(asset: &AssetReader) -> bool {
    spec_has_property_guid(true, asset.custom_versions.entries@)
}

impl NormalExport {
    /// Reads the property list that follows `base`'s header.
    pub fn from_base(base: &BaseExport, asset: &mut AssetReader) -> (r: Result<NormalExport, Error>)
        requires
            old(asset).wf(),
        ensures
            final(asset).wf(),
            final(asset).same_context(old(asset)),
            view_outcome(r, final(asset).cursor.pos) == parse_normal(
                *base,
                old(asset).names@,
                export_gate(old(asset)),
                old(asset).bytes(),
                old(asset).cursor.pos as int,
            ),
    {
        match asset.read_property_list(true) {
            Ok(properties) => Ok(NormalExport { base_export: *base, properties }),
            Err(e) => Err(e),
        }
    }

    pub fn get_normal_export(&self) -> (r: Option<&NormalExport>)
        ensures
            r == Some(self),
    {
        Some(self)
    }

    pub fn get_base_export(&self) -> (r: &BaseExport)
        ensures
            *r == self.base_export,
    {
        &self.base_export
    }

    pub fn get_normal_export_mut(&mut self) -> (r: Option<&mut NormalExport>)
        ensures
            r matches Some(n) && *n == *old(self),
            r matches Some(n) && *final(self) == *final(n),
    {
        Some(self)
    }

    pub fn get_base_export_mut(&mut self) -> (r: &mut BaseExport)
        ensures
            *r == old(self).base_export,
            final(self).base_export == *final(r),
            final(self).properties == old(self).properties,
    {
        &mut self.base_export
    }
}

/// A struct export: a property list, then the parent struct, the first child field,
/// and the script bytecode with its length.
pub struct StructExport {
    pub normal_export: NormalExport,
    pub super_struct: PackageIndex,
    pub children: PackageIndex,
    pub script_bytecode: Vec<u8>,
}

pub struct StructModel {
    pub normal_export: NormalModel,
    pub super_struct: PackageIndex,
    pub children: PackageIndex,
    pub script_bytecode: Seq<u8>,
}

impl View for StructExport {
    type V = StructModel;

    open spec fn view(&self) -> StructModel {
        StructModel {
            normal_export: self.normal_export@,
            super_struct: self.super_struct,
            children: self.children,
            script_bytecode: self.script_bytecode@,
        }
    }
}

pub open spec fn parse_struct(
    base: BaseExport,
    names: Seq<Seq<char>>,
    gate: bool,
    s: Seq<u8>,
    at: int,
) -> Result<(StructModel, int), Error> {
    match parse_normal(base, names, gate, s, at) {
        Err(e) => Err(e),
        Ok((n, p)) => if p + 12 > s.len() {
            Err(Error::UnexpectedEof { offset: p as usize })
        } else if p + 12 + u32_at(s, p + 8) > s.len() {
            Err(Error::UnexpectedEof { offset: (p + 12) as usize })
        } else {
            Ok(
                (
                    StructModel {
                        normal_export: n,
                        super_struct: PackageIndex { index: i32_at(s, p) },
                        children: PackageIndex { index: i32_at(s, p + 4) },
                        script_bytecode: s.subrange(p + 12, p + 12 + u32_at(s, p + 8)),
                    },
                    p + 12 + u32_at(s, p + 8),
                ),
            )
        },
    }
}

impl StructExport {
    pub fn from_base(base: &BaseExport, asset: &mut AssetReader) -> (r: Result<StructExport, Error>)
        requires
            old(asset).wf(),
        ensures
            final(asset).wf(),
            final(asset).same_context(old(asset)),
            view_outcome(r, final(asset).cursor.pos) == parse_struct(
                *base,
                old(asset).names@,
                export_gate(old(asset)),
                old(asset).bytes(),
                old(asset).cursor.pos as int,
            ),
    {
        let normal_export = match NormalExport::from_base(base, asset) {
            Ok(n) => n,
            Err(e) => return Err(e),
        };
        if asset.cursor.data.len() - asset.cursor.pos < 12 {
            return Err(Error::UnexpectedEof { offset: asset.cursor.pos });
        }
        let super_struct = asset.cursor.read_package_index().unwrap();
        let children = asset.cursor.read_package_index().unwrap();
        let size = asset.cursor.read_u32().unwrap();
        match asset.cursor.read_bytes(size as usize) {
            Ok(script_bytecode) => Ok(
                StructExport { normal_export, super_struct, children, script_bytecode },
            ),
            Err(e) => Err(e),
        }
    }

    pub fn get_normal_export(&self) -> (r: Option<&NormalExport>)
        ensures
            r == Some(&self.normal_export),
    {
        Some(&self.normal_export)
    }

    pub fn get_base_export(&self) -> (r: &BaseExport)
        ensures
            *r == self.normal_export.base_export,
    {
        &self.normal_export.base_export
    }

    pub fn get_normal_export_mut(&mut self) -> (r: Option<&mut NormalExport>)
        ensures
            r matches Some(n) && *n == old(self).normal_export,
            r matches Some(n) && final(self).normal_export == *final(n),
            final(self).super_struct == old(self).super_struct,
            final(self).children == old(self).children,
            final(self).script_bytecode == old(self).script_bytecode,
    {
        Some(&mut self.normal_export)
    }

    pub fn get_base_export_mut(&mut self) -> (r: &mut BaseExport)
        ensures
            *r == old(self).normal_export.base_export,
            final(self).normal_export.base_export == *final(r),
            final(self).normal_export.properties == old(self).normal_export.properties,
            final(self).super_struct == old(self).super_struct,
            final(self).children == old(self).children,
            final(self).script_bytecode == old(self).script_bytecode,
    {
        &mut self.normal_export.base_export
    }
}

/// The bits of a function's flag word that name a flag.
pub const FUNCTION_FLAGS_DEFINED: u32 = 0xFFFF_FFCF;

/// A function export: a struct export, then the function's flag word.
pub struct FunctionExport {
    pub struct_export: StructExport,
    pub function_flags: u32,
}

pub struct FunctionModel {
    pub struct_export: StructModel,
    pub function_flags: u32,
}

impl View for FunctionExport {
    type V = FunctionModel;

    open spec fn view(&self) -> FunctionModel {
        FunctionModel { struct_export: self.struct_export@, function_flags: self.function_flags }
    }
}

pub open spec fn parse_function(
    base: BaseExport,
    names: Seq<Seq<char>>,
    gate: bool,
    s: Seq<u8>,
    at: int,
) -> Result<(FunctionModel, int), Error> {
    match parse_struct(base, names, gate, s, at) {
        Err(e) => Err(e),
        Ok((st, p)) => if p + 4 > s.len() {
            Err(Error::UnexpectedEof { offset: p as usize })
        } else if u32_at(s, p) & !FUNCTION_FLAGS_DEFINED != 0 {
            Err(Error::InvalidFlags)
        } else if p + 4 > at + base.serial_size {
            Err(Error::SizeMismatch)
        } else {
            Ok((FunctionModel { struct_export: st, function_flags: u32_at(s, p) }, p + 4))
        },
    }
}

impl FunctionExport {
    /// Reads a struct export, then a flag word in which only defined flags may be set.
    /// Reading past the header's serialized size is refused.
    pub fn from_base(base: &BaseExport, asset: &mut AssetReader) -> (r: Result<FunctionExport, Error>)
        requires
            old(asset).wf(),
        ensures
            final(asset).wf(),
            r is Ok ==> final(asset).cursor.pos <= old(asset).cursor.pos + base.serial_size,
            final(asset).same_context(old(asset)),
            view_outcome(r, final(asset).cursor.pos) == parse_function(
                *base,
                old(asset).names@,
                export_gate(old(asset)),
                old(asset).bytes(),
                old(asset).cursor.pos as int,
            ),
    {
        let start = asset.cursor.pos;
        proof {
            lemma_parse_list_bounds(asset.names@, export_gate(asset), asset.bytes(), start as int);
        }
        let struct_export = match StructExport::from_base(base, asset) {
            Ok(st) => st,
            Err(e) => return Err(e),
        };
        let function_flags = match asset.cursor.read_u32() {
            Ok(f) => f,
            Err(e) => return Err(e),
        };
        if function_flags & !FUNCTION_FLAGS_DEFINED != 0 {
            return Err(Error::InvalidFlags);
        }
        if asset.cursor.pos - start > base.serial_size as usize {
            return Err(Error::SizeMismatch);
        }
        Ok(FunctionExport { struct_export, function_flags })
    }

    pub fn get_normal_export(&self) -> (r: Option<&NormalExport>)
        ensures
            r == Some(&self.struct_export.normal_export),
    {
        self.struct_export.get_normal_export()
    }

    pub fn get_base_export(&self) -> (r: &BaseExport)
        ensures
            *r == self.struct_export.normal_export.base_export,
    {
        self.struct_export.get_base_export()
    }

    pub fn get_normal_export_mut(&mut self) -> (r: Option<&mut NormalExport>)
        ensures
            r matches Some(n) && *n == old(self).struct_export.normal_export,
            r matches Some(n) && final(self).struct_export.normal_export == *final(n),
            final(self).struct_export.super_struct == old(self).struct_export.super_struct,
            final(self).struct_export.children == old(self).struct_export.children,
            final(self).struct_export.script_bytecode == old(self).struct_export.script_bytecode,
            final(self).function_flags == old(self).function_flags,
    {
        self.struct_export.get_normal_export_mut()
    }

    pub fn get_base_export_mut(&mut self) -> (r: &mut BaseExport)
        ensures
            *r == old(self).struct_export.normal_export.base_export,
            final(self).struct_export.normal_export.base_export == *final(r),
            final(self).struct_export.normal_export.properties == old(
                self,
            ).struct_export.normal_export.properties,
            final(self).struct_export.super_struct == old(self).struct_export.super_struct,
            final(self).struct_export.children == old(self).struct_export.children,
            final(self).struct_export.script_bytecode == old(self).struct_export.script_bytecode,
            final(self).function_flags == old(self).function_flags,
    {
        self.struct_export.get_base_export_mut()
    }
}

/// What follows the common part of a property descriptor, by the descriptor's class.
#[derive(Debug, Clone, Copy, PartialEq, Eq, Structural)]
pub enum UPropertyKind {
    Generic,
    Bool { element_size: u8, native_bool: u8 },
    Object { property_class: PackageIndex },
}

/// A property descriptor: the type of a property, as opposed to a property's value.
#[derive(Debug, Clone, Copy, PartialEq, Eq, Structural)]
pub struct UProperty {
    pub array_dim: i32,
    pub property_flags: u64,
    pub rep_notify_func: FName,
    pub kind: UPropertyKind,
}

/// The 64-bit flag word whose low and high halves start at `at` and `at + 4`.
pub open spec fn u64_at(s: Seq<u8>, at: int) -> u64 {
    (u32_at(s, at) + u32_at(s, at + 4) * 0x1_0000_0000) as u64
}

/// A descriptor of class `class_type` starting at `at`.
pub open spec fn parse_uproperty(class_type: Seq<char>, s: Seq<u8>, at: int) -> Result<(UProperty, int), Error> {
    if at + 20 > s.len() {
        Err(Error::UnexpectedEof { offset: at as usize })
    } else if class_type == "BoolProperty"@ {
        if at + 22 > s.len() {
            Err(Error::UnexpectedEof { offset: (at + 20) as usize })
        } else {
            Ok(
                (
                    UProperty {
                        array_dim: i32_at(s, at),
                        property_flags: u64_at(s, at + 4),
                        rep_notify_func: fname_at(s, at + 12),
                        kind: UPropertyKind::Bool { element_size: s[at + 20], native_bool: s[at + 21] },
                    },
                    at + 22,
                ),
            )
        }
    } else if class_type == "ObjectProperty"@ {
        if at + 24 > s.len() {
            Err(Error::UnexpectedEof { offset: (at + 20) as usize })
        } else {
            Ok(
                (
                    UProperty {
                        array_dim: i32_at(s, at),
                        property_flags: u64_at(s, at + 4),
                        rep_notify_func: fname_at(s, at + 12),
                        kind: UPropertyKind::Object {
                            property_class: PackageIndex { index: i32_at(s, at + 20) },
                        },
                    },
                    at + 24,
                ),
            )
        }
    } else {
        Ok(
            (
                UProperty {
                    array_dim: i32_at(s, at),
                    property_flags: u64_at(s, at + 4),
                    rep_notify_func: fname_at(s, at + 12),
                    kind: UPropertyKind::Generic,
                },
                at + 20,
            ),
        )
    }
}

/// The bytes of a descriptor.
pub open spec fn uproperty_bytes(p: UProperty) -> Seq<u8> {
    le_bytes_u32(p.array_dim as u32) + le_bytes_u32((p.property_flags % 0x1_0000_0000) as u32)
        + le_bytes_u32((p.property_flags / 0x1_0000_0000) as u32) + fname_bytes(p.rep_notify_func)
        + match p.kind {
        UPropertyKind::Generic => Seq::empty(),
        UPropertyKind::Bool { element_size, native_bool } => seq![element_size, native_bool],
        UPropertyKind::Object { property_class } => le_bytes_u32(property_class.index as u32),
    }
}

impl UProperty {
    /// Reads a descriptor of class `class_type`.
    pub fn new(reader: &mut Reader, class_type: &String) -> (r: Result<UProperty, Error>)
        requires
            old(reader).wf(),
        ensures
            final(reader).wf(),
            final(reader).data == old(reader).data,
            outcome(r, final(reader).pos) == parse_uproperty(
                class_type@,
                old(reader).data@,
                old(reader).pos as int,
            ),
    {
        if reader.data.len() - reader.pos < 20 {
            return Err(Error::UnexpectedEof { offset: reader.pos });
        }
        let array_dim = reader.read_i32().unwrap();
        let lo = reader.read_u32().unwrap();
        let hi = reader.read_u32().unwrap();
        let property_flags = lo as u64 + hi as u64 * 0x1_0000_0000u64;
        let rep_notify_func = reader.read_fname().unwrap();
        let kind = if *class_type == "BoolProperty".to_owned() {
            if reader.data.len() - reader.pos < 2 {
                return Err(Error::UnexpectedEof { offset: reader.pos });
            }
            let element_size = reader.read_u8().unwrap();
            let native_bool = reader.read_u8().unwrap();
            UPropertyKind::Bool { element_size, native_bool }
        } else if *class_type == "ObjectProperty".to_owned() {
            match reader.read_package_index() {
                Ok(property_class) => UPropertyKind::Object { property_class },
                Err(e) => return Err(e),
            }
        } else {
            UPropertyKind::Generic
        };
        Ok(UProperty { array_dim, property_flags, rep_notify_func, kind })
    }

    pub fn write(&self, out: &mut Vec<u8>)
        ensures
            final(out)@ == old(out)@ + uproperty_bytes(*self),
    {
        let ghost before = out@;
        write_i32(out, self.array_dim);
        write_u32(out, (self.property_flags % 0x1_0000_0000u64) as u32);
        write_u32(out, (self.property_flags / 0x1_0000_0000u64) as u32);
        write_fname(out, self.rep_notify_func);
        match self.kind {
            UPropertyKind::Generic => {},
            UPropertyKind::Bool { element_size, native_bool } => {
                out.push(element_size);
                out.push(native_bool);
            },
            UPropertyKind::Object { property_class } => {
                write_i32(out, property_class.index);
            },
        }
        assert(out@ =~= before + uproperty_bytes(*self));
    }
}

/// An export that describes a property type: a property list, a word, and the
/// descriptor, whose layout follows the export's class.
pub struct PropertyExport {
    pub normal_export: NormalExport,
    /// The word between the property list and the descriptor, kept as it was read.
    pub header_word: i32,
    pub property: UProperty,
}

pub struct PropertyExportModel {
    pub normal_export: NormalModel,
    pub header_word: i32,
    pub property: UProperty,
}

impl View for PropertyExport {
    type V = PropertyExportModel;

    open spec fn view(&self) -> PropertyExportModel {
        PropertyExportModel {
            normal_export: self.normal_export@,
            header_word: self.header_word,
            property: self.property,
        }
    }
}

pub open spec fn parse_property_export(
    base: BaseExport,
    names: Seq<Seq<char>>,
    gate: bool,
    class_type: Option<Seq<char>>,
    s: Seq<u8>,
    at: int,
) -> Result<(PropertyExportModel, int), Error> {
    match parse_normal(base, names, gate, s, at) {
        Err(e) => Err(e),
        Ok((n, p)) => if p + 4 > s.len() {
            Err(Error::UnexpectedEof { offset: p as usize })
        } else {
            match class_type {
                None => Err(Error::InvalidPackageIndex),
                Some(t) => match parse_uproperty(t, s, p + 4) {
                    Err(e) => Err(e),
                    Ok((u, q)) => Ok(
                        (
                            PropertyExportModel {
                                normal_export: n,
                                header_word: i32_at(s, p),
                                property: u,
                            },
                            q,
                        ),
                    ),
                },
            }
        },
    }
}

impl PropertyExport {
    /// Reads a property list, a word that is kept as it stands, and the descriptor of the class
    /// that `base` names; a class that does not resolve is an error.
    pub fn from_base(base: &BaseExport, asset: &mut AssetReader) -> (r: Result<PropertyExport, Error>)
        requires
            old(asset).wf(),
        ensures
            final(asset).wf(),
            final(asset).same_context(old(asset)),
            view_outcome(r, final(asset).cursor.pos) == parse_property_export(
                *base,
                old(asset).names@,
                export_gate(old(asset)),
                old(asset).spec_class_type(base.class_index),
                old(asset).bytes(),
                old(asset).cursor.pos as int,
            ),
    {
        let normal_export = match NormalExport::from_base(base, asset) {
            Ok(n) => n,
            Err(e) => return Err(e),
        };
        let header_word = match asset.cursor.read_i32() {
            Ok(w) => w,
            Err(e) => return Err(e),
        };
        let class_type = match asset.class_type(base.class_index) {
            Some(t) => t,
            None => return Err(Error::InvalidPackageIndex),
        };
        match UProperty::new(&mut asset.cursor, &class_type) {
            Ok(property) => Ok(PropertyExport { normal_export, header_word, property }),
            Err(e) => Err(e),
        }
    }

    pub fn get_normal_export(&self) -> (r: Option<&NormalExport>)
        ensures
            r == Some(&self.normal_export),
    {
        Some(&self.normal_export)
    }

    pub fn get_base_export(&self) -> (r: &BaseExport)
        ensures
            *r == self.normal_export.base_export,
    {
        &self.normal_export.base_export
    }

    pub fn get_normal_export_mut(&mut self) -> (r: Option<&mut NormalExport>)
        ensures
            r matches Some(n) && *n == old(self).normal_export,
            r matches Some(n) && final(self).normal_export == *final(n),
            final(self).header_word == old(self).header_word,
            final(self).property == old(self).property,
    {
        Some(&mut self.normal_export)
    }

    pub fn get_base_export_mut(&mut self) -> (r: &mut BaseExport)
        ensures
            *r == old(self).normal_export.base_export,
            final(self).normal_export.base_export == *final(r),
            final(self).normal_export.properties == old(self).normal_export.properties,
            final(self).header_word == old(self).header_word,
            final(self).property == old(self).property,
    {
        &mut self.normal_export.base_export
    }
}

/// An export of any kind.
pub enum Export {
    Raw(RawExport),
    Normal(NormalExport),
    Struct(StructExport),
    Function(FunctionExport),
    Property(PropertyExport),
}

pub enum ExportModel {
    Raw(BaseExport, Seq<u8>),
    Normal(NormalModel),
    Struct(StructModel),
    Function(FunctionModel),
    Property(PropertyExportModel),
}

impl View for Export {
    type V = ExportModel;

    open spec fn view(&self) -> ExportModel {
        match self {
            Export::Raw(r) => ExportModel::Raw(r.spec_unknown_export(), r.spec_data()),
            Export::Normal(n) => ExportModel::Normal(n@),
            Export::Struct(st) => ExportModel::Struct(st@),
            Export::Function(f) => ExportModel::Function(f@),
            Export::Property(p) => ExportModel::Property(p@),
        }
    }
}

/// Whether exports of class `t` describe a property type.
pub open spec fn is_property_class(t: Seq<char>) -> bool {
    t == "BoolProperty"@ || t == "ObjectProperty"@ || t == "IntProperty"@ || t == "NameProperty"@
        || t == "StrProperty"@
}

/// The record that the payload of `base` decodes to, with the class type that its class
/// reference resolves to: kept raw where the class does not resolve or its record fails to
/// decode; otherwise decoded by class from the payload's start, and refused where it runs
/// past the payload's end.
#[verifier::opaque]
pub open spec fn parse_export(
    base: BaseExport,
    names: Seq<Seq<char>>,
    gate: bool,
    class_type: Option<Seq<char>>,
    s: Seq<u8>,
) -> Result<ExportModel, Error> {
    let off = base.serial_offset as int;
    let end = base.serial_offset + base.serial_size;
    if end > s.len() {
        Err(Error::UnexpectedEof { offset: base.serial_offset as usize })
    } else {
        match class_type {
            None => Ok(ExportModel::Raw(base, s.subrange(off, end))),
            Some(t) => {
                let decoded: Result<(ExportModel, int), Error> = if t == "Function"@ {
                    match parse_function(base, names, gate, s, off) {
                        Ok((m, p)) => Ok((ExportModel::Function(m), p)),
                        Err(e) => Err(e),
                    }
                } else if t == "ScriptStruct"@ {
                    match parse_struct(base, names, gate, s, off) {
                        Ok((m, p)) => Ok((ExportModel::Struct(m), p)),
                        Err(e) => Err(e),
                    }
                } else if is_property_class(t) {
                    match parse_property_export(base, names, gate, class_type, s, off) {
                        Ok((m, p)) => Ok((ExportModel::Property(m), p)),
                        Err(e) => Err(e),
                    }
                } else {
                    match parse_normal(base, names, gate, s, off) {
                        Ok((m, p)) => Ok((ExportModel::Normal(m), p)),
                        Err(e) => Err(e),
                    }
                };
                match decoded {
                    Err(_) => Ok(ExportModel::Raw(base, s.subrange(off, end))),
                    Ok((m, p)) => if p > end {
                        Err(Error::SizeMismatch)
                    } else {
                        Ok(m)
                    },
                }
            },
        }
    }
}

pub open spec fn export_outcome(r: Result<Export, Error>) -> Result<ExportModel, Error> {
    match r {
        Ok(e) => Ok(e@),
        Err(e) => Err(e),
    }
}

/// Decodes the payload of `base`, choosing the record by the class its class reference
/// resolves to, and falling back to the raw payload where the class does not resolve or
/// its record fails to decode.
pub fn read_export(base: &BaseExport, asset: &mut AssetReader) -> (r: Result<Export, Error>)
    requires
        old(asset).wf(),
    ensures
        final(asset).wf(),
        final(asset).same_context(old(asset)),
        export_outcome(r) == parse_export(
            *base,
            old(asset).names@,
            export_gate(old(asset)),
            old(asset).spec_class_type(base.class_index),
            old(asset).bytes(),
        ),
{
    proof {
        reveal(parse_export);
    }
    let off = base.serial_offset as usize;
    if asset.cursor.data.len() < off || asset.cursor.data.len() - off < base.serial_size as usize {
        return Err(Error::UnexpectedEof { offset: off });
    }
    let end = off + base.serial_size as usize;
    asset.cursor.pos = off;
    let class_type = match asset.class_type(base.class_index) {
        Some(t) => t,
        None => {
            return match RawExport::from_unk(*base, asset) {
                Ok(raw) => Ok(Export::Raw(raw)),
                Err(e) => Err(e),
            };
        },
    };
    let decoded = if class_type == "Function".to_owned() {
        match FunctionExport::from_base(base, asset) {
            Ok(f) => Ok(Export::Function(f)),
            Err(e) => Err(e),
        }
    } else if class_type == "ScriptStruct".to_owned() {
        match StructExport::from_base(base, asset) {
            Ok(st) => Ok(Export::Struct(st)),
            Err(e) => Err(e),
        }
    } else if class_type == "BoolProperty".to_owned() || class_type == "ObjectProperty".to_owned()
        || class_type == "IntProperty".to_owned() || class_type == "NameProperty".to_owned()
        || class_type == "StrProperty".to_owned() {
        match PropertyExport::from_base(base, asset) {
            Ok(p) => Ok(Export::Property(p)),
            Err(e) => Err(e),
        }
    } else {
        match NormalExport::from_base(base, asset) {
            Ok(n) => Ok(Export::Normal(n)),
            Err(e) => Err(e),
        }
    };
    let decoded = match decoded {
        Ok(d) => d,
        Err(_) => {
            asset.cursor.pos = off;
            return match RawExport::from_unk(*base, asset) {
                Ok(raw) => Ok(Export::Raw(raw)),
                Err(e) => Err(e),
            };
        },
    };
    if asset.cursor.pos > end {
        return Err(Error::SizeMismatch);
    }
    Ok(decoded)
}

/// The bytes of a property-list export's payload.
pub open spec fn normal_bytes(gate: bool, n: NormalModel, names: Seq<Seq<char>>) -> Seq<u8> {
    encode_list(gate, n.properties, names)
}

pub open spec fn struct_bytes(gate: bool, st: StructModel, names: Seq<Seq<char>>) -> Seq<u8> {
    normal_bytes(gate, st.normal_export, names) + le_bytes_u32(st.super_struct.index as u32)
        + le_bytes_u32(st.children.index as u32) + le_bytes_u32(st.script_bytecode.len() as u32)
        + st.script_bytecode
}

pub open spec fn function_bytes(gate: bool, f: FunctionModel, names: Seq<Seq<char>>) -> Seq<u8> {
    struct_bytes(gate, f.struct_export, names) + le_bytes_u32(f.function_flags)
}

pub open spec fn property_export_bytes(
    gate: bool,
    p: PropertyExportModel,
    names: Seq<Seq<char>>,
) -> Seq<u8> {
    normal_bytes(gate, p.normal_export, names) + le_bytes_i32(p.header_word) + uproperty_bytes(
        p.property,
    )
}

/// Whether a property-list payload can be written: the table holds the end marker and
/// every value fits its size field.
pub open spec fn normal_writable(n: NormalModel, names: Seq<Seq<char>>) -> bool {
    has_end_marker(names) && sizes_fit(n.properties)
}

/// Why a property-list payload cannot be written: no end marker in the table, or else a
/// value too large for its size field.
pub open spec fn normal_write_error(n: NormalModel, names: Seq<Seq<char>>) -> Error {
    if !has_end_marker(names) {
        Error::InvalidNameIndex
    } else {
        Error::SizeMismatch
    }
}

/// Why a struct payload cannot be written: script bytecode too long for its length word,
/// or else why its property list cannot be.
pub open spec fn struct_write_error(st: StructModel, names: Seq<Seq<char>>) -> Error {
    if st.script_bytecode.len() > u32::MAX {
        Error::SizeMismatch
    } else {
        normal_write_error(st.normal_export, names)
    }
}

impl NormalExport {
    /// Writes the property list; nothing is written where it cannot be.
    pub fn write(
        &self,
        names: &NameMap,
        custom_versions: &CustomVersionSet,
        out: &mut Vec<u8>,
    ) -> (r: Result<(), Error>)
        requires
            names.wf(),
            custom_versions.wf(),
        ensures
            r is Ok <==> normal_writable(self@, names@),
            r is Ok ==> final(out)@ == old(out)@ + normal_bytes(
                spec_has_property_guid(true, custom_versions.entries@),
                self@,
                names@,
            ),
            r is Err ==> r == Err::<(), Error>(normal_write_error(self@, names@)) && final(out)@ == old(out)@,
    {
        write_property_list(&self.properties, names, custom_versions, true, out)
    }
}

impl StructExport {
    /// Writes the property list, the two references, and the script bytecode with its
    /// length; nothing is written where it cannot be.
    pub fn write(
        &self,
        names: &NameMap,
        custom_versions: &CustomVersionSet,
        out: &mut Vec<u8>,
    ) -> (r: Result<(), Error>)
        requires
            names.wf(),
            custom_versions.wf(),
        ensures
            r is Ok <==> normal_writable(self@.normal_export, names@)
                && self@.script_bytecode.len() <= u32::MAX,
            r is Ok ==> final(out)@ == old(out)@ + struct_bytes(
                spec_has_property_guid(true, custom_versions.entries@),
                self@,
                names@,
            ),
            r is Err ==> r == Err::<(), Error>(struct_write_error(self@, names@)) && final(out)@ == old(out)@,
    {
        if self.script_bytecode.len() > 0xffff_ffffusize {
            return Err(Error::SizeMismatch);
        }
        let ghost before = out@;
        match self.normal_export.write(names, custom_versions, out) {
            Ok(()) => {},
            Err(e) => return Err(e),
        }
        write_i32(out, self.super_struct.index);
        write_i32(out, self.children.index);
        write_u32(out, self.script_bytecode.len() as u32);
        write_bytes(out, &self.script_bytecode);
        assert(out@ =~= before + struct_bytes(
            spec_has_property_guid(true, custom_versions.entries@),
            self@,
            names@,
        ));
        Ok(())
    }
}

impl FunctionExport {
    /// Writes the struct export, then the flag word.
    pub fn write(
        &self,
        names: &NameMap,
        custom_versions: &CustomVersionSet,
        out: &mut Vec<u8>,
    ) -> (r: Result<(), Error>)
        requires
            names.wf(),
            custom_versions.wf(),
        ensures
            r is Ok <==> normal_writable(self@.struct_export.normal_export, names@)
                && self@.struct_export.script_bytecode.len() <= u32::MAX,
            r is Ok ==> final(out)@ == old(out)@ + function_bytes(
                spec_has_property_guid(true, custom_versions.entries@),
                self@,
                names@,
            ),
            r is Err ==> r == Err::<(), Error>(struct_write_error(self@.struct_export, names@))
                && final(out)@ == old(out)@,
    {
        let ghost before = out@;
        match self.struct_export.write(names, custom_versions, out) {
            Ok(()) => {},
            Err(e) => return Err(e),
        }
        write_u32(out, self.function_flags);
        assert(out@ =~= before + function_bytes(
            spec_has_property_guid(true, custom_versions.entries@),
            self@,
            names@,
        ));
        Ok(())
    }
}

impl PropertyExport {
    /// Writes the property list, the word read with it, and the descriptor.
    pub fn write(
        &self,
        names: &NameMap,
        custom_versions: &CustomVersionSet,
        out: &mut Vec<u8>,
    ) -> (r: Result<(), Error>)
        requires
            names.wf(),
            custom_versions.wf(),
        ensures
            r is Ok <==> normal_writable(self@.normal_export, names@),
            r is Ok ==> final(out)@ == old(out)@ + property_export_bytes(
                spec_has_property_guid(true, custom_versions.entries@),
                self@,
                names@,
            ),
            r is Err ==> r == Err::<(), Error>(normal_write_error(self@.normal_export, names@))
                && final(out)@ == old(out)@,
    {
        let ghost before = out@;
        match self.normal_export.write(names, custom_versions, out) {
            Ok(()) => {},
            Err(e) => return Err(e),
        }
        write_i32(out, self.header_word);
        self.property.write(out);
        assert(out@ =~= before + property_export_bytes(
            spec_has_property_guid(true, custom_versions.entries@),
            self@,
            names@,
        ));
        Ok(())
    }
}

/// The `count` export headers that stand one after another from `at`.
pub open spec fn parse_export_table(s: Seq<u8>, at: int, count: nat) -> Result<Seq<BaseExport>, Error>
    decreases count,
{
    if count == 0 {
        Ok(Seq::empty())
    } else {
        match parse_export_table(s, at, (count - 1) as nat) {
            Err(e) => Err(e),
            Ok(es) => match parse_base_export(s, at + 32 * (count - 1)) {
                Err(e) => Err(e),
                Ok((e, _)) => Ok(es.push(e)),
            },
        }
    }
}

impl AssetReader {
    /// Reads the export table: `count` headers from the cursor on, in file order.
    pub fn read_export_table(&mut self, count: usize) -> (r: Result<Vec<BaseExport>, Error>)
        requires
            old(self).wf(),
        ensures
            final(self).wf(),
            final(self).same_context(old(self)),
            match r {
                Ok(v) => parse_export_table(old(self).bytes(), old(self).cursor.pos as int, count as nat)
                    == Ok::<Seq<BaseExport>, Error>(v@),
                Err(e) => parse_export_table(old(self).bytes(), old(self).cursor.pos as int, count as nat)
                    == Err::<Seq<BaseExport>, Error>(e),
            },
    {
        let ghost at0 = self.cursor.pos as int;
        let mut out: Vec<BaseExport> = Vec::new();
        let mut i: usize = 0;
        while i < count
            invariant
                self.wf(),
                self.same_context(old(self)),
                at0 == old(self).cursor.pos as int,
                i <= count,
                self.cursor.pos == at0 + 32 * i,
                parse_export_table(self.bytes(), at0, i as nat) == Ok::<Seq<BaseExport>, Error>(out@),
            decreases count - i,
        {
            match BaseExport::read(&mut self.cursor) {
                Ok(e) => {
                    out.push(e);
                },
                Err(err) => {
                    assert(parse_export_table(self.bytes(), at0, (i + 1) as nat) == Err::<
                        Seq<BaseExport>,
                        Error,
                    >(err));
                    proof {
                        lemma_export_table_stops(self.bytes(), at0, (i + 1) as nat, count as nat);
                    }
                    return Err(err);
                },
            }
            i = i + 1;
        }
        Ok(out)
    }
}

/// Once a header fails to read, every longer table fails with the same error.
proof fn lemma_export_table_stops(s: Seq<u8>, at: int, k: nat, count: nat)
    requires
        k <= count,
        parse_export_table(s, at, k) is Err,
    ensures
        parse_export_table(s, at, count) == parse_export_table(s, at, k),
    decreases count - k,
{
    if k < count {
        lemma_export_table_stops(s, at, k, (count - 1) as nat);
    }
}

/// Decodes the payload of each export of the table, in table order. The first export
/// that fails to decode fails the whole table.
pub fn read_exports(bases: &Vec<BaseExport>, asset: &mut AssetReader) -> (r: Result<Vec<Export>, Error>)
    requires
        old(asset).wf(),
    ensures
        final(asset).wf(),
        final(asset).same_context(old(asset)),
        r is Ok <==> forall|i: int|
            0 <= i < bases@.len() ==> (#[trigger] parse_export(
                bases@[i],
                old(asset).names@,
                export_gate(old(asset)),
                old(asset).spec_class_type(bases@[i].class_index),
                old(asset).bytes(),
            )) is Ok,
        r matches Ok(v) ==> v@.len() == bases@.len() && forall|i: int|
            0 <= i < bases@.len() ==> Ok::<ExportModel, Error>((#[trigger] v@[i])@) == parse_export(
                bases@[i],
                old(asset).names@,
                export_gate(old(asset)),
                old(asset).spec_class_type(bases@[i].class_index),
                old(asset).bytes(),
            ),
        r matches Err(e) ==> exists|i: int|
            0 <= i < bases@.len() && (#[trigger] parse_export(
                bases@[i],
                old(asset).names@,
                export_gate(old(asset)),
                old(asset).spec_class_type(bases@[i].class_index),
                old(asset).bytes(),
            )) == Err::<ExportModel, Error>(e),
{
    let mut out: Vec<Export> = Vec::new();
    let mut i: usize = 0;
    while i < bases.len()
        invariant
            asset.wf(),
            asset.same_context(old(asset)),
            i <= bases@.len(),
            out@.len() == i,
            forall|j: int|
                0 <= j < i ==> Ok::<ExportModel, Error>((#[trigger] out@[j])@) == parse_export(
                    bases@[j],
                    old(asset).names@,
                    export_gate(old(asset)),
                    old(asset).spec_class_type(bases@[j].class_index),
                    old(asset).bytes(),
                ),
        decreases bases@.len() - i,
    {
        match read_export(&bases[i], asset) {
            Ok(e) => {
                out.push(e);
            },
            Err(err) => {
                assert(parse_export(
                    bases@[i as int],
                    old(asset).names@,
                    export_gate(old(asset)),
                    old(asset).spec_class_type(bases@[i as int].class_index),
                    old(asset).bytes(),
                ) == Err::<ExportModel, Error>(err));
                return Err(err);
            },
        }
        i = i + 1;
    }
    assert forall|j: int| 0 <= j < bases@.len() implies (#[trigger] parse_export(
        bases@[j],
        old(asset).names@,
        export_gate(old(asset)),
        old(asset).spec_class_type(bases@[j].class_index),
        old(asset).bytes(),
    )) is Ok by {
        assert(Ok::<ExportModel, Error>(out@[j]@) == parse_export(
            bases@[j],
            old(asset).names@,
            export_gate(old(asset)),
            old(asset).spec_class_type(bases@[j].class_index),
            old(asset).bytes(),
        ));
    }
    Ok(out)
}

/// The object name of each header, in table order: what resolving a class reference
/// to an export needs.
pub fn export_names_of(bases: &Vec<BaseExport>) -> (r: Vec<FName>)
    ensures
        r@.len() == bases@.len(),
        forall|i: int| 0 <= i < bases@.len() ==> r@[i] == bases@[i].object_name,
{
    let mut out: Vec<FName> = Vec::new();
    let mut i: usize = 0;
    while i < bases.len()
        invariant
            i <= bases@.len(),
            out@.len() == i,
            forall|j: int| 0 <= j < i ==> out@[j] == bases@[j].object_name,
        decreases bases@.len() - i,
    {
        out.push(bases[i].object_name);
        i = i + 1;
    }
    out
}

/// Writing an export header and reading the bytes back gives the same header.
#[verifier::spinoff_prover]
#[verifier::rlimit(40)]
pub proof fn lemma_base_export_round_trip(e: BaseExport)
    ensures
        parse_base_export(base_export_bytes(e), 0) == Ok::<(BaseExport, int), Error>((e, 32)),
{
    let b = base_export_bytes(e);
    assert(b.subrange(0, 4) =~= le_bytes_u32(e.class_index.index as u32));
    assert(b.subrange(4, 8) =~= le_bytes_u32(e.super_index.index as u32));
    assert(b.subrange(8, 12) =~= le_bytes_u32(e.outer_index.index as u32));
    assert(b.subrange(12, 20) =~= fname_bytes(e.object_name));
    assert(b.subrange(20, 24) =~= le_bytes_u32(e.object_flags));
    assert(b.subrange(24, 28) =~= le_bytes_u32(e.serial_size));
    assert(b.subrange(28, 32) =~= le_bytes_u32(e.serial_offset));
    lemma_i32_at(b, 0, e.class_index.index);
    lemma_i32_at(b, 4, e.super_index.index);
    lemma_i32_at(b, 8, e.outer_index.index);
    lemma_fname_at(b, 12, e.object_name);
    lemma_u32_at(b, 20, e.object_flags);
    lemma_u32_at(b, 24, e.serial_size);
    lemma_u32_at(b, 28, e.serial_offset);
}

/// Writing a function export whose properties decoding can give, and reading the bytes
/// back as a function export with the same header, gives the same export.
#[verifier::spinoff_prover]
#[verifier::rlimit(60)]
pub proof fn lemma_function_round_trip(names: Seq<Seq<char>>, gate: bool, f: FunctionModel)
    requires
        has_end_marker(names),
        forall|i: int|
            0 <= i < f.struct_export.normal_export.properties.len() ==> property_wf(
                names,
                gate,
                #[trigger] f.struct_export.normal_export.properties[i],
            ),
        f.struct_export.script_bytecode.len() <= u32::MAX,
        f.function_flags & !FUNCTION_FLAGS_DEFINED == 0,
        function_bytes(gate, f, names).len() <= f.struct_export.normal_export.base_export.serial_size,
    ensures
        parse_function(
            f.struct_export.normal_export.base_export,
            names,
            gate,
            function_bytes(gate, f, names),
            0,
        ) == Ok::<(FunctionModel, int), Error>((f, function_bytes(gate, f, names).len() as int)),
{
    let st = f.struct_export;
    let n = st.normal_export;
    let enc = encode_list(gate, n.properties, names);
    let s = function_bytes(gate, f, names);
    let l = enc.len() as int;
    let c = st.script_bytecode.len() as int;
    assert(s.subrange(0, l) =~= enc);
    lemma_property_list_round_trip(names, gate, n.properties, s, 0);
    assert(s.subrange(l, l + 4) =~= le_bytes_u32(st.super_struct.index as u32));
    lemma_i32_at(s, l, st.super_struct.index);
    assert(s.subrange(l + 4, l + 8) =~= le_bytes_u32(st.children.index as u32));
    lemma_i32_at(s, l + 4, st.children.index);
    assert(s.subrange(l + 8, l + 12) =~= le_bytes_u32(c as u32));
    lemma_u32_at(s, l + 8, c as u32);
    assert(s.subrange(l + 12, l + 12 + c) =~= st.script_bytecode);
    assert(s.subrange(l + 12 + c, l + 16 + c) =~= le_bytes_u32(f.function_flags));
    lemma_u32_at(s, l + 12 + c, f.function_flags);
}

/// Writing a decoded function export gives back exactly the bytes it was read from.
#[verifier::spinoff_prover]
#[verifier::rlimit(60)]
pub proof fn lemma_decoded_function_bytes(
    base: BaseExport,
    names: Seq<Seq<char>>,
    gate: bool,
    s: Seq<u8>,
    at: int,
)
    requires
        no_duplicates(names),
        0 <= at,
    ensures
        parse_function(base, names, gate, s, at) matches Ok((f, p)) ==> function_bytes(gate, f, names)
            == s.subrange(at, p),
{
    if let Ok((f, p)) = parse_function(base, names, gate, s, at) {
        lemma_decoded_list_bytes(names, gate, s, at);
        lemma_parse_list_bounds(names, gate, s, at);
        let q = match parse_list(names, gate, s, at) {
            Ok((_, q)) => q,
            Err(_) => 0,
        };
        let x = u32_at(s, q);
        let y = u32_at(s, q + 4);
        assert((x as i32) as u32 == x) by (bit_vector);
        assert((y as i32) as u32 == y) by (bit_vector);
        lemma_u32_bytes_round_trip(s, q);
        lemma_u32_bytes_round_trip(s, q + 4);
        lemma_u32_bytes_round_trip(s, q + 8);
        let c = u32_at(s, q + 8) as int;
        lemma_u32_bytes_round_trip(s, q + 12 + c);
        assert(function_bytes(gate, f, names) =~= s.subrange(at, p));
    }
}

/// Writing a decoded descriptor gives back exactly the bytes it was read from.
#[verifier::spinoff_prover]
#[verifier::rlimit(60)]
proof fn lemma_decoded_uproperty_bytes(t: Seq<char>, s: Seq<u8>, at: int)
    requires
        0 <= at,
    ensures
        parse_uproperty(t, s, at) matches Ok((u, p)) ==> uproperty_bytes(u) == s.subrange(at, p),
{
    if let Ok((u, p)) = parse_uproperty(t, s, at) {
        let a = u32_at(s, at);
        assert((a as i32) as u32 == a) by (bit_vector);
        lemma_u32_bytes_round_trip(s, at);
        let lo = u32_at(s, at + 4);
        let hi = u32_at(s, at + 8);
        let f = u64_at(s, at + 4);
        assert(f as int == hi as int * 0x1_0000_0000 + lo as int);
        lemma_fundamental_div_mod_converse(f as int, 0x1_0000_0000, hi as int, lo as int);
        lemma_u32_bytes_round_trip(s, at + 4);
        lemma_u32_bytes_round_trip(s, at + 8);
        lemma_fname_bytes_round_trip(s, at + 12);
        if t == "ObjectProperty"@ && t != "BoolProperty"@ {
            let c = u32_at(s, at + 20);
            assert((c as i32) as u32 == c) by (bit_vector);
            lemma_u32_bytes_round_trip(s, at + 20);
        }
        assert(uproperty_bytes(u) =~= s.subrange(at, p));
    }
}

/// Writing a decoded property export gives back exactly the bytes it was read from.
#[verifier::spinoff_prover]
#[verifier::rlimit(60)]
pub proof fn lemma_decoded_property_export_bytes(
    base: BaseExport,
    names: Seq<Seq<char>>,
    gate: bool,
    class_type: Option<Seq<char>>,
    s: Seq<u8>,
    at: int,
)
    requires
        no_duplicates(names),
        0 <= at,
    ensures
        parse_property_export(base, names, gate, class_type, s, at) matches Ok((m, p))
            ==> property_export_bytes(gate, m, names) == s.subrange(at, p),
{
    if let Ok((m, p)) = parse_property_export(base, names, gate, class_type, s, at) {
        lemma_decoded_list_bytes(names, gate, s, at);
        lemma_parse_list_bounds(names, gate, s, at);
        let q = match parse_list(names, gate, s, at) {
            Ok((_, q)) => q,
            Err(_) => 0,
        };
        let w = u32_at(s, q);
        assert((w as i32) as u32 == w) by (bit_vector);
        lemma_u32_bytes_round_trip(s, q);
        lemma_decoded_uproperty_bytes(class_type->Some_0, s, q + 4);
        assert(property_export_bytes(gate, m, names) =~= s.subrange(at, p));
    }
}

/// A function export whose property list holds one property of a type that no decoder
/// knows, beside properties that decoding can give, reads back in full: that property as
/// its raw bytes, and every sibling as it was written.
pub proof fn lemma_function_unknown_type(
    names: Seq<Seq<char>>,
    gate: bool,
    f: FunctionModel,
    k: int,
    b: Seq<u8>,
)
    requires
        has_end_marker(names),
        0 <= k < f.struct_export.normal_export.properties.len(),
        forall|i: int|
            0 <= i < f.struct_export.normal_export.properties.len() && i != k ==> property_wf(
                names,
                gate,
                #[trigger] f.struct_export.normal_export.properties[i],
            ),
        0 <= f.struct_export.normal_export.properties[k].name.index < names.len(),
        !(names[f.struct_export.normal_export.properties[k].name.index as int] == none_str()
            && f.struct_export.normal_export.properties[k].name.number == 0),
        0 <= f.struct_export.normal_export.properties[k].property_type.index < names.len(),
        is_unknown_type(
            names[f.struct_export.normal_export.properties[k].property_type.index as int],
        ),
        f.struct_export.normal_export.properties[k].value == ValueModel::Raw(b),
        b.len() <= i32::MAX,
        !gate ==> f.struct_export.normal_export.properties[k].property_guid is None,
        f.struct_export.script_bytecode.len() <= u32::MAX,
        f.function_flags & !FUNCTION_FLAGS_DEFINED == 0,
        function_bytes(gate, f, names).len() <= f.struct_export.normal_export.base_export.serial_size,
    ensures
        parse_function(
            f.struct_export.normal_export.base_export,
            names,
            gate,
            function_bytes(gate, f, names),
            0,
        ) == Ok::<(FunctionModel, int), Error>((f, function_bytes(gate, f, names).len() as int)),
{
    let ms = f.struct_export.normal_export.properties;
    lemma_unknown_type_property_wf(names, gate, ms[k], b);
    assert forall|i: int| 0 <= i < ms.len() implies property_wf(names, gate, #[trigger] ms[i]) by {
        if i == k {
        }
    }
    lemma_function_round_trip(names, gate, f);
}

/// Whether a descriptor's layout is the one its class gives.
pub open spec fn kind_fits_class(t: Seq<char>, kind: UPropertyKind) -> bool {
    if t == "BoolProperty"@ {
        kind is Bool
    } else if t == "ObjectProperty"@ {
        kind is Object
    } else {
        kind is Generic
    }
}

/// The bytes of a descriptor read back as it, where its layout is the one its class gives.
#[verifier::spinoff_prover]
#[verifier::rlimit(60)]
proof fn lemma_uproperty_round_trip(t: Seq<char>, u: UProperty, s: Seq<u8>, at: int)
    requires
        kind_fits_class(t, u.kind),
        0 <= at,
        at + uproperty_bytes(u).len() <= s.len(),
        s.subrange(at, at + uproperty_bytes(u).len()) == uproperty_bytes(u),
    ensures
        parse_uproperty(t, s, at) == Ok::<(UProperty, int), Error>(
            (u, at + uproperty_bytes(u).len()),
        ),
{
    let e = uproperty_bytes(u);
    let w = s.subrange(at, at + e.len());
    let f = u.property_flags;
    let lo = (f % 0x1_0000_0000) as u32;
    let hi = (f / 0x1_0000_0000) as u32;
    assert(s.subrange(at, at + 4) =~= w.subrange(0, 4));
    assert(e.subrange(0, 4) =~= le_bytes_u32(u.array_dim as u32));
    lemma_i32_at(s, at, u.array_dim);
    assert(s.subrange(at + 4, at + 8) =~= w.subrange(4, 8));
    assert(e.subrange(4, 8) =~= le_bytes_u32(lo));
    lemma_u32_at(s, at + 4, lo);
    assert(s.subrange(at + 8, at + 12) =~= w.subrange(8, 12));
    assert(e.subrange(8, 12) =~= le_bytes_u32(hi));
    lemma_u32_at(s, at + 8, hi);
    assert(s.subrange(at + 12, at + 20) =~= w.subrange(12, 20));
    assert(e.subrange(12, 20) =~= fname_bytes(u.rep_notify_func));
    lemma_fname_at(s, at + 12, u.rep_notify_func);
    lemma_fundamental_div_mod(f as int, 0x1_0000_0000);
    assert(u64_at(s, at + 4) == f);
    match u.kind {
        UPropertyKind::Bool { element_size, native_bool } => {
            assert(s[at + 20] == w[20] && s[at + 21] == w[21]);
        },
        UPropertyKind::Object { property_class } => {
            assert(s.subrange(at + 20, at + 24) =~= w.subrange(20, 24));
            assert(e.subrange(20, 24) =~= le_bytes_u32(property_class.index as u32));
            lemma_i32_at(s, at + 20, property_class.index);
        },
        UPropertyKind::Generic => {},
    }
}

/// Writing a property export whose properties decoding can give and whose descriptor has
/// its class's layout, then reading the bytes back with that class, gives the same export.
#[verifier::spinoff_prover]
#[verifier::rlimit(60)]
pub proof fn lemma_property_export_round_trip(
    names: Seq<Seq<char>>,
    gate: bool,
    t: Seq<char>,
    p: PropertyExportModel,
)
    requires
        has_end_marker(names),
        forall|i: int|
            0 <= i < p.normal_export.properties.len() ==> property_wf(
                names,
                gate,
                #[trigger] p.normal_export.properties[i],
            ),
        kind_fits_class(t, p.property.kind),
    ensures
        parse_property_export(
            p.normal_export.base_export,
            names,
            gate,
            Some(t),
            property_export_bytes(gate, p, names),
            0,
        ) == Ok::<(PropertyExportModel, int), Error>(
            (p, property_export_bytes(gate, p, names).len() as int),
        ),
{
    let enc = encode_list(gate, p.normal_export.properties, names);
    let s = property_export_bytes(gate, p, names);
    let l = enc.len() as int;
    let ub = uproperty_bytes(p.property);
    assert(s.subrange(0, l) =~= enc);
    lemma_property_list_round_trip(names, gate, p.normal_export.properties, s, 0);
    assert(s.subrange(l, l + 4) =~= le_bytes_i32(p.header_word));
    lemma_i32_at(s, l, p.header_word);
    assert(s.subrange(l + 4, l + 4 + ub.len()) =~= ub);
    lemma_uproperty_round_trip(t, p.property, s, l + 4);
}

/// A property export whose property list holds one property of a type that no decoder
/// knows, beside properties that decoding can give, reads back in full: that property as
/// its raw bytes, and every sibling and the descriptor as they were written.
pub proof fn lemma_property_export_unknown_type(
    names: Seq<Seq<char>>,
    gate: bool,
    t: Seq<char>,
    p: PropertyExportModel,
    k: int,
    b: Seq<u8>,
)
    requires
        has_end_marker(names),
        0 <= k < p.normal_export.properties.len(),
        forall|i: int|
            0 <= i < p.normal_export.properties.len() && i != k ==> property_wf(
                names,
                gate,
                #[trigger] p.normal_export.properties[i],
            ),
        0 <= p.normal_export.properties[k].name.index < names.len(),
        !(names[p.normal_export.properties[k].name.index as int] == none_str()
            && p.normal_export.properties[k].name.number == 0),
        0 <= p.normal_export.properties[k].property_type.index < names.len(),
        is_unknown_type(names[p.normal_export.properties[k].property_type.index as int]),
        p.normal_export.properties[k].value == ValueModel::Raw(b),
        b.len() <= i32::MAX,
        !gate ==> p.normal_export.properties[k].property_guid is None,
        kind_fits_class(t, p.property.kind),
    ensures
        parse_property_export(
            p.normal_export.base_export,
            names,
            gate,
            Some(t),
            property_export_bytes(gate, p, names),
            0,
        ) == Ok::<(PropertyExportModel, int), Error>(
            (p, property_export_bytes(gate, p, names).len() as int),
        ),
{
    let ms = p.normal_export.properties;
    lemma_unknown_type_property_wf(names, gate, ms[k], b);
    assert forall|i: int| 0 <= i < ms.len() implies property_wf(names, gate, #[trigger] ms[i]) by {
        if i == k {
        }
    }
    lemma_property_export_round_trip(names, gate, t, p);
}

} // verus!
