//! Property values: the GUID property and the tagged property list, whose unknown or
//! malformed values fall back to their raw bytes.
use vstd::prelude::*;

use crate::archive::{
    i32_at, le_bytes_i32, lemma_i32_at, lemma_u32_bytes_round_trip, u32_at, write_bytes, write_i32,
    write_u8, Reader,
};
use crate::asset::{outcome, AssetReader};
use crate::custom_version::{
    has_key, spec_has_property_guid, spec_property_guid_feature, CustomVersion, CustomVersionSet,
};
use crate::error::Error;
use crate::names::{contains_name, no_duplicates, NameMap};
use crate::types::{
    fname_at, fname_bytes, guid_at, guid_bytes, lemma_fname_at, lemma_fname_bytes_round_trip, lemma_guid_at,
    lemma_guid_bytes_round_trip, write_fname, write_guid,
    FName, Guid,
};

verus! {

/// The optional identifier of a property header, where `gate` says the layout has one:
/// a flag byte of zero or one, then sixteen bytes where the flag is one.
pub open spec fn parse_optional_guid(gate: bool, s: Seq<u8>, at: int) -> Result<(Option<Guid>, int), Error> {
    if !gate {
        Ok((None, at))
    } else if at + 1 > s.len() {
        Err(Error::UnexpectedEof { offset: at as usize })
    } else if s[at] == 0 {
        Ok((None, at + 1))
    } else if s[at] > 1 {
        Err(Error::InvalidFlags)
    } else if at + 17 > s.len() {
        Err(Error::UnexpectedEof { offset: (at + 1) as usize })
    } else {
        Ok((Some(guid_at(s, at + 1)), at + 17))
    }
}

/// The bytes of an optional identifier under `gate`.
pub open spec fn optional_guid_bytes(gate: bool, g: Option<Guid>) -> Seq<u8> {
    if !gate {
        Seq::empty()
    } else {
        match g {
            None => seq![0u8],
            Some(g) => seq![1u8] + guid_bytes(g),
        }
    }
}

impl AssetReader {
    /// Reads the optional identifier of a property header; the layout has one only where
    /// `include_header` holds and the property-identifier feature is registered.
    pub fn read_optional_guid(&mut self, include_header: bool) -> (r: Result<Option<Guid>, Error>)
        requires
            old(self).wf(),
        ensures
            final(self).wf(),
            final(self).same_context(old(self)),
            outcome(r, final(self).cursor.pos) == parse_optional_guid(
                spec_has_property_guid(include_header, old(self).custom_versions.entries@),
                old(self).bytes(),
                old(self).cursor.pos as int,
            ),
    {
        if !self.custom_versions.has_property_guid(include_header) {
            return Ok(None);
        }
        let flag = match self.cursor.read_u8() {
            Ok(b) => b,
            Err(e) => return Err(e),
        };
        if flag == 0 {
            return Ok(None);
        }
        if flag > 1 {
            return Err(Error::InvalidFlags);
        }
        match self.cursor.read_guid() {
            Ok(g) => Ok(Some(g)),
            Err(e) => Err(e),
        }
    }
}

/// Appends an optional identifier under `gate`; nothing where the layout has none.
pub fn write_optional_guid(out: &mut Vec<u8>, gate: bool, g: Option<Guid>)
    ensures
        final(out)@ == old(out)@ + optional_guid_bytes(gate, g),
{
    let ghost before = out@;
    if gate {
        match g {
            None => {
                write_u8(out, 0);
            },
            Some(g) => {
                write_u8(out, 1);
                write_guid(out, g);
            },
        }
    }
    assert(out@ =~= before + optional_guid_bytes(gate, g));
}

/// A property that holds an identifier.
#[derive(Debug, Clone, Copy, PartialEq, Eq, Structural)]
pub struct GuidProperty {
    pub name: FName,
    pub property_guid: Option<Guid>,
    pub value: Guid,
}

/// The GUID property named `name` whose header part starts at `at`.
pub open spec fn parse_guid_property(name: FName, gate: bool, s: Seq<u8>, at: int) -> Result<
    (GuidProperty, int),
    Error,
> {
    match parse_optional_guid(gate, s, at) {
        Err(e) => Err(e),
        Ok((pg, p)) => if p + 16 <= s.len() {
            Ok((GuidProperty { name, property_guid: pg, value: guid_at(s, p) }, p + 16))
        } else {
            Err(Error::UnexpectedEof { offset: p as usize })
        },
    }
}

impl GuidProperty {
    /// Reads the optional header identifier, then the sixteen-byte value.
    pub fn new(name: FName, asset: &mut AssetReader, include_header: bool) -> (r: Result<GuidProperty, Error>)
        requires
            old(asset).wf(),
        ensures
            final(asset).wf(),
            final(asset).same_context(old(asset)),
            outcome(r, final(asset).cursor.pos) == parse_guid_property(
                name,
                spec_has_property_guid(include_header, old(asset).custom_versions.entries@),
                old(asset).bytes(),
                old(asset).cursor.pos as int,
            ),
    {
        let property_guid = match asset.read_optional_guid(include_header) {
            Ok(g) => g,
            Err(e) => return Err(e),
        };
        match asset.cursor.read_guid() {
            Ok(value) => Ok(GuidProperty { name, property_guid, value }),
            Err(e) => Err(e),
        }
    }

    /// Writes the optional header identifier under `gate`, then the value.
    pub fn write(&self, out: &mut Vec<u8>, gate: bool)
        ensures
            final(out)@ == old(out)@ + optional_guid_bytes(gate, self.property_guid) + guid_bytes(
                self.value,
            ),
    {
        let ghost before = out@;
        write_optional_guid(out, gate, self.property_guid);
        write_guid(out, self.value);
        assert(out@ =~= before + optional_guid_bytes(gate, self.property_guid) + guid_bytes(self.value));
    }
}


/// The value of one property in a tagged list.
#[derive(Debug, Clone, PartialEq, Eq)]
pub enum PropertyValue {
    Guid(Guid),
    Int(i32),
    Bool(bool),
    Name(FName),
    /// The bytes of a value whose type is unknown or whose bytes do not fit its type.
    Raw(Vec<u8>),
}

/// A property value as contracts speak of it.
pub enum ValueModel {
    Guid(Guid),
    Int(i32),
    Bool(bool),
    Name(FName),
    Raw(Seq<u8>),
}

impl View for PropertyValue {
    type V = ValueModel;

    open spec fn view(&self) -> ValueModel {
        match self {
            PropertyValue::Guid(g) => ValueModel::Guid(*g),
            PropertyValue::Int(i) => ValueModel::Int(*i),
            PropertyValue::Bool(b) => ValueModel::Bool(*b),
            PropertyValue::Name(n) => ValueModel::Name(*n),
            PropertyValue::Raw(b) => ValueModel::Raw(b@),
        }
    }
}

/// One entry of a tagged property list.
#[derive(Debug, Clone, PartialEq, Eq)]
pub struct Property {
    pub name: FName,
    pub property_type: FName,
    pub property_guid: Option<Guid>,
    pub value: PropertyValue,
}

pub struct PropertyModel {
    pub name: FName,
    pub property_type: FName,
    pub property_guid: Option<Guid>,
    pub value: ValueModel,
}

impl View for Property {
    type V = PropertyModel;

    open spec fn view(&self) -> PropertyModel {
        PropertyModel {
            name: self.name,
            property_type: self.property_type,
            property_guid: self.property_guid,
            value: self.value@,
        }
    }
}

/// The name that ends a property list.
pub open spec fn none_str() -> Seq<char> {
    "None"@
}

/// What the bytes `b` of a value of type `t` decode to, with `n_names` entries in the
/// name table: a typed value where the type is known and the bytes fit it, the bytes
/// themselves otherwise.
pub open spec fn decode_value(t: Seq<char>, b: Seq<u8>, n_names: nat) -> ValueModel {
    if t == "GuidProperty"@ && b.len() == 16 {
        ValueModel::Guid(guid_at(b, 0))
    } else if t == "IntProperty"@ && b.len() == 4 {
        ValueModel::Int(i32_at(b, 0))
    } else if t == "BoolProperty"@ && b.len() == 1 && b[0] <= 1 {
        ValueModel::Bool(b[0] == 1)
    } else if t == "NameProperty"@ && b.len() == 8 && 0 <= fname_at(b, 0).index < n_names {
        ValueModel::Name(fname_at(b, 0))
    } else {
        ValueModel::Raw(b)
    }
}

/// The bytes of a value.
pub open spec fn value_bytes(v: ValueModel) -> Seq<u8> {
    match v {
        ValueModel::Guid(g) => guid_bytes(g),
        ValueModel::Int(i) => le_bytes_i32(i),
        ValueModel::Bool(b) => seq![if b { 1u8 } else { 0u8 }],
        ValueModel::Name(n) => fname_bytes(n),
        ValueModel::Raw(b) => b,
    }
}

/// Decodes the bytes of a value of type `t`, keeping them raw where the type is unknown
/// or the bytes do not fit it.
pub fn decode_value_bytes(t: &String, bytes: Vec<u8>, names: &NameMap) -> (r: PropertyValue)
    ensures
        r@ == decode_value(t@, bytes@, names@.len()),
{
    let len = bytes.len();
    if len == 16 && *t == "GuidProperty".to_owned() {
        let mut rd = Reader::new(bytes);
        match rd.read_guid() {
            Ok(g) => PropertyValue::Guid(g),
            Err(_) => PropertyValue::Raw(rd.data),
        }
    } else if len == 4 && *t == "IntProperty".to_owned() {
        let mut rd = Reader::new(bytes);
        match rd.read_i32() {
            Ok(i) => PropertyValue::Int(i),
            Err(_) => PropertyValue::Raw(rd.data),
        }
    } else if len == 1 && bytes[0] <= 1 && *t == "BoolProperty".to_owned() {
        PropertyValue::Bool(bytes[0] == 1)
    } else if len == 8 && *t == "NameProperty".to_owned() {
        let mut rd = Reader::new(bytes);
        match rd.read_fname() {
            Ok(n) => if n.index >= 0 && (n.index as usize) < names.len() {
                PropertyValue::Name(n)
            } else {
                PropertyValue::Raw(rd.data)
            },
            Err(_) => PropertyValue::Raw(rd.data),
        }
    } else {
        PropertyValue::Raw(bytes)
    }
}

/// The bytes of a value, as they are written.
pub fn encode_value(v: &PropertyValue) -> (r: Vec<u8>)
    ensures
        r@ == value_bytes(v@),
{
    let mut out: Vec<u8> = Vec::new();
    match v {
        PropertyValue::Guid(g) => write_guid(&mut out, *g),
        PropertyValue::Int(i) => write_i32(&mut out, *i),
        PropertyValue::Bool(b) => write_u8(&mut out, if *b { 1u8 } else { 0u8 }),
        PropertyValue::Name(n) => write_fname(&mut out, *n),
        PropertyValue::Raw(b) => write_bytes(&mut out, b),
    }
    assert(out@ =~= value_bytes(v@));
    out
}

/// One property of a tagged list starting at `at`: `None` where the list's end marker,
/// the name "None" with instance number zero, stands there. A property is its name, its type name, the size of its value, the
/// optional header identifier, and the value.
#[verifier::opaque]
pub open spec fn parse_property(names: Seq<Seq<char>>, gate: bool, s: Seq<u8>, at: int) -> Result<
    (Option<PropertyModel>, int),
    Error,
> {
    if at + 8 > s.len() {
        Err(Error::UnexpectedEof { offset: at as usize })
    } else if !(0 <= fname_at(s, at).index < names.len()) {
        Err(Error::InvalidNameIndex)
    } else if names[fname_at(s, at).index as int] == none_str() && fname_at(s, at).number == 0 {
        Ok((None, at + 8))
    } else if at + 16 > s.len() {
        Err(Error::UnexpectedEof { offset: (at + 8) as usize })
    } else if !(0 <= fname_at(s, at + 8).index < names.len()) {
        Err(Error::InvalidNameIndex)
    } else if at + 20 > s.len() {
        Err(Error::UnexpectedEof { offset: (at + 16) as usize })
    } else if i32_at(s, at + 16) < 0 {
        Err(Error::SizeMismatch)
    } else {
        match parse_optional_guid(gate, s, at + 20) {
            Err(e) => Err(e),
            Ok((pg, p)) => if p + i32_at(s, at + 16) > s.len() {
                Err(Error::UnexpectedEof { offset: p as usize })
            } else {
                Ok(
                    (
                        Some(
                            PropertyModel {
                                name: fname_at(s, at),
                                property_type: fname_at(s, at + 8),
                                property_guid: pg,
                                value: decode_value(
                                    names[fname_at(s, at + 8).index as int],
                                    s.subrange(p, p + i32_at(s, at + 16)),
                                    names.len(),
                                ),
                            },
                        ),
                        p + i32_at(s, at + 16),
                    ),
                )
            },
        }
    }
}

/// The properties of a tagged list starting at `at`, up to and including its end marker.
pub open spec fn parse_list(names: Seq<Seq<char>>, gate: bool, s: Seq<u8>, at: int) -> Result<
    (Seq<PropertyModel>, int),
    Error,
>
    decreases s.len() - at,
{
    match parse_property(names, gate, s, at) {
        Err(e) => Err(e),
        Ok((None, p)) => Ok((Seq::empty(), p)),
        Ok((Some(m), p)) => if at < p <= s.len() {
            match parse_list(names, gate, s, p) {
                Err(e) => Err(e),
                Ok((rest, q)) => Ok((seq![m] + rest, q)),
            }
        } else {
            Err(Error::SizeMismatch)
        },
    }
}

/// A property that is not the end marker takes up at least one byte.
pub proof fn lemma_parse_list_step(
    names: Seq<Seq<char>>,
    gate: bool,
    s: Seq<u8>,
    at: int,
    m: PropertyModel,
    p: int,
)
    requires
        parse_property(names, gate, s, at) == Ok::<(Option<PropertyModel>, int), Error>(
            (Some(m), p),
        ),
    ensures
        at < p <= s.len(),
        parse_list(names, gate, s, at) == match parse_list(names, gate, s, p) {
            Ok((rest, q)) => Ok((seq![m] + rest, q)),
            Err(e) => Err(e),
        },
{
    reveal(parse_property);
}

/// A list ends where its end marker is read, and fails where its next property fails.
pub proof fn lemma_parse_list_stop(names: Seq<Seq<char>>, gate: bool, s: Seq<u8>, at: int)
    ensures
        parse_property(names, gate, s, at) matches Ok((None, p)) ==> parse_list(names, gate, s, at)
            == Ok::<(Seq<PropertyModel>, int), Error>((Seq::empty(), p)),
        parse_property(names, gate, s, at) matches Err(e) ==> parse_list(names, gate, s, at)
            == Err::<(Seq<PropertyModel>, int), Error>(e),
{
}

/// The models of a sequence of properties.
pub open spec fn models(v: Seq<Property>) -> Seq<PropertyModel> {
    v.map_values(|p: Property| p@)
}

pub open spec fn property_outcome(r: Result<Option<Property>, Error>, pos: usize) -> Result<
    (Option<PropertyModel>, int),
    Error,
> {
    match r {
        Ok(Some(p)) => Ok((Some(p@), pos as int)),
        Ok(None) => Ok((None, pos as int)),
        Err(e) => Err(e),
    }
}

pub open spec fn list_outcome(r: Result<Vec<Property>, Error>, pos: usize) -> Result<
    (Seq<PropertyModel>, int),
    Error,
> {
    match r {
        Ok(v) => Ok((models(v@), pos as int)),
        Err(e) => Err(e),
    }
}

impl AssetReader {
    /// Reads one property of a tagged list; `None` at the list's end marker.
    pub fn read_property(&mut self, include_header: bool) -> (r: Result<Option<Property>, Error>)
        requires
            old(self).wf(),
        ensures
            final(self).wf(),
            final(self).same_context(old(self)),
            property_outcome(r, final(self).cursor.pos) == parse_property(
                old(self).names@,
                spec_has_property_guid(include_header, old(self).custom_versions.entries@),
                old(self).bytes(),
                old(self).cursor.pos as int,
            ),
    {
        proof {
            reveal(parse_property);
        }
        let name = match self.cursor.read_fname() {
            Ok(n) => n,
            Err(e) => return Err(e),
        };
        let name_str = match self.names.resolve(name) {
            Ok(s) => s,
            Err(e) => return Err(e),
        };
        if name.number == 0 && name_str == "None".to_owned() {
            return Ok(None);
        }
        let property_type = match self.cursor.read_fname() {
            Ok(n) => n,
            Err(e) => return Err(e),
        };
        let type_str = match self.names.resolve(property_type) {
            Ok(s) => s,
            Err(e) => return Err(e),
        };
        let size = match self.cursor.read_i32() {
            Ok(n) => n,
            Err(e) => return Err(e),
        };
        if size < 0 {
            return Err(Error::SizeMismatch);
        }
        let property_guid = match self.read_optional_guid(include_header) {
            Ok(g) => g,
            Err(e) => return Err(e),
        };
        let bytes = match self.cursor.read_bytes(size as usize) {
            Ok(b) => b,
            Err(e) => return Err(e),
        };
        let value = decode_value_bytes(&type_str, bytes, &self.names);
        Ok(Some(Property { name, property_type, property_guid, value }))
    }

    /// Reads a tagged property list up to and including its end marker. A value of an
    /// unknown type, or whose bytes do not fit its type, is kept as raw bytes and the
    /// rest of the list is still decoded.
    #[verifier::spinoff_prover]
    pub fn read_property_list(&mut self, include_header: bool) -> (r: Result<Vec<Property>, Error>)
        requires
            old(self).wf(),
        ensures
            final(self).wf(),
            final(self).same_context(old(self)),
            list_outcome(r, final(self).cursor.pos) == parse_list(
                old(self).names@,
                spec_has_property_guid(include_header, old(self).custom_versions.entries@),
                old(self).bytes(),
                old(self).cursor.pos as int,
            ),
    {
        let ghost gate = spec_has_property_guid(include_header, self.custom_versions.entries@);
        let ghost s = self.bytes();
        let ghost at0 = self.cursor.pos as int;
        let ghost names = self.names@;
        let mut out: Vec<Property> = Vec::new();
        let ghost mut done: Seq<PropertyModel> = Seq::empty();
        loop
            invariant
                self.wf(),
                self.same_context(old(self)),
                s == self.bytes(),
                s == old(self).bytes(),
                at0 == old(self).cursor.pos as int,
                names == self.names@,
                gate == spec_has_property_guid(include_header, self.custom_versions.entries@),
                done == models(out@),
                parse_list(names, gate, s, at0) == match parse_list(
                    names,
                    gate,
                    s,
                    self.cursor.pos as int,
                ) {
                    Ok((rest, q)) => Ok((done + rest, q)),
                    Err(e) => Err(e),
                },
            decreases s.len() - self.cursor.pos,
        {
            let ghost at = self.cursor.pos as int;
            match self.read_property(include_header) {
                Err(e) => {
                    proof {
                        lemma_parse_list_stop(names, gate, s, at);
                    }
                    return Err(e);
                },
                Ok(None) => {
                    proof {
                        lemma_parse_list_stop(names, gate, s, at);
                    }
                    assert(done + Seq::<PropertyModel>::empty() =~= done);
                    return Ok(out);
                },
                Ok(Some(p)) => {
                    proof {
                        lemma_parse_list_step(names, gate, s, at, p@, self.cursor.pos as int);
                        match parse_list(names, gate, s, self.cursor.pos as int) {
                            Ok((rest, q)) => {
                                assert(done + (seq![p@] + rest) =~= done.push(p@) + rest);
                            },
                            Err(e) => {},
                        }
                    }
                    out.push(p);
                    proof {
                        done = done.push(p@);
                    }
                    assert(done =~= models(out@));
                },
            }
        }
    }
}

/// The bytes of one property: name, type name, value size, optional header identifier
/// under `gate`, value.
pub open spec fn encode_property(gate: bool, m: PropertyModel) -> Seq<u8> {
    fname_bytes(m.name) + fname_bytes(m.property_type) + le_bytes_i32(
        value_bytes(m.value).len() as i32,
    ) + optional_guid_bytes(gate, m.property_guid) + value_bytes(m.value)
}

/// The bytes of a sequence of properties, in order.
pub open spec fn encode_properties(gate: bool, ms: Seq<PropertyModel>) -> Seq<u8>
    decreases ms.len(),
{
    if ms.len() == 0 {
        Seq::empty()
    } else {
        encode_property(gate, ms[0]) + encode_properties(gate, ms.drop_first())
    }
}

/// The name that marks the end of a list in table `names`.
pub open spec fn end_marker(names: Seq<Seq<char>>) -> FName {
    FName { index: (choose|i: int| 0 <= i < names.len() && names[i] == none_str()) as i32, number: 0 }
}

/// Whether table `names` holds the end marker at a position that a name can reference.
pub open spec fn has_end_marker(names: Seq<Seq<char>>) -> bool {
    contains_name(names, none_str()) && (choose|i: int| 0 <= i < names.len() && names[i]
        == none_str()) <= i32::MAX
}

/// The bytes of a whole tagged list: its properties, then the end marker.
pub open spec fn encode_list(gate: bool, ms: Seq<PropertyModel>, names: Seq<Seq<char>>) -> Seq<u8> {
    encode_properties(gate, ms) + fname_bytes(end_marker(names))
}

/// Every value's size fits the size field.
pub open spec fn sizes_fit(ms: Seq<PropertyModel>) -> bool {
    forall|i: int| 0 <= i < ms.len() ==> value_bytes(#[trigger] ms[i].value).len() <= i32::MAX
}

pub proof fn lemma_encode_properties_push(gate: bool, ms: Seq<PropertyModel>, m: PropertyModel)
    ensures
        encode_properties(gate, ms.push(m)) == encode_properties(gate, ms) + encode_property(
            gate,
            m,
        ),
    decreases ms.len(),
{
    if ms.len() == 0 {
        assert(ms.push(m).drop_first() =~= Seq::<PropertyModel>::empty());
        assert(encode_properties(gate, ms.push(m).drop_first()) =~= Seq::<u8>::empty());
        assert(encode_properties(gate, ms) =~= Seq::<u8>::empty());
        assert(encode_properties(gate, ms.push(m)) =~= encode_properties(gate, ms)
            + encode_property(gate, m));
    } else {
        lemma_encode_properties_push(gate, ms.drop_first(), m);
        assert(ms.push(m).drop_first() =~= ms.drop_first().push(m));
        assert(encode_properties(gate, ms.push(m)) =~= encode_properties(gate, ms)
            + encode_property(gate, m));
    }
}

impl Property {
    /// Appends the bytes of this property; a value too large for the size field is refused
    /// and nothing is written.
    pub fn write(&self, out: &mut Vec<u8>, gate: bool) -> (r: Result<(), Error>)
        ensures
            value_bytes(self@.value).len() <= i32::MAX ==> r is Ok && final(out)@ == old(out)@
                + encode_property(gate, self@),
            value_bytes(self@.value).len() > i32::MAX ==> r == Err::<(), Error>(
                Error::SizeMismatch,
            ) && final(out)@ == old(out)@,
    {
        let bytes = encode_value(&self.value);
        if bytes.len() > 0x7fff_ffffusize {
            return Err(Error::SizeMismatch);
        }
        let ghost before = out@;
        write_fname(out, self.name);
        write_fname(out, self.property_type);
        write_i32(out, bytes.len() as i32);
        write_optional_guid(out, gate, self.property_guid);
        write_bytes(out, &bytes);
        assert(out@ =~= before + encode_property(gate, self@));
        Ok(())
    }
}

/// Appends a tagged property list and its end marker. Where the name table has no end
/// marker, or a value is too large for its size field, nothing is written.
pub fn write_property_list(
    props: &Vec<Property>,
    names: &NameMap,
    custom_versions: &CustomVersionSet,
    include_header: bool,
    out: &mut Vec<u8>,
) -> (r: Result<(), Error>)
    requires
        names.wf(),
        custom_versions.wf(),
    ensures
        !has_end_marker(names@) ==> r == Err::<(), Error>(Error::InvalidNameIndex)
            && final(out)@ == old(out)@,
        has_end_marker(names@) && !sizes_fit(models(props@)) ==> r == Err::<
            (),
            Error,
        >(Error::SizeMismatch) && final(out)@ == old(out)@,
        has_end_marker(names@) && sizes_fit(models(props@)) ==> r is Ok && final(out)@
            == old(out)@ + encode_list(
            spec_has_property_guid(include_header, custom_versions.entries@),
            models(props@),
            names@,
        ),
{
    let end = match names.find(&"None".to_owned()) {
        Some(i) => {
            proof {
                let k = choose|k: int| 0 <= k < names@.len() && names@[k] == none_str();
                assert(names@[i as int] == none_str());
                assert(k == i);
            }
            if i > 0x7fff_ffffusize {
                return Err(Error::InvalidNameIndex);
            }
            FName { index: i as i32, number: 0 }
        },
        None => return Err(Error::InvalidNameIndex),
    };
    let gate = custom_versions.has_property_guid(include_header);
    let ghost ms = models(props@);
    let mut buf: Vec<u8> = Vec::new();
    let mut i: usize = 0;
    while i < props.len()
        invariant
            i <= props@.len(),
            ms == models(props@),
            has_end_marker(names@),
            buf@ == encode_properties(gate, ms.subrange(0, i as int)),
            forall|j: int| 0 <= j < i ==> value_bytes(#[trigger] ms[j].value).len() <= i32::MAX,
        decreases props@.len() - i,
    {
        match props[i].write(&mut buf, gate) {
            Ok(()) => {},
            Err(e) => {
                assert(value_bytes(ms[i as int].value).len() > i32::MAX);
                return Err(e);
            },
        }
        proof {
            lemma_encode_properties_push(gate, ms.subrange(0, i as int), ms[i as int]);
            assert(ms.subrange(0, i + 1) =~= ms.subrange(0, i as int).push(ms[i as int]));
        }
        i = i + 1;
    }
    assert(ms.subrange(0, i as int) =~= ms);
    write_fname(&mut buf, end);
    write_bytes(out, &buf);
    Ok(())
}

/// A property that decoding can give: its names are in the table and it is not the end
/// marker, its value is what its own bytes decode to, the size fits, and it carries a
/// header identifier only where the layout has one.
#[verifier::opaque]
pub open spec fn property_wf(names: Seq<Seq<char>>, gate: bool, m: PropertyModel) -> bool {
    &&& 0 <= m.name.index < names.len()
    &&& !(names[m.name.index as int] == none_str() && m.name.number == 0)
    &&& 0 <= m.property_type.index < names.len()
    &&& decode_value(names[m.property_type.index as int], value_bytes(m.value), names.len())
        == m.value
    &&& value_bytes(m.value).len() <= i32::MAX
    &&& !gate ==> m.property_guid is None
}

/// The bytes of an optional identifier read back as it.
pub proof fn lemma_optional_guid_round_trip(gate: bool, g: Option<Guid>, s: Seq<u8>, at: int)
    requires
        0 <= at,
        at + optional_guid_bytes(gate, g).len() <= s.len(),
        s.subrange(at, at + optional_guid_bytes(gate, g).len()) == optional_guid_bytes(gate, g),
        !gate ==> g is None,
    ensures
        parse_optional_guid(gate, s, at) == Ok::<(Option<Guid>, int), Error>(
            (g, at + optional_guid_bytes(gate, g).len()),
        ),
{
    if gate {
        let w = s.subrange(at, at + optional_guid_bytes(gate, g).len());
        assert(s[at] == w[0]);
        match g {
            None => {},
            Some(h) => {
                assert(s.subrange(at + 1, at + 17) =~= w.subrange(1, 17));
                assert(optional_guid_bytes(gate, g).subrange(1, 17) =~= guid_bytes(h));
                lemma_guid_at(s, at + 1, h);
            },
        }
    }
}

/// The fields of a property's bytes, where they stand at `at`.
proof fn lemma_property_fields(gate: bool, m: PropertyModel, s: Seq<u8>, at: int)
    requires
        0 <= at,
        at + encode_property(gate, m).len() <= s.len(),
        s.subrange(at, at + encode_property(gate, m).len()) == encode_property(gate, m),
        value_bytes(m.value).len() <= i32::MAX,
        !gate ==> m.property_guid is None,
    ensures
        fname_at(s, at) == m.name,
        fname_at(s, at + 8) == m.property_type,
        i32_at(s, at + 16) == value_bytes(m.value).len(),
        parse_optional_guid(gate, s, at + 20) == Ok::<(Option<Guid>, int), Error>(
            (m.property_guid, at + 20 + optional_guid_bytes(gate, m.property_guid).len()),
        ),
        s.subrange(
            at + 20 + optional_guid_bytes(gate, m.property_guid).len(),
            at + encode_property(gate, m).len(),
        ) == value_bytes(m.value),
        encode_property(gate, m).len() == 20 + optional_guid_bytes(gate, m.property_guid).len()
            + value_bytes(m.value).len(),
{
    let e = encode_property(gate, m);
    let w = s.subrange(at, at + e.len());
    let v = value_bytes(m.value);
    let g = optional_guid_bytes(gate, m.property_guid);
    let gl = g.len() as int;
    assert(e.len() == 20 + gl + v.len());
    assert(s.subrange(at, at + 8) =~= w.subrange(0, 8));
    assert(e.subrange(0, 8) =~= fname_bytes(m.name));
    lemma_fname_at(s, at, m.name);
    assert(s.subrange(at + 8, at + 16) =~= w.subrange(8, 16));
    assert(e.subrange(8, 16) =~= fname_bytes(m.property_type));
    lemma_fname_at(s, at + 8, m.property_type);
    assert(s.subrange(at + 16, at + 20) =~= w.subrange(16, 20));
    assert(e.subrange(16, 20) =~= le_bytes_i32(v.len() as i32));
    lemma_i32_at(s, at + 16, v.len() as i32);
    assert(s.subrange(at + 20, at + 20 + gl) =~= w.subrange(20, 20 + gl));
    assert(e.subrange(20, 20 + gl) =~= g);
    lemma_optional_guid_round_trip(gate, m.property_guid, s, at + 20);
    assert(s.subrange(at + 20 + gl, at + e.len()) =~= w.subrange(20 + gl, e.len() as int));
    assert(e.subrange(20 + gl, e.len() as int) =~= v);
}

/// The bytes of one well-formed property read back as it, wherever they stand.
pub proof fn lemma_property_round_trip(
    names: Seq<Seq<char>>,
    gate: bool,
    m: PropertyModel,
    s: Seq<u8>,
    at: int,
)
    requires
        property_wf(names, gate, m),
        0 <= at,
        at + encode_property(gate, m).len() <= s.len(),
        s.subrange(at, at + encode_property(gate, m).len()) == encode_property(gate, m),
    ensures
        parse_property(names, gate, s, at) == Ok::<(Option<PropertyModel>, int), Error>(
            (Some(m), at + encode_property(gate, m).len()),
        ),
{
    reveal(property_wf);
    lemma_property_fields(gate, m, s, at);
    reveal(parse_property);
}

/// The bytes of the end marker read back as the end of a list.
pub proof fn lemma_end_marker_round_trip(names: Seq<Seq<char>>, gate: bool, pre: Seq<u8>, post: Seq<u8>)
    requires
        has_end_marker(names),
    ensures
        parse_property(names, gate, pre + fname_bytes(end_marker(names)) + post, pre.len() as int)
            == Ok::<(Option<PropertyModel>, int), Error>((None, (pre.len() + 8) as int)),
{
    reveal(parse_property);
    let s = pre + fname_bytes(end_marker(names)) + post;
    let at = pre.len() as int;
    assert(s.subrange(at, at + 8) =~= fname_bytes(end_marker(names)));
    lemma_fname_at(s, at, end_marker(names));
}

proof fn lemma_split(s: Seq<u8>, at: int, a: Seq<u8>, b: Seq<u8>)
    requires
        0 <= at,
        at + a.len() + b.len() <= s.len(),
        s.subrange(at, at + a.len() + b.len()) == a + b,
    ensures
        s.subrange(at, at + a.len()) == a,
        s.subrange(at + a.len(), at + a.len() + b.len()) == b,
{
    let w = s.subrange(at, at + a.len() + b.len());
    assert(s.subrange(at, at + a.len()) =~= w.subrange(0, a.len() as int));
    assert((a + b).subrange(0, a.len() as int) =~= a);
    assert(s.subrange(at + a.len(), at + a.len() + b.len()) =~= w.subrange(
        a.len() as int,
        (a.len() + b.len()) as int,
    ));
    assert((a + b).subrange(a.len() as int, (a.len() + b.len()) as int) =~= b);
}

proof fn lemma_empty_list_round_trip(names: Seq<Seq<char>>, gate: bool, s: Seq<u8>, at: int)
    requires
        has_end_marker(names),
        0 <= at,
        at + 8 <= s.len(),
        s.subrange(at, at + 8) == fname_bytes(end_marker(names)),
    ensures
        parse_list(names, gate, s, at) == Ok::<(Seq<PropertyModel>, int), Error>(
            (Seq::empty(), at + 8),
        ),
        encode_list(gate, Seq::empty(), names) == fname_bytes(end_marker(names)),
{
    assert(encode_properties(gate, Seq::<PropertyModel>::empty()) =~= Seq::<u8>::empty());
    assert(encode_list(gate, Seq::empty(), names) =~= fname_bytes(end_marker(names)));
    assert(s =~= s.subrange(0, at) + fname_bytes(end_marker(names)) + s.subrange(
        at + 8,
        s.len() as int,
    ));
    lemma_end_marker_round_trip(names, gate, s.subrange(0, at), s.subrange(at + 8, s.len() as int));
    lemma_parse_list_stop(names, gate, s, at);
}

/// Encoding a list of properties that decoding can give, then decoding the bytes, gives
/// the same list back and ends just after the end marker, whatever bytes stand around.
#[verifier::spinoff_prover]
#[verifier::rlimit(60)]
pub proof fn lemma_property_list_round_trip(
    names: Seq<Seq<char>>,
    gate: bool,
    ms: Seq<PropertyModel>,
    s: Seq<u8>,
    at: int,
)
    requires
        has_end_marker(names),
        forall|i: int| 0 <= i < ms.len() ==> property_wf(names, gate, #[trigger] ms[i]),
        0 <= at,
        at + encode_list(gate, ms, names).len() <= s.len(),
        s.subrange(at, at + encode_list(gate, ms, names).len()) == encode_list(gate, ms, names),
    ensures
        parse_list(names, gate, s, at) == Ok::<(Seq<PropertyModel>, int), Error>(
            (ms, at + encode_list(gate, ms, names).len()),
        ),
    decreases ms.len(),
{
    let enc = encode_list(gate, ms, names);
    if ms.len() == 0 {
        assert(ms =~= Seq::<PropertyModel>::empty());
        lemma_empty_list_round_trip(names, gate, s, at);
    } else {
        let m = ms[0];
        let rest = ms.drop_first();
        let em = encode_property(gate, m);
        let er = encode_list(gate, rest, names);
        assert(enc =~= em + er);
        lemma_split(s, at, em, er);
        lemma_property_round_trip(names, gate, m, s, at);
        assert forall|i: int| 0 <= i < rest.len() implies property_wf(names, gate, #[trigger] rest[i]) by {
            assert(rest[i] == ms[i + 1]);
        }
        lemma_property_list_round_trip(names, gate, rest, s, at + em.len());
        lemma_parse_list_step(names, gate, s, at, m, at + em.len());
        assert(seq![m] + rest =~= ms);
    }
}

/// Writing back a decoded value gives the bytes it was decoded from.
pub proof fn lemma_decoded_value_bytes(t: Seq<char>, b: Seq<u8>, n_names: nat)
    ensures
        value_bytes(decode_value(t, b, n_names)) == b,
{
    if t == "GuidProperty"@ && b.len() == 16 {
        lemma_guid_bytes_round_trip(b, 0);
        assert(b.subrange(0, 16) =~= b);
    } else if t == "IntProperty"@ && b.len() == 4 {
        let x = u32_at(b, 0);
        assert((x as i32) as u32 == x) by (bit_vector);
        lemma_u32_bytes_round_trip(b, 0);
        assert(b.subrange(0, 4) =~= b);
    } else if t == "BoolProperty"@ && b.len() == 1 && b[0] <= 1 {
        assert(seq![if b[0] == 1 { 1u8 } else { 0u8 }] =~= b);
    } else if t == "NameProperty"@ && b.len() == 8 && 0 <= fname_at(b, 0).index < n_names {
        lemma_fname_bytes_round_trip(b, 0);
        assert(b.subrange(0, 8) =~= b);
    }
}

/// Every property that decoding gives is one that encoding reads back.
pub proof fn lemma_decoded_property_wf(names: Seq<Seq<char>>, gate: bool, s: Seq<u8>, at: int)
    requires
        0 <= at,
    ensures
        parse_property(names, gate, s, at) matches Ok((Some(m), _)) ==> property_wf(names, gate, m),
{
    reveal(parse_property);
    reveal(property_wf);
    if let Ok((Some(m), _)) = parse_property(names, gate, s, at) {
        let t = names[m.property_type.index as int];
        let size = i32_at(s, at + 16);
        let p = match parse_optional_guid(gate, s, at + 20) {
            Ok((_, p)) => p,
            Err(_) => 0,
        };
        let b = s.subrange(p, p + size);
        lemma_decoded_value_bytes(t, b, names.len());
    }
}

/// Every list that decoding gives holds only properties that encoding reads back, and
/// its table holds the end marker.
pub proof fn lemma_decoded_list_wf(names: Seq<Seq<char>>, gate: bool, s: Seq<u8>, at: int)
    requires
        no_duplicates(names),
        0 <= at,
    ensures
        parse_list(names, gate, s, at) matches Ok((ms, _)) ==> has_end_marker(names) && forall|
            i: int,
        |
            0 <= i < ms.len() ==> property_wf(names, gate, #[trigger] ms[i]),
    decreases s.len() - at,
{
    lemma_decoded_property_wf(names, gate, s, at);
    match parse_property(names, gate, s, at) {
        Ok((None, p)) => {
            reveal(parse_property);
            let k = fname_at(s, at).index;
            assert(names[k as int] == none_str());
            let c = choose|i: int| 0 <= i < names.len() && names[i] == none_str();
            assert(c == k);
        },
        Ok((Some(m), p)) => {
            lemma_parse_list_step(names, gate, s, at, m, p);
            lemma_decoded_list_wf(names, gate, s, p);
            if let Ok((rest, q)) = parse_list(names, gate, s, p) {
                assert forall|i: int| 0 <= i < rest.len() + 1 implies property_wf(
                    names,
                    gate,
                    #[trigger] (seq![m] + rest)[i],
                ) by {
                    if i > 0 {
                        assert((seq![m] + rest)[i] == rest[i - 1]);
                    }
                }
            }
        },
        Err(_) => {},
    }
}

/// Decoding a property list, encoding what came out, and decoding those bytes gives the
/// same list again; so encoding it a second time gives the same bytes as the first.
pub proof fn lemma_decode_encode_round_trip(names: Seq<Seq<char>>, gate: bool, s: Seq<u8>, at: int)
    requires
        no_duplicates(names),
        0 <= at,
        parse_list(names, gate, s, at) is Ok,
    ensures
        ({
            let ms = parse_list(names, gate, s, at)->Ok_0.0;
            parse_list(names, gate, encode_list(gate, ms, names), 0) == Ok::<
                (Seq<PropertyModel>, int),
                Error,
            >((ms, encode_list(gate, ms, names).len() as int))
        }),
{
    let ms = parse_list(names, gate, s, at)->Ok_0.0;
    lemma_decoded_list_wf(names, gate, s, at);
    let e = encode_list(gate, ms, names);
    assert(e.subrange(0, e.len() as int) =~= e);
    lemma_property_list_round_trip(names, gate, ms, e, 0);
}

/// With the property-identifier feature absent, no property header carries the
/// identifier, whatever the caller's context asks: no flag byte is read and nothing is
/// consumed.
pub proof fn lemma_absent_feature_means_no_guid(
    include_header: bool,
    entries: Seq<CustomVersion>,
    s: Seq<u8>,
    at: int,
)
    requires
        !has_key(entries, spec_property_guid_feature()),
    ensures
        !spec_has_property_guid(include_header, entries),
        parse_optional_guid(spec_has_property_guid(include_header, entries), s, at) == Ok::<
            (Option<Guid>, int),
            Error,
        >((None, at)),
{
}

/// A value whose type is none of the known ones is kept as its bytes.
pub proof fn lemma_unknown_type_is_raw(t: Seq<char>, b: Seq<u8>, n_names: nat)
    requires
        t != "GuidProperty"@,
        t != "IntProperty"@,
        t != "BoolProperty"@,
        t != "NameProperty"@,
    ensures
        decode_value(t, b, n_names) == ValueModel::Raw(b),
{
}

/// The bytes of a decoded optional identifier are the bytes it was read from.
proof fn lemma_decoded_optional_guid_bytes(gate: bool, s: Seq<u8>, at: int)
    requires
        0 <= at <= s.len(),
    ensures
        parse_optional_guid(gate, s, at) matches Ok((g, p)) ==> optional_guid_bytes(gate, g)
            == s.subrange(at, p),
{
    if let Ok((g, p)) = parse_optional_guid(gate, s, at) {
        if gate {
            if s[at] == 0 {
                assert(optional_guid_bytes(gate, g) =~= s.subrange(at, p));
            } else {
                lemma_guid_bytes_round_trip(s, at + 1);
                assert(optional_guid_bytes(gate, g) =~= s.subrange(at, p));
            }
        } else {
            assert(optional_guid_bytes(gate, g) =~= s.subrange(at, p));
        }
    }
}

/// Where the value of a property starts, once its optional identifier is read.
spec fn value_start(gate: bool, s: Seq<u8>, at: int) -> int {
    match parse_optional_guid(gate, s, at + 20) {
        Ok((_, q)) => q,
        Err(_) => 0,
    }
}

proof fn lemma_parsed_property_fields(names: Seq<Seq<char>>, gate: bool, s: Seq<u8>, at: int)
    requires
        0 <= at,
    ensures
        parse_property(names, gate, s, at) matches Ok((Some(m), p)) ==> {
            &&& at + 20 <= s.len()
            &&& m.name == fname_at(s, at)
            &&& m.property_type == fname_at(s, at + 8)
            &&& 0 <= m.property_type.index < names.len()
            &&& 0 <= i32_at(s, at + 16)
            &&& parse_optional_guid(gate, s, at + 20) == Ok::<(Option<Guid>, int), Error>(
                (m.property_guid, value_start(gate, s, at)),
            )
            &&& value_start(gate, s, at) + i32_at(s, at + 16) == p
            &&& p <= s.len()
            &&& m.value == decode_value(
                names[m.property_type.index as int],
                s.subrange(value_start(gate, s, at), p),
                names.len(),
            )
        },
{
    reveal(parse_property);
}

/// The bytes of a decoded property are the bytes it was read from.
proof fn lemma_decoded_property_bytes(names: Seq<Seq<char>>, gate: bool, s: Seq<u8>, at: int)
    requires
        0 <= at,
    ensures
        parse_property(names, gate, s, at) matches Ok((Some(m), p)) ==> encode_property(gate, m)
            == s.subrange(at, p),
{
    lemma_parsed_property_fields(names, gate, s, at);
    if let Ok((Some(m), p)) = parse_property(names, gate, s, at) {
        let size = i32_at(s, at + 16);
        let q = value_start(gate, s, at);
        lemma_fname_bytes_round_trip(s, at);
        lemma_fname_bytes_round_trip(s, at + 8);
        let x = u32_at(s, at + 16);
        assert((x as i32) as u32 == x) by (bit_vector);
        lemma_u32_bytes_round_trip(s, at + 16);
        lemma_decoded_optional_guid_bytes(gate, s, at + 20);
        let t = names[m.property_type.index as int];
        lemma_decoded_value_bytes(t, s.subrange(q, p), names.len());
        assert(value_bytes(m.value).len() == size);
        assert(encode_property(gate, m) =~= s.subrange(at, p));
    }
}

proof fn lemma_end_marker_bytes(names: Seq<Seq<char>>, gate: bool, s: Seq<u8>, at: int)
    requires
        no_duplicates(names),
        0 <= at,
    ensures
        parse_property(names, gate, s, at) matches Ok((None, p)) ==> encode_list(
            gate,
            Seq::empty(),
            names,
        ) == s.subrange(at, p),
{
    reveal(parse_property);
    if let Ok((None, p)) = parse_property(names, gate, s, at) {
        let k = fname_at(s, at).index;
        let c = choose|i: int| 0 <= i < names.len() && names[i] == none_str();
        assert(names[k as int] == none_str());
        assert(c == k);
        assert(fname_at(s, at) == end_marker(names));
        lemma_fname_bytes_round_trip(s, at);
        assert(encode_properties(gate, Seq::<PropertyModel>::empty()) =~= Seq::<u8>::empty());
        assert(encode_list(gate, Seq::empty(), names) =~= s.subrange(at, p));
    }
}

/// A decoded list ends after where it starts and within the bytes.
pub proof fn lemma_parse_list_bounds(names: Seq<Seq<char>>, gate: bool, s: Seq<u8>, at: int)
    ensures
        parse_list(names, gate, s, at) matches Ok((_, q)) ==> at <= q <= s.len(),
    decreases s.len() - at,
{
    match parse_property(names, gate, s, at) {
        Ok((None, p)) => {
            reveal(parse_property);
            lemma_parse_list_stop(names, gate, s, at);
        },
        Ok((Some(m), p)) => {
            lemma_parse_list_step(names, gate, s, at, m, p);
            lemma_parse_list_bounds(names, gate, s, p);
        },
        Err(_) => {
            lemma_parse_list_stop(names, gate, s, at);
        },
    }
}

proof fn lemma_list_bytes_step(
    names: Seq<Seq<char>>,
    gate: bool,
    m: PropertyModel,
    rest: Seq<PropertyModel>,
    s: Seq<u8>,
    at: int,
    p: int,
    q: int,
)
    requires
        0 <= at <= p <= q <= s.len(),
        encode_property(gate, m) == s.subrange(at, p),
        encode_list(gate, rest, names) == s.subrange(p, q),
    ensures
        encode_list(gate, seq![m] + rest, names) == s.subrange(at, q),
{
    let ms = seq![m] + rest;
    assert(ms[0] == m);
    assert(ms.drop_first() =~= rest);
    assert(encode_properties(gate, ms) == encode_property(gate, m) + encode_properties(gate, rest));
    assert(s.subrange(at, q) =~= s.subrange(at, p) + s.subrange(p, q));
    assert(encode_list(gate, ms, names) =~= s.subrange(at, q));
}

/// Encoding a decoded property list gives back exactly the bytes it was read from.
#[verifier::spinoff_prover]
#[verifier::rlimit(60)]
pub proof fn lemma_decoded_list_bytes(names: Seq<Seq<char>>, gate: bool, s: Seq<u8>, at: int)
    requires
        no_duplicates(names),
        0 <= at,
    ensures
        parse_list(names, gate, s, at) matches Ok((ms, q)) ==> encode_list(gate, ms, names)
            == s.subrange(at, q),
    decreases s.len() - at,
{
    lemma_decoded_property_bytes(names, gate, s, at);
    match parse_property(names, gate, s, at) {
        Ok((None, p)) => {
            lemma_end_marker_bytes(names, gate, s, at);
            lemma_parse_list_stop(names, gate, s, at);
        },
        Ok((Some(m), p)) => {
            lemma_parse_list_step(names, gate, s, at, m, p);
            lemma_decoded_list_bytes(names, gate, s, p);
            lemma_parse_list_bounds(names, gate, s, p);
            if let Ok((rest, q)) = parse_list(names, gate, s, p) {
                lemma_list_bytes_step(names, gate, m, rest, s, at, p, q);
            }
        },
        Err(_) => {
            lemma_parse_list_stop(names, gate, s, at);
        },
    }
}

/// A type name that no value decoder knows.
pub open spec fn is_unknown_type(t: Seq<char>) -> bool {
    t != "GuidProperty"@ && t != "IntProperty"@ && t != "BoolProperty"@ && t != "NameProperty"@
}

/// A property of a type that no decoder knows, holding the raw bytes of its value, is one
/// that encoding reads back.
pub proof fn lemma_unknown_type_property_wf(
    names: Seq<Seq<char>>,
    gate: bool,
    m: PropertyModel,
    b: Seq<u8>,
)
    requires
        0 <= m.name.index < names.len(),
        !(names[m.name.index as int] == none_str() && m.name.number == 0),
        0 <= m.property_type.index < names.len(),
        is_unknown_type(names[m.property_type.index as int]),
        m.value == ValueModel::Raw(b),
        b.len() <= i32::MAX,
        !gate ==> m.property_guid is None,
    ensures
        property_wf(names, gate, m),
{
    reveal(property_wf);
    lemma_unknown_type_is_raw(names[m.property_type.index as int], b, names.len());
}

/// A property list in which one property has a type that no decoder knows, and whose
/// declared size is that of its bytes, decodes in full: that property comes back as its raw
/// bytes, and every sibling comes back as it was encoded.
pub proof fn lemma_unknown_type_in_list(
    names: Seq<Seq<char>>,
    gate: bool,
    ms: Seq<PropertyModel>,
    k: int,
    b: Seq<u8>,
)
    requires
        has_end_marker(names),
        0 <= k < ms.len(),
        forall|i: int| 0 <= i < ms.len() && i != k ==> property_wf(names, gate, #[trigger] ms[i]),
        0 <= ms[k].name.index < names.len(),
        !(names[ms[k].name.index as int] == none_str() && ms[k].name.number == 0),
        0 <= ms[k].property_type.index < names.len(),
        is_unknown_type(names[ms[k].property_type.index as int]),
        ms[k].value == ValueModel::Raw(b),
        b.len() <= i32::MAX,
        !gate ==> ms[k].property_guid is None,
    ensures
        parse_list(names, gate, encode_list(gate, ms, names), 0) == Ok::<
            (Seq<PropertyModel>, int),
            Error,
        >((ms, encode_list(gate, ms, names).len() as int)),
{
    lemma_unknown_type_property_wf(names, gate, ms[k], b);
    let e = encode_list(gate, ms, names);
    assert(e.subrange(0, e.len() as int) =~= e);
    lemma_property_list_round_trip(names, gate, ms, e, 0);
}

} // verus!
