use unreal_asset_core::archive::{write_i32, write_u32, Reader};
use unreal_asset_core::asset::{AssetReader, Import};
use unreal_asset_core::custom_version::{property_guid_feature, CustomVersionSet};
use unreal_asset_core::error::Error;
use unreal_asset_core::md5_hash::FMD5Hash;
use unreal_asset_core::exports::{
    export_names_of, read_export, read_exports, BaseExport, Export, RawExport, UPropertyKind,
};
use unreal_asset_core::names::NameMap;
use unreal_asset_core::properties::{
    decode_value_bytes, write_property_list, GuidProperty, Property, PropertyValue,
};
use unreal_asset_core::types::{FName, Guid, PackageIndex, Resolved};

fn table(entries: &[&str]) -> NameMap {
    let mut names = NameMap::new();
    for e in entries {
        names.intern(e.to_string());
    }
    names
}

fn asset(bytes: Vec<u8>, names: NameMap, versions: CustomVersionSet) -> AssetReader {
    AssetReader {
        cursor: Reader::new(bytes),
        names,
        custom_versions: versions,
        imports: Vec::new(),
        export_names: Vec::new(),
    }
}

fn fname(out: &mut Vec<u8>, index: i32) {
    out.extend_from_slice(&index.to_le_bytes());
    out.extend_from_slice(&0i32.to_le_bytes());
}

fn guid_list_bytes() -> Vec<u8> {
    let mut b = Vec::new();
    fname(&mut b, 0);
    fname(&mut b, 1);
    b.extend_from_slice(&16i32.to_le_bytes());
    b.extend_from_slice(&[0u8; 16]);
    fname(&mut b, 2);
    b
}

#[test]
fn guid_property_list_without_feature_round_trips() {
    let names = table(&["MyGuid", "GuidProperty", "None"]);
    let bytes = guid_list_bytes();
    let mut a = asset(bytes.clone(), names, CustomVersionSet::new());
    let props = a.read_property_list(true).unwrap();
    assert_eq!(props.len(), 1);
    assert_eq!(a.names.resolve(props[0].name).unwrap(), "MyGuid");
    assert_eq!(props[0].property_guid, None);
    assert_eq!(props[0].value, PropertyValue::Guid(Guid { a: 0, b: 0, c: 0, d: 0 }));
    assert_eq!(a.cursor.position(), bytes.len());
    let mut out = Vec::new();
    write_property_list(&props, &a.names, &a.custom_versions, true, &mut out).unwrap();
    assert_eq!(out, bytes);
}

#[test]
fn guid_property_reads_header_when_feature_registered() {
    let mut versions = CustomVersionSet::new();
    versions.set(property_guid_feature(), 1);
    let mut b = vec![1u8];
    for w in [7u32, 8, 9, 10, 1, 2, 3, 4] {
        b.extend_from_slice(&w.to_le_bytes());
    }
    let mut a = asset(b.clone(), NameMap::new(), versions);
    let name = FName { index: 0, number: 0 };
    let p = GuidProperty::new(name, &mut a, true).unwrap();
    assert_eq!(p.property_guid, Some(Guid { a: 7, b: 8, c: 9, d: 10 }));
    assert_eq!(p.value, Guid { a: 1, b: 2, c: 3, d: 4 });
    assert_eq!(a.cursor.position(), 33);
    let mut out = Vec::new();
    p.write(&mut out, true);
    assert_eq!(out, b);
}

#[test]
fn guid_property_without_header_context_reads_value_only() {
    let mut versions = CustomVersionSet::new();
    versions.set(property_guid_feature(), 1);
    let mut a = asset(vec![5u8; 16], NameMap::new(), versions);
    let p = GuidProperty::new(FName { index: 0, number: 0 }, &mut a, false).unwrap();
    assert_eq!(p.property_guid, None);
    assert_eq!(p.value.a, 0x0505_0505);
    assert_eq!(a.cursor.position(), 16);
}

#[test]
fn guid_property_short_input_is_eof() {
    let mut a = asset(vec![0u8; 10], NameMap::new(), CustomVersionSet::new());
    let r = GuidProperty::new(FName { index: 0, number: 0 }, &mut a, true);
    assert_eq!(r, Err(Error::UnexpectedEof { offset: 0 }));
}

#[test]
fn unknown_property_type_falls_back_to_raw() {
    let names = table(&["A", "MadeUpProperty", "B", "IntProperty", "None"]);
    let mut b = Vec::new();
    fname(&mut b, 0);
    fname(&mut b, 1);
    b.extend_from_slice(&3i32.to_le_bytes());
    b.extend_from_slice(&[9, 8, 7]);
    fname(&mut b, 2);
    fname(&mut b, 3);
    b.extend_from_slice(&4i32.to_le_bytes());
    b.extend_from_slice(&(-5i32).to_le_bytes());
    fname(&mut b, 4);
    let mut a = asset(b.clone(), names, CustomVersionSet::new());
    let props = a.read_property_list(true).unwrap();
    assert_eq!(props.len(), 2);
    assert_eq!(props[0].value, PropertyValue::Raw(vec![9, 8, 7]));
    assert_eq!(props[1].value, PropertyValue::Int(-5));
    let mut out = Vec::new();
    write_property_list(&props, &a.names, &a.custom_versions, true, &mut out).unwrap();
    assert_eq!(out, b);
}

#[test]
fn mis_sized_known_type_falls_back_to_raw() {
    let names = table(&["IntProperty", "BoolProperty", "NameProperty"]);
    let t = "IntProperty".to_string();
    assert_eq!(decode_value_bytes(&t, vec![1, 2], &names), PropertyValue::Raw(vec![1, 2]));
    let b = "BoolProperty".to_string();
    assert_eq!(decode_value_bytes(&b, vec![1], &names), PropertyValue::Bool(true));
    assert_eq!(decode_value_bytes(&b, vec![2], &names), PropertyValue::Raw(vec![2]));
    let n = "NameProperty".to_string();
    let mut ok = Vec::new();
    fname(&mut ok, 1);
    assert_eq!(
        decode_value_bytes(&n, ok, &names),
        PropertyValue::Name(FName { index: 1, number: 0 })
    );
    let mut bad = Vec::new();
    fname(&mut bad, 3);
    assert_eq!(decode_value_bytes(&n, bad.clone(), &names), PropertyValue::Raw(bad));
}

#[test]
fn property_list_errors() {
    let names = table(&["A", "IntProperty", "None"]);
    let mut b = Vec::new();
    fname(&mut b, 9);
    let mut a = asset(b, names, CustomVersionSet::new());
    assert_eq!(a.read_property_list(true), Err(Error::InvalidNameIndex));

    let names = table(&["A", "IntProperty", "None"]);
    let mut b = Vec::new();
    fname(&mut b, 0);
    fname(&mut b, 1);
    b.extend_from_slice(&(-1i32).to_le_bytes());
    let mut a = asset(b, names, CustomVersionSet::new());
    assert_eq!(a.read_property_list(true), Err(Error::SizeMismatch));

    let names = table(&["A", "IntProperty", "None"]);
    let mut b = Vec::new();
    fname(&mut b, 0);
    fname(&mut b, 1);
    b.extend_from_slice(&4i32.to_le_bytes());
    b.extend_from_slice(&[1, 2]);
    let mut a = asset(b, names, CustomVersionSet::new());
    assert_eq!(a.read_property_list(true), Err(Error::UnexpectedEof { offset: 20 }));
}

#[test]
fn writing_without_end_marker_is_refused() {
    let names = table(&["A", "IntProperty"]);
    let props = vec![Property {
        name: FName { index: 0, number: 0 },
        property_type: FName { index: 1, number: 0 },
        property_guid: None,
        value: PropertyValue::Int(3),
    }];
    let mut out = vec![42u8];
    let r = write_property_list(&props, &names, &CustomVersionSet::new(), true, &mut out);
    assert_eq!(r, Err(Error::InvalidNameIndex));
    assert_eq!(out, vec![42u8]);
}

#[test]
fn interning_twice_gives_same_index() {
    let mut names = NameMap::new();
    let a = names.intern("Alpha".to_string());
    let b = names.intern("Beta".to_string());
    let a2 = names.intern("Alpha".to_string());
    let lower = names.intern("alpha".to_string());
    assert_eq!(a, 0);
    assert_eq!(b, 1);
    assert_eq!(a2, 0);
    assert_eq!(lower, 2);
    assert_eq!(names.len(), 3);
    assert_eq!(names.resolve(FName { index: 1, number: 0 }).unwrap(), "Beta");
    assert_eq!(names.resolve(FName { index: 3, number: 0 }), Err(Error::InvalidNameIndex));
    assert_eq!(names.resolve(FName { index: -1, number: 0 }), Err(Error::InvalidNameIndex));
    assert_eq!(names.find(&"Beta".to_string()), Some(1));
    assert_eq!(names.find(&"Gamma".to_string()), None);
}

#[test]
fn custom_version_set_overwrites() {
    let mut v = CustomVersionSet::new();
    let k = Guid { a: 1, b: 2, c: 3, d: 4 };
    let other = Guid { a: 5, b: 6, c: 7, d: 8 };
    assert_eq!(v.get(k), None);
    v.set(k, 3);
    v.set(other, 9);
    v.set(k, 4);
    assert_eq!(v.get(k), Some(4));
    assert_eq!(v.get(other), Some(9));
    assert_eq!(v.entries.len(), 2);
    assert!(!v.has_property_guid(true));
    v.set(property_guid_feature(), 0);
    assert!(!v.has_property_guid(true));
    v.set(property_guid_feature(), 1);
    assert!(v.has_property_guid(true));
    assert!(!v.has_property_guid(false));
}

#[test]
fn package_index_resolution() {
    let null = PackageIndex { index: 0 };
    assert_eq!(null.resolve(3, 3), None);
    assert!(null.is_null());
    assert_eq!(PackageIndex { index: 2 }.resolve(0, 2), Some(Resolved::Export(1)));
    assert_eq!(PackageIndex { index: 3 }.resolve(5, 2), None);
    assert_eq!(PackageIndex { index: -1 }.resolve(1, 0), Some(Resolved::Import(0)));
    assert_eq!(PackageIndex { index: -2 }.resolve(1, 9), None);
    assert_eq!(PackageIndex { index: i32::MIN }.resolve(4, 4), None);
}

fn header_bytes(class_index: i32, serial_size: u32, serial_offset: u32) -> Vec<u8> {
    let mut b = Vec::new();
    write_i32(&mut b, class_index);
    write_i32(&mut b, 0);
    write_i32(&mut b, 0);
    fname(&mut b, 0);
    write_u32(&mut b, 0);
    write_u32(&mut b, serial_size);
    write_u32(&mut b, serial_offset);
    b
}

#[test]
fn base_export_round_trips() {
    let b = header_bytes(-3, 11, 40);
    assert_eq!(b.len(), 32);
    let mut r = Reader::new(b.clone());
    let e = BaseExport::read(&mut r).unwrap();
    assert_eq!(e.class_index, PackageIndex { index: -3 });
    assert_eq!(e.serial_size, 11);
    assert_eq!(e.serial_offset, 40);
    let mut out = Vec::new();
    e.write(&mut out);
    assert_eq!(out, b);
    let mut short = Reader::new(vec![0u8; 31]);
    assert_eq!(BaseExport::read(&mut short), Err(Error::UnexpectedEof { offset: 0 }));
}

#[test]
fn unresolvable_class_gives_raw_export() {
    let mut bytes = header_bytes(-5, 6, 32);
    bytes.extend_from_slice(&[1, 2, 3, 4, 5, 6, 7]);
    let mut r = Reader::new(bytes.clone());
    let base = BaseExport::read(&mut r).unwrap();
    let mut a = asset(bytes, table(&["None"]), CustomVersionSet::new());
    match read_export(&base, &mut a).unwrap() {
        Export::Raw(raw) => {
            assert_eq!(raw.data().len(), base.serial_size as usize);
            assert_eq!(raw.data(), &vec![1u8, 2, 3, 4, 5, 6]);
            assert_eq!(raw.get_unknown_export(), &base);
            assert!(raw.get_normal_export().is_none());
            let mut out = Vec::new();
            raw.write(&mut out);
            assert_eq!(out, vec![1u8, 2, 3, 4, 5, 6]);
        }
        _ => panic!("expected a raw export"),
    }
}

#[test]
fn raw_export_past_end_is_eof() {
    let base = BaseExport {
        class_index: PackageIndex { index: 0 },
        super_index: PackageIndex { index: 0 },
        outer_index: PackageIndex { index: 0 },
        object_name: FName { index: 0, number: 0 },
        object_flags: 0,
        serial_size: 10,
        serial_offset: 0,
    };
    let mut a = asset(vec![0u8; 4], NameMap::new(), CustomVersionSet::new());
    assert!(matches!(
        RawExport::from_unk(base, &mut a),
        Err(Error::UnexpectedEof { offset: 0 })
    ));
    assert!(matches!(read_export(&base, &mut a), Err(Error::UnexpectedEof { offset: 0 })));
}

fn function_payload(flags: u32) -> Vec<u8> {
    let mut b = Vec::new();
    fname(&mut b, 1);
    write_i32(&mut b, -1);
    write_i32(&mut b, 0);
    write_u32(&mut b, 2);
    b.extend_from_slice(&[0xAA, 0xBB]);
    write_u32(&mut b, flags);
    b
}

fn function_asset(payload: &[u8], serial_size: u32) -> (BaseExport, AssetReader) {
    let mut bytes = header_bytes(-1, serial_size, 32);
    bytes.extend_from_slice(payload);
    let mut r = Reader::new(bytes.clone());
    let base = BaseExport::read(&mut r).unwrap();
    let mut a = asset(bytes, table(&["Function", "None", "Engine"]), CustomVersionSet::new());
    a.imports.push(Import {
        class_package: FName { index: 2, number: 0 },
        class_name: FName { index: 0, number: 0 },
        outer_index: PackageIndex { index: 0 },
        object_name: FName { index: 0, number: 0 },
    });
    (base, a)
}

#[test]
fn function_export_decodes_and_round_trips() {
    let payload = function_payload(0x0000_0401);
    let (base, mut a) = function_asset(&payload, payload.len() as u32);
    match read_export(&base, &mut a).unwrap() {
        Export::Function(f) => {
            assert_eq!(f.function_flags, 0x401);
            assert_eq!(f.struct_export.super_struct, PackageIndex { index: -1 });
            assert_eq!(f.struct_export.script_bytecode, vec![0xAA, 0xBB]);
            assert!(f.get_normal_export().unwrap().properties.is_empty());
            assert_eq!(f.get_base_export(), &base);
            let mut out = Vec::new();
            f.write(&a.names, &a.custom_versions, &mut out).unwrap();
            assert_eq!(out, payload);
        }
        _ => panic!("expected a function export"),
    }
}

#[test]
fn function_export_with_undefined_flags_falls_back_to_raw() {
    let payload = function_payload(0x10);
    let (base, mut a) = function_asset(&payload, payload.len() as u32);
    let mut probe = function_asset(&payload, payload.len() as u32).1;
    probe.cursor.set_position(32).unwrap();
    assert!(matches!(
        unreal_asset_core::exports::FunctionExport::from_base(&base, &mut probe),
        Err(Error::InvalidFlags)
    ));
    match read_export(&base, &mut a).unwrap() {
        Export::Raw(raw) => assert_eq!(raw.data(), &payload),
        _ => panic!("expected a raw export"),
    }
}

#[test]
fn function_export_past_its_size_is_refused() {
    let payload = function_payload(0);
    let (base, mut a) = function_asset(&payload, payload.len() as u32 - 1);
    a.cursor.set_position(32).unwrap();
    assert!(matches!(
        unreal_asset_core::exports::FunctionExport::from_base(&base, &mut a),
        Err(Error::SizeMismatch)
    ));
    match read_export(&base, &mut a).unwrap() {
        Export::Raw(raw) => assert_eq!(raw.data().len(), payload.len() - 1),
        _ => panic!("expected a raw export"),
    }
}

#[test]
fn md5_hash_round_trips() {
    for flag in [1u32, 2] {
        let mut b = Vec::new();
        write_u32(&mut b, flag);
        b.extend_from_slice(&[3u8; 16]);
        let mut r = Reader::new(b.clone());
        let h = FMD5Hash::new(&mut r).unwrap();
        assert_eq!(h.hash(), Some([3u8; 16]));
        assert_eq!(h.has_hash(), flag);
        let mut out = Vec::new();
        h.write(&mut out);
        assert_eq!(out, b);
    }

    let mut r = Reader::new(vec![0, 0, 0, 0]);
    let h = FMD5Hash::new(&mut r).unwrap();
    assert_eq!(h.hash(), None);
    let mut out = Vec::new();
    h.write(&mut out);
    assert_eq!(out, vec![0, 0, 0, 0]);

    let mut r = Reader::new(vec![1, 0, 0, 0, 9]);
    assert!(matches!(FMD5Hash::new(&mut r), Err(Error::UnexpectedEof { offset: 4 })));
}

#[test]
fn little_endian_reads_and_writes() {
    let mut r = Reader::new(vec![0x78, 0x56, 0x34, 0x12, 0xFF, 0xFF, 0xFF, 0xFF]);
    assert_eq!(r.read_u32(), Ok(0x1234_5678));
    assert_eq!(r.read_i32(), Ok(-1));
    assert_eq!(r.read_u8(), Err(Error::UnexpectedEof { offset: 8 }));
    let mut out = Vec::new();
    write_u32(&mut out, 0x0102_0304);
    write_i32(&mut out, -2);
    assert_eq!(out, vec![4, 3, 2, 1, 0xFE, 0xFF, 0xFF, 0xFF]);
    let mut r = Reader::new(vec![1, 2, 3]);
    assert_eq!(r.set_position(4), Err(Error::UnexpectedEof { offset: 4 }));
    assert_eq!(r.set_position(1), Ok(()));
    assert_eq!(r.read_bytes(2), Ok(vec![2, 3]));
}

#[test]
fn export_table_reads_headers_in_order_then_payloads() {
    let mut bytes = header_bytes(-5, 2, 64);
    bytes.extend_from_slice(&header_bytes(-1, 8, 66));
    bytes.extend_from_slice(&[7, 7]);
    fname(&mut bytes, 1);
    let mut a = asset(bytes, table(&["ObjectThing", "None", "Pkg"]), CustomVersionSet::new());
    a.imports.push(Import {
        class_package: FName { index: 2, number: 0 },
        class_name: FName { index: 0, number: 0 },
        outer_index: PackageIndex { index: 0 },
        object_name: FName { index: 0, number: 0 },
    });
    let bases = a.read_export_table(2).unwrap();
    assert_eq!(bases.len(), 2);
    assert_eq!(bases[1].serial_offset, 66);
    assert_eq!(a.cursor.position(), 64);
    assert_eq!(export_names_of(&bases), vec![FName { index: 0, number: 0 }; 2]);
    let exports = read_exports(&bases, &mut a).unwrap();
    assert!(matches!(&exports[0], Export::Raw(r) if r.data() == &vec![7u8, 7]));
    match &exports[1] {
        Export::Normal(n) => {
            assert!(n.properties.is_empty());
            assert_eq!(n.get_base_export(), &bases[1]);
        }
        _ => panic!("expected a normal export"),
    }
    a.cursor.set_position(64).unwrap();
    assert!(matches!(a.read_export_table(1), Err(Error::UnexpectedEof { offset: 64 })));
}

#[test]
fn property_export_decodes_descriptor_by_class() {
    let mut payload = Vec::new();
    fname(&mut payload, 1);
    write_i32(&mut payload, 9);
    write_i32(&mut payload, 1);
    write_u32(&mut payload, 5);
    write_u32(&mut payload, 1);
    fname(&mut payload, 1);
    payload.extend_from_slice(&[1, 1]);
    let mut bytes = header_bytes(-1, payload.len() as u32, 32);
    bytes.extend_from_slice(&payload);
    let mut r = Reader::new(bytes.clone());
    let base = BaseExport::read(&mut r).unwrap();
    let mut a = asset(bytes, table(&["BoolProperty", "None"]), CustomVersionSet::new());
    a.imports.push(Import {
        class_package: FName { index: 1, number: 0 },
        class_name: FName { index: 0, number: 0 },
        outer_index: PackageIndex { index: 0 },
        object_name: FName { index: 0, number: 0 },
    });
    match read_export(&base, &mut a).unwrap() {
        Export::Property(p) => {
            assert_eq!(p.header_word, 9);
            assert_eq!(p.property.array_dim, 1);
            assert_eq!(p.property.property_flags, 0x1_0000_0005);
            assert_eq!(
                p.property.kind,
                UPropertyKind::Bool { element_size: 1, native_bool: 1 }
            );
            let mut out = Vec::new();
            p.write(&a.names, &a.custom_versions, &mut out).unwrap();
            assert_eq!(out, payload);
        }
        _ => panic!("expected a property export"),
    }
}

#[test]
fn import_round_trips() {
    let imp = Import {
        class_package: FName { index: 1, number: 2 },
        class_name: FName { index: 3, number: 0 },
        outer_index: PackageIndex { index: -4 },
        object_name: FName { index: 5, number: 6 },
    };
    let mut out = Vec::new();
    imp.write(&mut out);
    assert_eq!(out.len(), 28);
    assert_eq!(&out[16..20], &(-4i32).to_le_bytes());
    let mut r = Reader::new(out);
    assert_eq!(Import::read(&mut r), Ok(imp));
    let mut short = Reader::new(vec![0u8; 27]);
    assert_eq!(Import::read(&mut short), Err(Error::UnexpectedEof { offset: 0 }));
}

#[test]
fn none_with_instance_number_is_an_ordinary_name() {
    let names = table(&["None", "IntProperty"]);
    let mut b = Vec::new();
    b.extend_from_slice(&0i32.to_le_bytes());
    b.extend_from_slice(&7i32.to_le_bytes());
    fname(&mut b, 1);
    b.extend_from_slice(&4i32.to_le_bytes());
    b.extend_from_slice(&3i32.to_le_bytes());
    fname(&mut b, 0);
    let mut a = asset(b.clone(), names, CustomVersionSet::new());
    let props = a.read_property_list(true).unwrap();
    assert_eq!(props.len(), 1);
    assert_eq!(props[0].name, FName { index: 0, number: 7 });
    assert_eq!(props[0].value, PropertyValue::Int(3));
    let mut out = Vec::new();
    write_property_list(&props, &a.names, &a.custom_versions, true, &mut out).unwrap();
    assert_eq!(out, b);
}

#[test]
fn property_guid_flag_above_one_is_refused() {
    let mut versions = CustomVersionSet::new();
    versions.set(property_guid_feature(), 1);
    let mut b = vec![2u8];
    b.extend_from_slice(&[0u8; 32]);
    let mut a = asset(b, NameMap::new(), versions);
    let r = GuidProperty::new(FName { index: 0, number: 0 }, &mut a, true);
    assert_eq!(r, Err(Error::InvalidFlags));
}

#[test]
fn md5_hash_built_from_a_digest_round_trips() {
    for hash in [Some([9u8; 16]), None] {
        let h = FMD5Hash::from_hash(hash);
        let mut out = Vec::new();
        h.write(&mut out);
        assert_eq!(out.len(), if hash.is_some() { 20 } else { 4 });
        let mut r = Reader::new(out.clone());
        let back = FMD5Hash::new(&mut r).unwrap();
        assert_eq!(back.hash(), hash);
        assert_eq!(back.has_hash(), h.has_hash());
        assert_eq!(r.position(), out.len());
    }
}

#[test]
fn mutable_getters_change_only_their_part() {
    let payload = function_payload(0x0000_0401);
    let (base, mut a) = function_asset(&payload, payload.len() as u32);
    a.cursor.set_position(32).unwrap();
    let mut f = unreal_asset_core::exports::FunctionExport::from_base(&base, &mut a).unwrap();
    f.get_base_export_mut().object_flags = 77;
    assert_eq!(f.get_base_export().object_flags, 77);
    f.get_normal_export_mut().unwrap().base_export.serial_size = 5;
    assert_eq!(f.get_base_export().serial_size, 5);
    assert_eq!(f.function_flags, 0x401);
    assert_eq!(f.struct_export.script_bytecode, vec![0xAA, 0xBB]);
}
