use java_classfile::attributes::{AttributeInfo, StackMapFrame, VerificationTypeInfo};
use java_classfile::classfile::{AccessFlag, ClassAccessFlag, JavaClassFile};
use java_classfile::constant_pool::{ConstantKind, ConstantPoolInfo};
use java_classfile::utils::DecodeError;
use java_classfile::{decode, decode_prefix, hoge};

fn u16be(out: &mut Vec<u8>, v: u16) {
    out.extend_from_slice(&v.to_be_bytes());
}

fn u32be(out: &mut Vec<u8>, v: u32) {
    out.extend_from_slice(&v.to_be_bytes());
}

fn utf8(out: &mut Vec<u8>, text: &str) {
    out.push(1);
    u16be(out, text.len() as u16);
    out.extend_from_slice(text.as_bytes());
}

fn class_ref(out: &mut Vec<u8>, name_index: u16) {
    out.push(7);
    u16be(out, name_index);
}

fn attribute(out: &mut Vec<u8>, name_index: u16, payload: &[u8]) {
    u16be(out, name_index);
    u32be(out, payload.len() as u32);
    out.extend_from_slice(payload);
}

/// Header and a pool of `count` slots whose entries are `entries`.
fn header(count: u16, entries: &[u8]) -> Vec<u8> {
    let mut out = Vec::new();
    u32be(&mut out, 0xCAFEBABE);
    u16be(&mut out, 0);
    u16be(&mut out, 61);
    u16be(&mut out, count);
    out.extend_from_slice(entries);
    out
}

/// A class with one `Utf8` name and two class entries, no members and no attributes.
fn minimal_class() -> Vec<u8> {
    let mut pool = Vec::new();
    utf8(&mut pool, "Foo");
    class_ref(&mut pool, 1);
    class_ref(&mut pool, 1);
    let mut out = header(4, &pool);
    u16be(&mut out, 0x0021);
    u16be(&mut out, 2);
    u16be(&mut out, 3);
    u16be(&mut out, 0);
    u16be(&mut out, 0);
    u16be(&mut out, 0);
    u16be(&mut out, 0);
    out
}

/// Pool used by the classes with attributes below.
fn rich_pool() -> (u16, Vec<u8>) {
    let mut pool = Vec::new();
    utf8(&mut pool, "Code"); // 1
    utf8(&mut pool, "StackMapTable"); // 2
    utf8(&mut pool, "run"); // 3
    utf8(&mut pool, "()V"); // 4
    class_ref(&mut pool, 3); // 5
    utf8(&mut pool, "SourceFile"); // 6
    utf8(&mut pool, "Vendor"); // 7
    utf8(&mut pool, "Record"); // 8
    utf8(&mut pool, "Signature"); // 9
    utf8(&mut pool, "BootstrapMethods"); // 10
    utf8(&mut pool, "Exceptions"); // 11
    utf8(&mut pool, "LineNumberTable"); // 12
    utf8(&mut pool, "ConstantValue"); // 13
    (14, pool)
}

/// A class with no members whose top-level attribute table holds `attrs` (count, entries).
fn class_with_attributes(count: u16, attrs: &[u8]) -> Vec<u8> {
    let (n, pool) = rich_pool();
    let mut out = header(n, &pool);
    u16be(&mut out, 0x0001);
    u16be(&mut out, 5);
    u16be(&mut out, 5);
    u16be(&mut out, 0);
    u16be(&mut out, 0);
    u16be(&mut out, 0);
    u16be(&mut out, count);
    out.extend_from_slice(attrs);
    out
}

/// A class with one method whose `Code` attribute holds a `StackMapTable` with a same frame
/// and a full frame.
fn class_with_stack_map() -> Vec<u8> {
    let mut frames = Vec::new();
    u16be(&mut frames, 2);
    frames.push(10);
    frames.push(255);
    u16be(&mut frames, 5);
    u16be(&mut frames, 2);
    frames.push(1);
    frames.push(7);
    u16be(&mut frames, 5);
    u16be(&mut frames, 1);
    frames.push(0);
    let mut code = Vec::new();
    u16be(&mut code, 2);
    u16be(&mut code, 3);
    u32be(&mut code, 3);
    code.extend_from_slice(&[0x03, 0x3b, 0xb1]);
    u16be(&mut code, 1);
    u16be(&mut code, 0);
    u16be(&mut code, 2);
    u16be(&mut code, 2);
    u16be(&mut code, 5);
    u16be(&mut code, 1);
    attribute(&mut code, 2, &frames);
    let (n, pool) = rich_pool();
    let mut out = header(n, &pool);
    u16be(&mut out, 0x0001);
    u16be(&mut out, 5);
    u16be(&mut out, 5);
    u16be(&mut out, 0);
    u16be(&mut out, 0);
    u16be(&mut out, 1);
    u16be(&mut out, 0x0009);
    u16be(&mut out, 3);
    u16be(&mut out, 4);
    u16be(&mut out, 1);
    attribute(&mut out, 1, &code);
    u16be(&mut out, 0);
    out
}

#[test]
fn minimal_class_decodes() {
    let bytes = minimal_class();
    let (cf, end) = decode_prefix(&bytes).unwrap();
    assert_eq!(end, bytes.len());
    assert_eq!(cf.magic, 0xCAFEBABE);
    assert_eq!(cf.major_version, 61);
    assert_eq!(cf.constant_pool.len(), 4);
    assert_eq!(cf.constant_pool[0], ConstantPoolInfo::Dummy());
    match &cf.constant_pool[1] {
        ConstantPoolInfo::Utf8(u) => {
            assert_eq!(u.data, b"Foo".to_vec());
            assert_eq!(u.length, 3);
        }
        other => panic!("unexpected {:?}", other),
    }
    match &cf.constant_pool[2] {
        ConstantPoolInfo::Class(c) => {
            assert_eq!(c.name_index, 1);
            assert_eq!(c.tag, ConstantKind::Class);
        }
        other => panic!("unexpected {:?}", other),
    }
    assert_eq!(cf.access_flags, 0x0021);
    assert_eq!(cf.this_class, 2);
    assert_eq!(cf.super_class, 3);
    assert!(cf.interfaces.is_empty());
    assert!(cf.fields.is_empty());
    assert!(cf.methods.is_empty());
    assert!(cf.attributes.is_empty());
}

#[test]
fn every_truncation_of_minimal_class_is_truncation() {
    let bytes = minimal_class();
    for t in 0..bytes.len() {
        assert_eq!(decode(&bytes[..t]).err(), Some(DecodeError::Truncation), "prefix {}", t);
    }
}

#[test]
fn every_truncation_of_stack_map_class_is_truncation() {
    let bytes = class_with_stack_map();
    assert!(decode(&bytes).is_ok());
    for t in 0..bytes.len() {
        assert_eq!(decode(&bytes[..t]).err(), Some(DecodeError::Truncation), "prefix {}", t);
    }
}

#[test]
fn stack_map_same_frame_and_full_frame() {
    let bytes = class_with_stack_map();
    let (cf, end) = decode_prefix(&bytes).unwrap();
    assert_eq!(end, bytes.len());
    assert_eq!(cf.methods.len(), 1);
    let method = &cf.methods[0];
    assert_eq!(method.access_flags, 0x0009);
    assert_eq!(method.name_index, 3);
    assert_eq!(method.descriptor_index, 4);
    let code = match method.attributes.get(&1) {
        Some(AttributeInfo::Code(c)) => c,
        other => panic!("unexpected {:?}", other),
    };
    assert_eq!(code.max_stack, 2);
    assert_eq!(code.max_locals, 3);
    assert_eq!(code.code, vec![0x03, 0x3b, 0xb1]);
    assert_eq!(code.exception_table_length, 1);
    assert_eq!(code.exception_table[0].end_pc, 2);
    assert_eq!(code.exception_table[0].handler_pc, 2);
    assert_eq!(code.exception_table[0].catch_type, 5);
    let table = match code.attributes.get(&2) {
        Some(AttributeInfo::StackMapTable(t)) => t,
        other => panic!("unexpected {:?}", other),
    };
    assert_eq!(table.number_of_entries, 2);
    match &table.entries[0] {
        StackMapFrame::SameFrame(f) => assert_eq!(f.frame_type, 10),
        other => panic!("unexpected {:?}", other),
    }
    match &table.entries[1] {
        StackMapFrame::FullFrame(f) => {
            assert_eq!(f.frame_type, 255);
            assert_eq!(f.offset_delta, 5);
            assert_eq!(f.number_of_locals, 2);
            assert_eq!(
                f.locals,
                vec![VerificationTypeInfo::Integer, VerificationTypeInfo::Object { cpool_index: 5 }]
            );
            assert_eq!(f.number_of_stack_items, 1);
            assert_eq!(f.stack, vec![VerificationTypeInfo::Top]);
        }
        other => panic!("unexpected {:?}", other),
    }
}

#[test]
fn numeric_constants_are_big_endian() {
    let mut pool = Vec::new();
    pool.push(3);
    pool.extend_from_slice(&[0xFF, 0xFF, 0xFF, 0xFE]);
    pool.push(4);
    pool.extend_from_slice(&1.5f32.to_bits().to_be_bytes());
    pool.push(5);
    pool.extend_from_slice(&[0x01, 0x23, 0x45, 0x67, 0x89, 0xAB, 0xCD, 0xEF]);
    pool.push(6);
    pool.extend_from_slice(&(-2.25f64).to_bits().to_be_bytes());
    utf8(&mut pool, "x");
    let mut bytes = header(8, &pool);
    bytes.extend_from_slice(&[0, 0, 0, 0, 0, 0, 0, 0, 0, 0, 0, 0, 0, 0]);
    let cf = decode(&bytes).unwrap();
    assert_eq!(cf.constant_pool.len(), 8);
    match &cf.constant_pool[1] {
        ConstantPoolInfo::Integer(i) => assert_eq!(i.data, -2),
        other => panic!("unexpected {:?}", other),
    }
    match &cf.constant_pool[2] {
        ConstantPoolInfo::Float(f) => assert_eq!(f32::from_bits(f.data), 1.5),
        other => panic!("unexpected {:?}", other),
    }
    match &cf.constant_pool[3] {
        ConstantPoolInfo::Long(l) => assert_eq!(l.data, 0x0123456789ABCDEF),
        other => panic!("unexpected {:?}", other),
    }
    assert_eq!(cf.constant_pool[4], ConstantPoolInfo::Dummy());
    match &cf.constant_pool[5] {
        ConstantPoolInfo::Double(d) => {
            assert_eq!(d.data, 0xC002000000000000);
            assert_eq!(f64::from_bits(d.data), -2.25);
        }
        other => panic!("unexpected {:?}", other),
    }
    assert_eq!(cf.constant_pool[6], ConstantPoolInfo::Dummy());
    assert!(matches!(cf.constant_pool[7], ConstantPoolInfo::Utf8(_)));
}

#[test]
fn unknown_attribute_is_skipped_by_its_length() {
    let mut attrs = Vec::new();
    attribute(&mut attrs, 7, &[9, 9, 9, 0x00, 0x06]);
    attribute(&mut attrs, 6, &[0x00, 0x07]);
    let bytes = class_with_attributes(2, &attrs);
    let (cf, end) = decode_prefix(&bytes).unwrap();
    assert_eq!(end, bytes.len());
    assert_eq!(cf.attributes.len(), 1);
    assert!(cf.attributes.get(&7).is_none());
    match cf.attributes.get(&6) {
        Some(AttributeInfo::SourceFile(f)) => assert_eq!(f.sourcefile_index, 7),
        other => panic!("unexpected {:?}", other),
    }
}

#[test]
fn later_attribute_with_same_name_index_wins() {
    let mut attrs = Vec::new();
    attribute(&mut attrs, 6, &[0x00, 0x03]);
    attribute(&mut attrs, 6, &[0x00, 0x04]);
    let cf = decode(&class_with_attributes(2, &attrs)).unwrap();
    assert_eq!(cf.attributes.len(), 1);
    match cf.attributes.get(&6) {
        Some(AttributeInfo::SourceFile(f)) => assert_eq!(f.sourcefile_index, 4),
        other => panic!("unexpected {:?}", other),
    }
}

#[test]
fn record_components_carry_their_own_attributes() {
    let mut record = Vec::new();
    u16be(&mut record, 1);
    u16be(&mut record, 3);
    u16be(&mut record, 4);
    u16be(&mut record, 1);
    attribute(&mut record, 9, &[0x00, 0x04]);
    let mut attrs = Vec::new();
    attribute(&mut attrs, 8, &record);
    let cf = decode(&class_with_attributes(1, &attrs)).unwrap();
    let r = match cf.attributes.get(&8) {
        Some(AttributeInfo::Record(r)) => r,
        other => panic!("unexpected {:?}", other),
    };
    assert_eq!(r.components_count, 1);
    assert_eq!(r.components[0].name_index, 3);
    assert_eq!(r.components[0].descriptor_index, 4);
    match r.components[0].attributes.get(&9) {
        Some(AttributeInfo::Signature(s)) => assert_eq!(s.signature_index, 4),
        other => panic!("unexpected {:?}", other),
    }
}

#[test]
fn bootstrap_exceptions_and_line_numbers_decode() {
    let mut bsm = Vec::new();
    u16be(&mut bsm, 2);
    u16be(&mut bsm, 5);
    u16be(&mut bsm, 2);
    u16be(&mut bsm, 3);
    u16be(&mut bsm, 4);
    u16be(&mut bsm, 5);
    u16be(&mut bsm, 0);
    let mut exc = Vec::new();
    u16be(&mut exc, 2);
    u16be(&mut exc, 5);
    u16be(&mut exc, 5);
    let mut lines = Vec::new();
    u16be(&mut lines, 1);
    u16be(&mut lines, 0);
    u16be(&mut lines, 42);
    let mut attrs = Vec::new();
    attribute(&mut attrs, 10, &bsm);
    attribute(&mut attrs, 11, &exc);
    attribute(&mut attrs, 12, &lines);
    let cf = decode(&class_with_attributes(3, &attrs)).unwrap();
    match cf.attributes.get(&10) {
        Some(AttributeInfo::BootstrapMethods(b)) => {
            assert_eq!(b.num_bootstrap_methods, 2);
            assert_eq!(b.bootstrap_methods[0].bootstrap_method_ref, 5);
            assert_eq!(b.bootstrap_methods[0].bootstrap_arguments, vec![3, 4]);
            assert_eq!(b.bootstrap_methods[1].num_bootstrap_arguments, 0);
        }
        other => panic!("unexpected {:?}", other),
    }
    match cf.attributes.get(&11) {
        Some(AttributeInfo::Exceptions(e)) => assert_eq!(e.exception_index_table, vec![5, 5]),
        other => panic!("unexpected {:?}", other),
    }
    match cf.attributes.get(&12) {
        Some(AttributeInfo::LineNumberTable(l)) => assert_eq!(l.line_number_table[0].line_number, 42),
        other => panic!("unexpected {:?}", other),
    }
}

#[test]
fn constant_value_on_field() {
    let (n, pool) = rich_pool();
    let mut bytes = header(n, &pool);
    u16be(&mut bytes, 0x0001);
    u16be(&mut bytes, 5);
    u16be(&mut bytes, 5);
    u16be(&mut bytes, 1);
    u16be(&mut bytes, 5);
    u16be(&mut bytes, 1);
    u16be(&mut bytes, 0x0018);
    u16be(&mut bytes, 3);
    u16be(&mut bytes, 4);
    u16be(&mut bytes, 1);
    attribute(&mut bytes, 13, &[0x00, 0x07]);
    u16be(&mut bytes, 0);
    u16be(&mut bytes, 0);
    let cf = decode(&bytes).unwrap();
    assert_eq!(cf.interfaces, vec![5]);
    assert_eq!(cf.fields.len(), 1);
    assert_eq!(cf.fields[0].access_flags, 0x0018);
    match cf.fields[0].attributes.get(&13) {
        Some(AttributeInfo::ConstantValue(c)) => assert_eq!(c.constant_value_index, 7),
        other => panic!("unexpected {:?}", other),
    }
}

#[test]
fn bad_magic_is_format_mismatch() {
    let mut bytes = minimal_class();
    bytes[0] = 0xCB;
    assert_eq!(decode(&bytes).err(), Some(DecodeError::FormatMismatch));
    assert_eq!(hoge().err(), Some(DecodeError::FormatMismatch));
}

#[test]
fn unknown_constant_tag_is_unknown_tag() {
    let bytes = header(2, &[2, 0, 0]);
    assert_eq!(decode(&bytes).err(), Some(DecodeError::UnknownTag));
}

#[test]
fn attribute_name_of_wrong_kind_is_bad_reference() {
    let mut attrs = Vec::new();
    attribute(&mut attrs, 5, &[]);
    assert_eq!(decode(&class_with_attributes(1, &attrs)).err(), Some(DecodeError::BadReference));
    let mut attrs = Vec::new();
    attribute(&mut attrs, 99, &[]);
    assert_eq!(decode(&class_with_attributes(1, &attrs)).err(), Some(DecodeError::BadReference));
}

#[test]
fn reserved_frame_type_is_unknown_tag() {
    let mut frames = Vec::new();
    u16be(&mut frames, 1);
    frames.push(200);
    let mut attrs = Vec::new();
    attribute(&mut attrs, 2, &frames);
    assert_eq!(decode(&class_with_attributes(1, &attrs)).err(), Some(DecodeError::UnknownTag));
}

#[test]
fn attribute_longer_than_input_is_truncation() {
    let mut attrs = Vec::new();
    u16be(&mut attrs, 6);
    u32be(&mut attrs, 100);
    attrs.extend_from_slice(&[0, 1]);
    assert_eq!(decode(&class_with_attributes(1, &attrs)).err(), Some(DecodeError::Truncation));
}

#[test]
fn trailing_bytes_are_left_unread() {
    let mut bytes = minimal_class();
    let len = bytes.len();
    bytes.extend_from_slice(&[1, 2, 3]);
    let (_, end) = decode_prefix(&bytes).unwrap();
    assert_eq!(end, len);
}

#[test]
fn empty_count_pool_still_has_slot_zero() {
    let mut bytes = header(0, &[]);
    bytes.extend_from_slice(&[0, 0, 0, 0, 0, 0, 0, 0, 0, 0, 0, 0, 0, 0]);
    let cf = decode(&bytes).unwrap();
    assert_eq!(cf.constant_pool, vec![ConstantPoolInfo::Dummy()]);
}

#[test]
fn access_flag_tests() {
    assert!(ClassAccessFlag::Public.test(0x0021));
    assert!(ClassAccessFlag::Super.test(0x0021));
    assert!(!ClassAccessFlag::Interface.test(0x0021));
    let empty = JavaClassFile::empty();
    assert_eq!(empty.magic, 0xCAFEBABE);
    assert!(empty.constant_pool.is_empty());
}
