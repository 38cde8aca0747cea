use java_classfile::attributes::{
    attribute_kind, decode_attributes, AttributeInfo, AttributeKind, StackMapFrame,
    StackMapFrameType, VerificationTypeInfo,
};
use java_classfile::classfile::{
    decode_interfaces, decode_this_or_super_class, AccessFlag, FieldAccessFlag, MethodAccessFlag,
};
use java_classfile::constant_pool::{decode_constant_pool, utf8_info_bytes, ConstantKind, ConstantPoolInfo};
use java_classfile::utils::{
    read_f32, read_f64, read_i32, read_i64, read_str, read_u16, read_u32, read_u8, DecodeError,
};

fn entry(out: &mut Vec<u8>, name_index: u16, payload: &[u8]) {
    out.extend_from_slice(&name_index.to_be_bytes());
    out.extend_from_slice(&(payload.len() as u32).to_be_bytes());
    out.extend_from_slice(payload);
}

fn pool_of(names: &[&str]) -> Vec<ConstantPoolInfo> {
    let mut bytes = Vec::new();
    bytes.extend_from_slice(&((names.len() + 1) as u16).to_be_bytes());
    for n in names {
        bytes.push(1);
        bytes.extend_from_slice(&(n.len() as u16).to_be_bytes());
        bytes.extend_from_slice(n.as_bytes());
    }
    let (pool, end) = decode_constant_pool(&bytes, 0, bytes.len()).unwrap();
    assert_eq!(end, bytes.len());
    pool
}

#[test]
fn primitive_reads_are_big_endian() {
    let b = [0x12, 0x34, 0x56, 0x78, 0x9A, 0xBC, 0xDE, 0xF0];
    assert_eq!(read_u8(&b, 1, 8), Ok((0x34, 2)));
    assert_eq!(read_u16(&b, 0, 8), Ok((0x1234, 2)));
    assert_eq!(read_u32(&b, 0, 8), Ok((0x12345678, 4)));
    assert_eq!(read_i32(&[0x80, 0, 0, 0], 0, 4), Ok((i32::MIN, 4)));
    assert_eq!(read_i64(&b, 0, 8), Ok((0x123456789ABCDEF0, 8)));
    assert_eq!(read_f32(&1.0f32.to_bits().to_be_bytes(), 0, 4).map(|(v, _)| f32::from_bits(v)), Ok(1.0));
    let pi = std::f64::consts::PI;
    assert_eq!(read_f64(&pi.to_bits().to_be_bytes(), 0, 8).map(|(v, _)| f64::from_bits(v)), Ok(pi));
    assert_eq!(read_str(&b, 2, 3, 8), Ok((vec![0x56, 0x78, 0x9A], 5)));
}

#[test]
fn primitive_reads_stop_at_the_end_offset() {
    let b = [1, 2, 3, 4, 5, 6, 7, 8];
    assert_eq!(read_u16(&b, 7, 8), Err(DecodeError::Truncation));
    assert_eq!(read_u32(&b, 0, 3), Err(DecodeError::Truncation));
    assert_eq!(read_i64(&b, 1, 8), Err(DecodeError::Truncation));
    assert_eq!(read_u8(&b, 4, 4), Err(DecodeError::Truncation));
    assert_eq!(read_str(&b, 6, 3, 8), Err(DecodeError::Truncation));
}

#[test]
fn eight_byte_entry_at_last_index_places_its_placeholder_past_the_count() {
    let mut bytes = vec![0, 2, 5];
    bytes.extend_from_slice(&[0, 0, 0, 0, 0, 0, 0, 7]);
    let (pool, end) = decode_constant_pool(&bytes, 0, bytes.len()).unwrap();
    assert_eq!(end, bytes.len());
    assert_eq!(pool.len(), 3);
    assert!(matches!(pool[1], ConstantPoolInfo::Long(l) if l.data == 7));
    assert_eq!(pool[2], ConstantPoolInfo::Dummy());
}

#[test]
fn every_constant_kind_decodes() {
    let mut bytes = vec![0, 15];
    bytes.extend_from_slice(&[7, 0, 1]);
    bytes.extend_from_slice(&[8, 0, 2]);
    bytes.extend_from_slice(&[9, 0, 1, 0, 3]);
    bytes.extend_from_slice(&[10, 0, 1, 0, 4]);
    bytes.extend_from_slice(&[11, 0, 1, 0, 5]);
    bytes.extend_from_slice(&[12, 0, 6, 0, 7]);
    bytes.extend_from_slice(&[15, 6, 0, 8]);
    bytes.extend_from_slice(&[16, 0, 9]);
    bytes.extend_from_slice(&[17, 0, 10, 0, 11]);
    bytes.extend_from_slice(&[18, 0, 12, 0, 13]);
    bytes.extend_from_slice(&[19, 0, 14]);
    bytes.extend_from_slice(&[20, 0, 15]);
    bytes.extend_from_slice(&[3, 0, 0, 0, 42]);
    bytes.extend_from_slice(&[1, 0, 0]);
    let (pool, _) = decode_constant_pool(&bytes, 0, bytes.len()).unwrap();
    assert_eq!(pool.len(), 15);
    assert!(matches!(pool[1], ConstantPoolInfo::Class(c) if c.name_index == 1));
    assert!(matches!(pool[2], ConstantPoolInfo::String(c) if c.string_index == 2));
    assert!(matches!(pool[3], ConstantPoolInfo::FieldRef(c) if c.class_index == 1 && c.name_and_type_index == 3));
    assert!(matches!(pool[4], ConstantPoolInfo::MethodRef(c) if c.name_and_type_index == 4));
    assert!(matches!(pool[5], ConstantPoolInfo::InterfaceMethodRef(c) if c.name_and_type_index == 5));
    assert!(matches!(pool[6], ConstantPoolInfo::NameAndType(c) if c.name_index == 6 && c.descriptor_index == 7));
    assert!(matches!(pool[7], ConstantPoolInfo::MethodHandle(c) if c.reference_kind == 6 && c.reference_index == 8));
    assert!(matches!(pool[8], ConstantPoolInfo::MethodType(c) if c.descriptor_index == 9));
    assert!(matches!(pool[9], ConstantPoolInfo::Dynamic(c) if c.bootstrap_method_handle_attr_index == 10 && c.name_and_type_index == 11));
    assert!(matches!(pool[10], ConstantPoolInfo::InvokeDynamic(c) if c.bootstrap_method_attr_index == 12 && c.name_and_type_index == 13));
    assert!(matches!(pool[11], ConstantPoolInfo::Module(c) if c.name_index == 14));
    assert!(matches!(pool[12], ConstantPoolInfo::Package(c) if c.name_index == 15 && c.tag == ConstantKind::Package));
    assert!(matches!(pool[13], ConstantPoolInfo::Integer(c) if c.data == 42));
    match &pool[14] {
        ConstantPoolInfo::Utf8(u) => assert!(u.data.is_empty() && u.length == 0),
        other => panic!("unexpected {:?}", other),
    }
}

#[test]
fn kinds_and_frame_types_by_their_bytes() {
    assert_eq!(ConstantKind::from_tag(12), Some(ConstantKind::NameAndType));
    assert_eq!(ConstantKind::from_tag(2), None);
    assert_eq!(ConstantKind::Package.tag(), 20);
    assert_eq!(StackMapFrameType::from_frame_type(63), Some(StackMapFrameType::SameFrame));
    assert_eq!(StackMapFrameType::from_frame_type(64), Some(StackMapFrameType::SameLocals1StackItemFrame));
    assert_eq!(StackMapFrameType::from_frame_type(128), None);
    assert_eq!(StackMapFrameType::from_frame_type(246), None);
    assert_eq!(StackMapFrameType::from_frame_type(247), Some(StackMapFrameType::SameLocals1StackItemFrameExtended));
    assert_eq!(StackMapFrameType::from_frame_type(250), Some(StackMapFrameType::ChopFrame));
    assert_eq!(StackMapFrameType::from_frame_type(251), Some(StackMapFrameType::SameFrameExtended));
    assert_eq!(StackMapFrameType::from_frame_type(254), Some(StackMapFrameType::AppendFrame));
    assert_eq!(StackMapFrameType::from_frame_type(255), Some(StackMapFrameType::FullFrame));
    assert_eq!(attribute_kind(b"Code"), Some(AttributeKind::Code));
    assert_eq!(attribute_kind(b"PermittedSubclasses"), Some(AttributeKind::PermittedSubclasses));
    assert_eq!(attribute_kind(b"RuntimeVisibleAnnotations"), None);
    assert_eq!(attribute_kind(b"Cod"), None);
}

#[test]
fn utf8_lookup_checks_the_entry_kind() {
    let pool = pool_of(&["Code"]);
    assert_eq!(utf8_info_bytes(&pool, 1), Ok(&b"Code"[..]));
    assert_eq!(utf8_info_bytes(&pool, 0), Err(DecodeError::BadReference));
    assert_eq!(utf8_info_bytes(&pool, 2), Err(DecodeError::BadReference));
}

#[test]
fn class_references_and_interfaces() {
    let b = [0, 7, 0, 2, 0, 3, 0, 4];
    assert_eq!(decode_this_or_super_class(&b, 0, 8), Ok((7, 2)));
    assert_eq!(decode_interfaces(&b, 2, 8), Ok((vec![3, 4], 8)));
    assert_eq!(decode_interfaces(&b, 2, 7), Err(DecodeError::Truncation));
}

#[test]
fn other_frame_shapes_decode() {
    let pool = pool_of(&["StackMapTable"]);
    let mut frames = vec![0, 5];
    frames.extend_from_slice(&[70, 7, 0, 9]);
    frames.extend_from_slice(&[247, 0, 3, 8, 0, 12]);
    frames.extend_from_slice(&[249, 0, 4]);
    frames.extend_from_slice(&[251, 0, 5]);
    frames.extend_from_slice(&[253, 0, 6, 2, 4]);
    let mut bytes = vec![0, 1];
    entry(&mut bytes, 1, &frames);
    let (attrs, end) = decode_attributes(&bytes, 0, bytes.len(), &pool).unwrap();
    assert_eq!(end, bytes.len());
    let table = match attrs.get(&1) {
        Some(AttributeInfo::StackMapTable(t)) => t,
        other => panic!("unexpected {:?}", other),
    };
    match &table.entries[0] {
        StackMapFrame::SameLocals1StackItemFrame(f) => {
            assert_eq!(f.frame_type, 70);
            assert_eq!(f.stack, VerificationTypeInfo::Object { cpool_index: 9 });
        }
        other => panic!("unexpected {:?}", other),
    }
    match &table.entries[1] {
        StackMapFrame::SameLocals1StackItemFrameExtended(f) => {
            assert_eq!(f.offset_delta, 3);
            assert_eq!(f.stack, VerificationTypeInfo::Uninitialized { offset: 12 });
        }
        other => panic!("unexpected {:?}", other),
    }
    assert!(matches!(&table.entries[2], StackMapFrame::ChopFrame(f) if f.frame_type == 249 && f.offset_delta == 4));
    assert!(matches!(&table.entries[3], StackMapFrame::SameFrameExtended(f) if f.offset_delta == 5));
    match &table.entries[4] {
        StackMapFrame::AppendFrame(f) => {
            assert_eq!(f.offset_delta, 6);
            assert_eq!(f.locals, vec![VerificationTypeInfo::Float, VerificationTypeInfo::Long]);
        }
        other => panic!("unexpected {:?}", other),
    }
}

#[test]
fn unknown_verification_type_is_unknown_tag() {
    let pool = pool_of(&["StackMapTable"]);
    let mut bytes = vec![0, 1];
    entry(&mut bytes, 1, &[0, 1, 64, 9]);
    assert_eq!(decode_attributes(&bytes, 0, bytes.len(), &pool).err(), Some(DecodeError::UnknownTag));
}

#[test]
fn reading_past_a_payload_is_truncation() {
    let pool = pool_of(&["SourceFile"]);
    let mut bytes = vec![0, 1];
    entry(&mut bytes, 1, &[0]);
    bytes.extend_from_slice(&[0, 0, 0]);
    assert_eq!(decode_attributes(&bytes, 0, bytes.len(), &pool).err(), Some(DecodeError::Truncation));
}

#[test]
fn remaining_simple_attributes_decode() {
    let pool = pool_of(&[
        "InnerClasses",
        "EnclosingMethod",
        "Synthetic",
        "LocalVariableTable",
        "LocalVariableTypeTable",
        "NestHost",
        "NestMembers",
        "PermittedSubclasses",
    ]);
    let mut bytes = vec![0, 8];
    entry(&mut bytes, 1, &[0, 1, 0, 2, 0, 3, 0, 4, 0, 9]);
    entry(&mut bytes, 2, &[0, 5, 0, 6]);
    entry(&mut bytes, 3, &[]);
    entry(&mut bytes, 4, &[0, 1, 0, 0, 0, 10, 0, 3, 0, 4, 0, 1]);
    entry(&mut bytes, 5, &[0, 1, 0, 2, 0, 8, 0, 3, 0, 5, 0, 0]);
    entry(&mut bytes, 6, &[0, 11]);
    entry(&mut bytes, 7, &[0, 2, 0, 12, 0, 13]);
    entry(&mut bytes, 8, &[0, 1, 0, 14]);
    let (attrs, end) = decode_attributes(&bytes, 0, bytes.len(), &pool).unwrap();
    assert_eq!(end, bytes.len());
    assert_eq!(attrs.len(), 8);
    match attrs.get(&1) {
        Some(AttributeInfo::InnerClasses(x)) => {
            assert_eq!(x.number_of_classes, 1);
            assert_eq!(x.classes[0].inner_class_info_index, 2);
            assert_eq!(x.classes[0].inner_class_access_flags, 9);
        }
        other => panic!("unexpected {:?}", other),
    }
    assert!(matches!(attrs.get(&2), Some(AttributeInfo::EnclosingMethod(x)) if x.class_index == 5 && x.method_index == 6));
    assert!(matches!(attrs.get(&3), Some(AttributeInfo::Synthetic(_))));
    match attrs.get(&4) {
        Some(AttributeInfo::LocalVariableTable(x)) => {
            assert_eq!(x.local_variable_table[0].length, 10);
            assert_eq!(x.local_variable_table[0].name_index, 3);
            assert_eq!(x.local_variable_table[0].descriptor_index, 4);
            assert_eq!(x.local_variable_table[0].index, 1);
        }
        other => panic!("unexpected {:?}", other),
    }
    match attrs.get(&5) {
        Some(AttributeInfo::LocalVariableTypeTable(x)) => {
            assert_eq!(x.local_variable_type_table[0].start_pc, 2);
            assert_eq!(x.local_variable_type_table[0].signature_index, 5);
        }
        other => panic!("unexpected {:?}", other),
    }
    assert!(matches!(attrs.get(&6), Some(AttributeInfo::NestHost(x)) if x.host_class_index == 11));
    assert!(matches!(attrs.get(&7), Some(AttributeInfo::NestMembers(x)) if x.classes == vec![12, 13]));
    assert!(matches!(attrs.get(&8), Some(AttributeInfo::PermittedSubtypes(x)) if x.classes == vec![14]));
}

#[test]
fn field_and_method_flags() {
    assert!(FieldAccessFlag::Static.test(0x0018));
    assert!(!FieldAccessFlag::Volatile.test(0x0018));
    assert!(MethodAccessFlag::Native.test(0x0100));
    assert_eq!(MethodAccessFlag::Strict.bit(), 0x0800);
}
