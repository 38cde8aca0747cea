//! The constant pool: a 1-indexed table of constants that the rest of the class file refers to.
use vstd::prelude::*;

use crate::utils::{
    be16, be32, be64, read_f32, read_f64, read_i32, read_i64, read_str, read_u16, read_u8,
    DecodeError,
};

verus! {

/// Kinds of constant-pool entries.
#[derive(Debug, Clone, Copy, PartialEq, Eq, Structural)]
pub enum ConstantKind {
    Utf8,
    Integer,
    Float,
    Long,
    Double,
    Class,
    String,
    FieldRef,
    MethodRef,
    InterfaceMethodRef,
    NameAndType,
    MethodHandle,
    MethodType,
    Dynamic,
    InvokeDynamic,
    Module,
    Package,
}

/// The kind that a tag byte denotes, if any.
pub open spec fn kind_of_tag(t: u8) -> Option<ConstantKind> {
    match t {
        1 => Some(ConstantKind::Utf8),
        3 => Some(ConstantKind::Integer),
        4 => Some(ConstantKind::Float),
        5 => Some(ConstantKind::Long),
        6 => Some(ConstantKind::Double),
        7 => Some(ConstantKind::Class),
        8 => Some(ConstantKind::String),
        9 => Some(ConstantKind::FieldRef),
        10 => Some(ConstantKind::MethodRef),
        11 => Some(ConstantKind::InterfaceMethodRef),
        12 => Some(ConstantKind::NameAndType),
        15 => Some(ConstantKind::MethodHandle),
        16 => Some(ConstantKind::MethodType),
        17 => Some(ConstantKind::Dynamic),
        18 => Some(ConstantKind::InvokeDynamic),
        19 => Some(ConstantKind::Module),
        20 => Some(ConstantKind::Package),
        _ => None,
    }
}

impl ConstantKind {
    /// The tag byte of this kind.
    pub open spec fn spec_tag(self) -> u8 {
        match self {
            ConstantKind::Utf8 => 1,
            ConstantKind::Integer => 3,
            ConstantKind::Float => 4,
            ConstantKind::Long => 5,
            ConstantKind::Double => 6,
            ConstantKind::Class => 7,
            ConstantKind::String => 8,
            ConstantKind::FieldRef => 9,
            ConstantKind::MethodRef => 10,
            ConstantKind::InterfaceMethodRef => 11,
            ConstantKind::NameAndType => 12,
            ConstantKind::MethodHandle => 15,
            ConstantKind::MethodType => 16,
            ConstantKind::Dynamic => 17,
            ConstantKind::InvokeDynamic => 18,
            ConstantKind::Module => 19,
            ConstantKind::Package => 20,
        }
    }

    /// The tag byte of this kind.
    pub fn tag(&self) -> (r: u8)
        ensures
            r == self.spec_tag(),
            kind_of_tag(r) == Some(*self),
    {
        match self {
            ConstantKind::Utf8 => 1,
            ConstantKind::Integer => 3,
            ConstantKind::Float => 4,
            ConstantKind::Long => 5,
            ConstantKind::Double => 6,
            ConstantKind::Class => 7,
            ConstantKind::String => 8,
            ConstantKind::FieldRef => 9,
            ConstantKind::MethodRef => 10,
            ConstantKind::InterfaceMethodRef => 11,
            ConstantKind::NameAndType => 12,
            ConstantKind::MethodHandle => 15,
            ConstantKind::MethodType => 16,
            ConstantKind::Dynamic => 17,
            ConstantKind::InvokeDynamic => 18,
            ConstantKind::Module => 19,
            ConstantKind::Package => 20,
        }
    }

    /// The kind that a tag byte denotes; `None` for a tag that the format does not define.
    pub fn from_tag(t: u8) -> (r: Option<ConstantKind>)
        ensures
            r == kind_of_tag(t),
            r matches Some(k) ==> k.spec_tag() == t,
    {
        match t {
            1 => Some(ConstantKind::Utf8),
            3 => Some(ConstantKind::Integer),
            4 => Some(ConstantKind::Float),
            5 => Some(ConstantKind::Long),
            6 => Some(ConstantKind::Double),
            7 => Some(ConstantKind::Class),
            8 => Some(ConstantKind::String),
            9 => Some(ConstantKind::FieldRef),
            10 => Some(ConstantKind::MethodRef),
            11 => Some(ConstantKind::InterfaceMethodRef),
            12 => Some(ConstantKind::NameAndType),
            15 => Some(ConstantKind::MethodHandle),
            16 => Some(ConstantKind::MethodType),
            17 => Some(ConstantKind::Dynamic),
            18 => Some(ConstantKind::InvokeDynamic),
            19 => Some(ConstantKind::Module),
            20 => Some(ConstantKind::Package),
            _ => None,
        }
    }
}

/// One slot of the constant pool.
#[derive(Debug, Clone, PartialEq, Eq)]
pub enum ConstantPoolInfo {
    /// An unusable slot: index 0, and the index after each `Long` or `Double`.
    Dummy(),
    Class(ConstantClassInfo),
    FieldRef(ConstantFieldRefInfo),
    MethodRef(ConstantMethodRefInfo),
    InterfaceMethodRef(ConstantInterfaceMethodRefInfo),
    String(ConstantStringInfo),
    Integer(ConstantIntegerInfo),
    Float(ConstantFloatInfo),
    Long(ConstantLongInfo),
    Double(ConstantDoubleInfo),
    NameAndType(ConstantNameAndTypeInfo),
    Utf8(ConstantUtf8Info),
    MethodHandle(ConstantMethodHandleInfo),
    MethodType(ConstantMethodTypeInfo),
    Dynamic(ConstantDynamicInfo),
    InvokeDynamic(ConstantInvokeDynamicInfo),
    Module(ConstantModuleInfo),
    Package(ConstantPackageInfo),
}

/// A `Class` constant (tag 7).
#[derive(Debug, Clone, Copy, PartialEq, Eq, Structural)]
pub struct ConstantClassInfo {
    pub tag: ConstantKind,
    pub name_index: usize,
}

/// A `FieldRef` constant (tag 9).
#[derive(Debug, Clone, Copy, PartialEq, Eq, Structural)]
pub struct ConstantFieldRefInfo {
    pub tag: ConstantKind,
    pub class_index: usize,
    pub name_and_type_index: usize,
}

/// A `MethodRef` constant (tag 10).
#[derive(Debug, Clone, Copy, PartialEq, Eq, Structural)]
pub struct ConstantMethodRefInfo {
    pub tag: ConstantKind,
    pub class_index: usize,
    pub name_and_type_index: usize,
}

/// A `InterfaceMethodRef` constant (tag 11).
#[derive(Debug, Clone, Copy, PartialEq, Eq, Structural)]
pub struct ConstantInterfaceMethodRefInfo {
    pub tag: ConstantKind,
    pub class_index: usize,
    pub name_and_type_index: usize,
}

/// A `String` constant (tag 8).
#[derive(Debug, Clone, Copy, PartialEq, Eq, Structural)]
pub struct ConstantStringInfo {
    pub tag: ConstantKind,
    pub string_index: usize,
}

/// A `Integer` constant (tag 3).
#[derive(Debug, Clone, Copy, PartialEq, Eq, Structural)]
pub struct ConstantIntegerInfo {
    pub tag: ConstantKind,
    pub data: i32,
}

/// A `Float` constant (tag 4).
#[derive(Debug, Clone, Copy, PartialEq, Eq, Structural)]
pub struct ConstantFloatInfo {
    pub tag: ConstantKind,
    ///bit pattern of the IEEE 754 single-precision value
    pub data: u32,
}

/// A `Long` constant (tag 5).
#[derive(Debug, Clone, Copy, PartialEq, Eq, Structural)]
pub struct ConstantLongInfo {
    pub tag: ConstantKind,
    pub data: i64,
}

/// A `Double` constant (tag 6).
#[derive(Debug, Clone, Copy, PartialEq, Eq, Structural)]
pub struct ConstantDoubleInfo {
    pub tag: ConstantKind,
    ///bit pattern of the IEEE 754 double-precision value
    pub data: u64,
}

/// A `NameAndType` constant (tag 12).
#[derive(Debug, Clone, Copy, PartialEq, Eq, Structural)]
pub struct ConstantNameAndTypeInfo {
    pub tag: ConstantKind,
    pub name_index: usize,
    pub descriptor_index: usize,
}

/// A `MethodHandle` constant (tag 15).
#[derive(Debug, Clone, Copy, PartialEq, Eq, Structural)]
pub struct ConstantMethodHandleInfo {
    pub tag: ConstantKind,
    pub reference_kind: u8,
    pub reference_index: usize,
}

/// A `MethodType` constant (tag 16).
#[derive(Debug, Clone, Copy, PartialEq, Eq, Structural)]
pub struct ConstantMethodTypeInfo {
    pub tag: ConstantKind,
    pub descriptor_index: usize,
}

/// A `Dynamic` constant (tag 17).
#[derive(Debug, Clone, Copy, PartialEq, Eq, Structural)]
pub struct ConstantDynamicInfo {
    pub tag: ConstantKind,
    pub bootstrap_method_handle_attr_index: usize,
    pub name_and_type_index: usize,
}

/// A `InvokeDynamic` constant (tag 18).
#[derive(Debug, Clone, Copy, PartialEq, Eq, Structural)]
pub struct ConstantInvokeDynamicInfo {
    pub tag: ConstantKind,
    pub bootstrap_method_attr_index: usize,
    pub name_and_type_index: usize,
}

/// A `Module` constant (tag 19).
#[derive(Debug, Clone, Copy, PartialEq, Eq, Structural)]
pub struct ConstantModuleInfo {
    pub tag: ConstantKind,
    pub name_index: usize,
}

/// A `Package` constant (tag 20).
#[derive(Debug, Clone, Copy, PartialEq, Eq, Structural)]
pub struct ConstantPackageInfo {
    pub tag: ConstantKind,
    pub name_index: usize,
}

/// A `Utf8` constant (tag 1): text in the format's modified UTF-8, kept as its encoded bytes.
#[derive(Debug, Clone, PartialEq, Eq)]
pub struct ConstantUtf8Info {
    pub tag: ConstantKind,
    pub length: usize,
    pub data: Vec<u8>,
}

/// The `ConstantClassInfo` whose body starts at offset `p` of `s` (tag 7).
pub open spec fn class_info_at(s: Seq<u8>, p: int) -> ConstantClassInfo {
    ConstantClassInfo { tag: ConstantKind::Class, name_index: be16(s, p) as usize }
}

/// Decodes the 2-byte body of a `Class` constant at `pos`.
fn decode_class_info(buffer: &[u8], pos: usize, end: usize) -> (r: Result<
    (ConstantClassInfo, usize),
    DecodeError,
>)
    requires
        pos <= end <= buffer@.len(),
    ensures
        match r {
            Ok((v, q)) => q == pos + 2 <= end && v == class_info_at(buffer@, pos as int),
            Err(e) => pos + 2 > end && e == DecodeError::Truncation,
        },
{
    let (name_index, q0) = read_u16(buffer, pos, end)?;
    Ok((ConstantClassInfo { tag: ConstantKind::Class, name_index: name_index as usize }, q0))
}

/// The `ConstantFieldRefInfo` whose body starts at offset `p` of `s` (tag 9).
pub open spec fn field_ref_info_at(s: Seq<u8>, p: int) -> ConstantFieldRefInfo {
    ConstantFieldRefInfo {
        tag: ConstantKind::FieldRef,
        class_index: be16(s, p) as usize,
        name_and_type_index: be16(s, p + 2) as usize,
    }
}

/// Decodes the 4-byte body of a `FieldRef` constant at `pos`.
fn decode_field_ref_info(buffer: &[u8], pos: usize, end: usize) -> (r: Result<
    (ConstantFieldRefInfo, usize),
    DecodeError,
>)
    requires
        pos <= end <= buffer@.len(),
    ensures
        match r {
            Ok((v, q)) => q == pos + 4 <= end && v == field_ref_info_at(buffer@, pos as int),
            Err(e) => pos + 4 > end && e == DecodeError::Truncation,
        },
{
    let (class_index, q0) = read_u16(buffer, pos, end)?;
    let (name_and_type_index, q1) = read_u16(buffer, q0, end)?;
    Ok((
        ConstantFieldRefInfo {
            tag: ConstantKind::FieldRef,
            class_index: class_index as usize,
            name_and_type_index: name_and_type_index as usize,
        },
        q1,
    ))
}

/// The `ConstantMethodRefInfo` whose body starts at offset `p` of `s` (tag 10).
pub open spec fn method_ref_info_at(s: Seq<u8>, p: int) -> ConstantMethodRefInfo {
    ConstantMethodRefInfo {
        tag: ConstantKind::MethodRef,
        class_index: be16(s, p) as usize,
        name_and_type_index: be16(s, p + 2) as usize,
    }
}

/// Decodes the 4-byte body of a `MethodRef` constant at `pos`.
fn decode_method_ref_info(buffer: &[u8], pos: usize, end: usize) -> (r: Result<
    (ConstantMethodRefInfo, usize),
    DecodeError,
>)
    requires
        pos <= end <= buffer@.len(),
    ensures
        match r {
            Ok((v, q)) => q == pos + 4 <= end && v == method_ref_info_at(buffer@, pos as int),
            Err(e) => pos + 4 > end && e == DecodeError::Truncation,
        },
{
    let (class_index, q0) = read_u16(buffer, pos, end)?;
    let (name_and_type_index, q1) = read_u16(buffer, q0, end)?;
    Ok((
        ConstantMethodRefInfo {
            tag: ConstantKind::MethodRef,
            class_index: class_index as usize,
            name_and_type_index: name_and_type_index as usize,
        },
        q1,
    ))
}

/// The `ConstantInterfaceMethodRefInfo` whose body starts at offset `p` of `s` (tag 11).
pub open spec fn interface_method_ref_info_at(
    s: Seq<u8>,
    p: int,
) -> ConstantInterfaceMethodRefInfo {
    ConstantInterfaceMethodRefInfo {
        tag: ConstantKind::InterfaceMethodRef,
        class_index: be16(s, p) as usize,
        name_and_type_index: be16(s, p + 2) as usize,
    }
}

/// Decodes the 4-byte body of a `InterfaceMethodRef` constant at `pos`.
fn decode_interface_method_ref_info(buffer: &[u8], pos: usize, end: usize) -> (r: Result<
    (ConstantInterfaceMethodRefInfo, usize),
    DecodeError,
>)
    requires
        pos <= end <= buffer@.len(),
    ensures
        match r {
            Ok((v, q)) => q == pos + 4 <= end
                && v == interface_method_ref_info_at(buffer@, pos as int),
            Err(e) => pos + 4 > end && e == DecodeError::Truncation,
        },
{
    let (class_index, q0) = read_u16(buffer, pos, end)?;
    let (name_and_type_index, q1) = read_u16(buffer, q0, end)?;
    Ok((
        ConstantInterfaceMethodRefInfo {
            tag: ConstantKind::InterfaceMethodRef,
            class_index: class_index as usize,
            name_and_type_index: name_and_type_index as usize,
        },
        q1,
    ))
}

/// The `ConstantStringInfo` whose body starts at offset `p` of `s` (tag 8).
pub open spec fn string_info_at(s: Seq<u8>, p: int) -> ConstantStringInfo {
    ConstantStringInfo { tag: ConstantKind::String, string_index: be16(s, p) as usize }
}

/// Decodes the 2-byte body of a `String` constant at `pos`.
fn decode_string_info(buffer: &[u8], pos: usize, end: usize) -> (r: Result<
    (ConstantStringInfo, usize),
    DecodeError,
>)
    requires
        pos <= end <= buffer@.len(),
    ensures
        match r {
            Ok((v, q)) => q == pos + 2 <= end && v == string_info_at(buffer@, pos as int),
            Err(e) => pos + 2 > end && e == DecodeError::Truncation,
        },
{
    let (string_index, q0) = read_u16(buffer, pos, end)?;
    Ok((ConstantStringInfo { tag: ConstantKind::String, string_index: string_index as usize }, q0))
}

/// The `ConstantIntegerInfo` whose body starts at offset `p` of `s` (tag 3).
pub open spec fn integer_info_at(s: Seq<u8>, p: int) -> ConstantIntegerInfo {
    ConstantIntegerInfo { tag: ConstantKind::Integer, data: be32(s, p) as i32 }
}

/// Decodes the 4-byte body of a `Integer` constant at `pos`.
fn decode_integer_info(buffer: &[u8], pos: usize, end: usize) -> (r: Result<
    (ConstantIntegerInfo, usize),
    DecodeError,
>)
    requires
        pos <= end <= buffer@.len(),
    ensures
        match r {
            Ok((v, q)) => q == pos + 4 <= end && v == integer_info_at(buffer@, pos as int),
            Err(e) => pos + 4 > end && e == DecodeError::Truncation,
        },
{
    let (data, q0) = read_i32(buffer, pos, end)?;
    Ok((ConstantIntegerInfo { tag: ConstantKind::Integer, data }, q0))
}

/// The `ConstantFloatInfo` whose body starts at offset `p` of `s` (tag 4).
pub open spec fn float_info_at(s: Seq<u8>, p: int) -> ConstantFloatInfo {
    ConstantFloatInfo { tag: ConstantKind::Float, data: be32(s, p) }
}

/// Decodes the 4-byte body of a `Float` constant at `pos`.
fn decode_float_info(buffer: &[u8], pos: usize, end: usize) -> (r: Result<
    (ConstantFloatInfo, usize),
    DecodeError,
>)
    requires
        pos <= end <= buffer@.len(),
    ensures
        match r {
            Ok((v, q)) => q == pos + 4 <= end && v == float_info_at(buffer@, pos as int),
            Err(e) => pos + 4 > end && e == DecodeError::Truncation,
        },
{
    let (data, q0) = read_f32(buffer, pos, end)?;
    Ok((ConstantFloatInfo { tag: ConstantKind::Float, data }, q0))
}

/// The `ConstantLongInfo` whose body starts at offset `p` of `s` (tag 5).
pub open spec fn long_info_at(s: Seq<u8>, p: int) -> ConstantLongInfo {
    ConstantLongInfo { tag: ConstantKind::Long, data: be64(s, p) as i64 }
}

/// Decodes the 8-byte body of a `Long` constant at `pos`.
fn decode_long_info(buffer: &[u8], pos: usize, end: usize) -> (r: Result<
    (ConstantLongInfo, usize),
    DecodeError,
>)
    requires
        pos <= end <= buffer@.len(),
    ensures
        match r {
            Ok((v, q)) => q == pos + 8 <= end && v == long_info_at(buffer@, pos as int),
            Err(e) => pos + 8 > end && e == DecodeError::Truncation,
        },
{
    let (data, q0) = read_i64(buffer, pos, end)?;
    Ok((ConstantLongInfo { tag: ConstantKind::Long, data }, q0))
}

/// The `ConstantDoubleInfo` whose body starts at offset `p` of `s` (tag 6).
pub open spec fn double_info_at(s: Seq<u8>, p: int) -> ConstantDoubleInfo {
    ConstantDoubleInfo { tag: ConstantKind::Double, data: be64(s, p) }
}

/// Decodes the 8-byte body of a `Double` constant at `pos`.
fn decode_double_info(buffer: &[u8], pos: usize, end: usize) -> (r: Result<
    (ConstantDoubleInfo, usize),
    DecodeError,
>)
    requires
        pos <= end <= buffer@.len(),
    ensures
        match r {
            Ok((v, q)) => q == pos + 8 <= end && v == double_info_at(buffer@, pos as int),
            Err(e) => pos + 8 > end && e == DecodeError::Truncation,
        },
{
    let (data, q0) = read_f64(buffer, pos, end)?;
    Ok((ConstantDoubleInfo { tag: ConstantKind::Double, data }, q0))
}

/// The `ConstantNameAndTypeInfo` whose body starts at offset `p` of `s` (tag 12).
pub open spec fn name_and_type_info_at(s: Seq<u8>, p: int) -> ConstantNameAndTypeInfo {
    ConstantNameAndTypeInfo {
        tag: ConstantKind::NameAndType,
        name_index: be16(s, p) as usize,
        descriptor_index: be16(s, p + 2) as usize,
    }
}

/// Decodes the 4-byte body of a `NameAndType` constant at `pos`.
fn decode_name_and_type_info(buffer: &[u8], pos: usize, end: usize) -> (r: Result<
    (ConstantNameAndTypeInfo, usize),
    DecodeError,
>)
    requires
        pos <= end <= buffer@.len(),
    ensures
        match r {
            Ok((v, q)) => q == pos + 4 <= end && v == name_and_type_info_at(buffer@, pos as int),
            Err(e) => pos + 4 > end && e == DecodeError::Truncation,
        },
{
    let (name_index, q0) = read_u16(buffer, pos, end)?;
    let (descriptor_index, q1) = read_u16(buffer, q0, end)?;
    Ok((
        ConstantNameAndTypeInfo {
            tag: ConstantKind::NameAndType,
            name_index: name_index as usize,
            descriptor_index: descriptor_index as usize,
        },
        q1,
    ))
}

/// The `ConstantMethodHandleInfo` whose body starts at offset `p` of `s` (tag 15).
pub open spec fn method_handle_info_at(s: Seq<u8>, p: int) -> ConstantMethodHandleInfo {
    ConstantMethodHandleInfo {
        tag: ConstantKind::MethodHandle,
        reference_kind: s[p],
        reference_index: be16(s, p + 1) as usize,
    }
}

/// Decodes the 3-byte body of a `MethodHandle` constant at `pos`.
fn decode_method_handle_info(buffer: &[u8], pos: usize, end: usize) -> (r: Result<
    (ConstantMethodHandleInfo, usize),
    DecodeError,
>)
    requires
        pos <= end <= buffer@.len(),
    ensures
        match r {
            Ok((v, q)) => q == pos + 3 <= end && v == method_handle_info_at(buffer@, pos as int),
            Err(e) => pos + 3 > end && e == DecodeError::Truncation,
        },
{
    let (reference_kind, q0) = read_u8(buffer, pos, end)?;
    let (reference_index, q1) = read_u16(buffer, q0, end)?;
    Ok((
        ConstantMethodHandleInfo {
            tag: ConstantKind::MethodHandle,
            reference_kind,
            reference_index: reference_index as usize,
        },
        q1,
    ))
}

/// The `ConstantMethodTypeInfo` whose body starts at offset `p` of `s` (tag 16).
pub open spec fn method_type_info_at(s: Seq<u8>, p: int) -> ConstantMethodTypeInfo {
    ConstantMethodTypeInfo { tag: ConstantKind::MethodType, descriptor_index: be16(s, p) as usize }
}

/// Decodes the 2-byte body of a `MethodType` constant at `pos`.
fn decode_method_type_info(buffer: &[u8], pos: usize, end: usize) -> (r: Result<
    (ConstantMethodTypeInfo, usize),
    DecodeError,
>)
    requires
        pos <= end <= buffer@.len(),
    ensures
        match r {
            Ok((v, q)) => q == pos + 2 <= end && v == method_type_info_at(buffer@, pos as int),
            Err(e) => pos + 2 > end && e == DecodeError::Truncation,
        },
{
    let (descriptor_index, q0) = read_u16(buffer, pos, end)?;
    Ok((
        ConstantMethodTypeInfo {
            tag: ConstantKind::MethodType,
            descriptor_index: descriptor_index as usize,
        },
        q0,
    ))
}

/// The `ConstantDynamicInfo` whose body starts at offset `p` of `s` (tag 17).
pub open spec fn dynamic_info_at(s: Seq<u8>, p: int) -> ConstantDynamicInfo {
    ConstantDynamicInfo {
        tag: ConstantKind::Dynamic,
        bootstrap_method_handle_attr_index: be16(s, p) as usize,
        name_and_type_index: be16(s, p + 2) as usize,
    }
}

/// Decodes the 4-byte body of a `Dynamic` constant at `pos`.
fn decode_dynamic_info(buffer: &[u8], pos: usize, end: usize) -> (r: Result<
    (ConstantDynamicInfo, usize),
    DecodeError,
>)
    requires
        pos <= end <= buffer@.len(),
    ensures
        match r {
            Ok((v, q)) => q == pos + 4 <= end && v == dynamic_info_at(buffer@, pos as int),
            Err(e) => pos + 4 > end && e == DecodeError::Truncation,
        },
{
    let (bootstrap_method_handle_attr_index, q0) = read_u16(buffer, pos, end)?;
    let (name_and_type_index, q1) = read_u16(buffer, q0, end)?;
    Ok((
        ConstantDynamicInfo {
            tag: ConstantKind::Dynamic,
            bootstrap_method_handle_attr_index: bootstrap_method_handle_attr_index as usize,
            name_and_type_index: name_and_type_index as usize,
        },
        q1,
    ))
}

/// The `ConstantInvokeDynamicInfo` whose body starts at offset `p` of `s` (tag 18).
pub open spec fn invoke_dynamic_info_at(s: Seq<u8>, p: int) -> ConstantInvokeDynamicInfo {
    ConstantInvokeDynamicInfo {
        tag: ConstantKind::InvokeDynamic,
        bootstrap_method_attr_index: be16(s, p) as usize,
        name_and_type_index: be16(s, p + 2) as usize,
    }
}

/// Decodes the 4-byte body of a `InvokeDynamic` constant at `pos`.
fn decode_invoke_dynamic_info(buffer: &[u8], pos: usize, end: usize) -> (r: Result<
    (ConstantInvokeDynamicInfo, usize),
    DecodeError,
>)
    requires
        pos <= end <= buffer@.len(),
    ensures
        match r {
            Ok((v, q)) => q == pos + 4 <= end && v == invoke_dynamic_info_at(buffer@, pos as int),
            Err(e) => pos + 4 > end && e == DecodeError::Truncation,
        },
{
    let (bootstrap_method_attr_index, q0) = read_u16(buffer, pos, end)?;
    let (name_and_type_index, q1) = read_u16(buffer, q0, end)?;
    Ok((
        ConstantInvokeDynamicInfo {
            tag: ConstantKind::InvokeDynamic,
            bootstrap_method_attr_index: bootstrap_method_attr_index as usize,
            name_and_type_index: name_and_type_index as usize,
        },
        q1,
    ))
}

/// The `ConstantModuleInfo` whose body starts at offset `p` of `s` (tag 19).
pub open spec fn module_info_at(s: Seq<u8>, p: int) -> ConstantModuleInfo {
    ConstantModuleInfo { tag: ConstantKind::Module, name_index: be16(s, p) as usize }
}

/// Decodes the 2-byte body of a `Module` constant at `pos`.
fn decode_module_info(buffer: &[u8], pos: usize, end: usize) -> (r: Result<
    (ConstantModuleInfo, usize),
    DecodeError,
>)
    requires
        pos <= end <= buffer@.len(),
    ensures
        match r {
            Ok((v, q)) => q == pos + 2 <= end && v == module_info_at(buffer@, pos as int),
            Err(e) => pos + 2 > end && e == DecodeError::Truncation,
        },
{
    let (name_index, q0) = read_u16(buffer, pos, end)?;
    Ok((ConstantModuleInfo { tag: ConstantKind::Module, name_index: name_index as usize }, q0))
}

/// The `ConstantPackageInfo` whose body starts at offset `p` of `s` (tag 20).
pub open spec fn package_info_at(s: Seq<u8>, p: int) -> ConstantPackageInfo {
    ConstantPackageInfo { tag: ConstantKind::Package, name_index: be16(s, p) as usize }
}

/// Decodes the 2-byte body of a `Package` constant at `pos`.
fn decode_package_info(buffer: &[u8], pos: usize, end: usize) -> (r: Result<
    (ConstantPackageInfo, usize),
    DecodeError,
>)
    requires
        pos <= end <= buffer@.len(),
    ensures
        match r {
            Ok((v, q)) => q == pos + 2 <= end && v == package_info_at(buffer@, pos as int),
            Err(e) => pos + 2 > end && e == DecodeError::Truncation,
        },
{
    let (name_index, q0) = read_u16(buffer, pos, end)?;
    Ok((ConstantPackageInfo { tag: ConstantKind::Package, name_index: name_index as usize }, q0))
}

/// Whether `v` is the `Utf8` constant whose length field is at offset `p` of `s`.
pub open spec fn utf8_info_at(s: Seq<u8>, p: int, v: ConstantUtf8Info) -> bool {
    &&& v.tag == ConstantKind::Utf8
    &&& v.length == be16(s, p) as usize
    &&& v.data@ == s.subrange(p + 2, p + 2 + be16(s, p))
}

/// Decodes the body of a `Utf8` constant at `pos`: a length, then that many bytes.
fn decode_utf8_info(buffer: &[u8], pos: usize, end: usize) -> (r: Result<
    (ConstantUtf8Info, usize),
    DecodeError,
>)
    requires
        pos <= end <= buffer@.len(),
    ensures
        match r {
            Ok((v, q)) => q == pos + 2 + be16(buffer@, pos as int) <= end && utf8_info_at(
                buffer@,
                pos as int,
                v,
            ),
            Err(e) => pos + 2 + (if pos + 2 <= end {
                be16(buffer@, pos as int) as int
            } else {
                0
            }) > end && e == DecodeError::Truncation,
        },
{
    let (length, q) = read_u16(buffer, pos, end)?;
    let (data, q) = read_str(buffer, q, length as usize, end)?;
    Ok((ConstantUtf8Info { tag: ConstantKind::Utf8, length: length as usize, data }, q))
}

/// The text of each `Utf8` slot of `pool`, and `None` for every other slot.
pub open spec fn utf8_names(pool: Seq<ConstantPoolInfo>) -> Seq<Option<Seq<u8>>> {
    Seq::new(
        pool.len(),
        |i: int|
            match pool[i] {
                ConstantPoolInfo::Utf8(u) => Some(u.data@),
                _ => None,
            },
    )
}

/// The encoded text of the `Utf8` entry at `index`; `BadReference` when `index` is out of range
/// or names another kind of entry.
pub fn utf8_info_bytes(pool: &[ConstantPoolInfo], index: usize) -> (r: Result<&[u8], DecodeError>)
    ensures
        match r {
            Ok(t) => index < pool@.len() && utf8_names(pool@)[index as int] == Some(t@),
            Err(e) => e == DecodeError::BadReference && (index >= pool@.len() || utf8_names(
                pool@,
            )[index as int] is None),
        },
{
    if index >= pool.len() {
        return Err(DecodeError::BadReference);
    }
    match &pool[index] {
        ConstantPoolInfo::Utf8(u) => Ok(u.data.as_slice()),
        _ => Err(DecodeError::BadReference),
    }
}

/// Size of the body of a fixed-size constant with tag `t`; `None` for `Utf8` and for undefined
/// tags.
pub open spec fn fixed_body_len(t: u8) -> Option<int> {
    match t {
        7 => Some(2int),
        9 => Some(4int),
        10 => Some(4int),
        11 => Some(4int),
        8 => Some(2int),
        3 => Some(4int),
        4 => Some(4int),
        5 => Some(8int),
        6 => Some(8int),
        12 => Some(4int),
        15 => Some(3int),
        16 => Some(2int),
        17 => Some(4int),
        18 => Some(4int),
        19 => Some(2int),
        20 => Some(2int),
        _ => None,
    }
}

/// The fixed-size entry whose tag byte is at offset `p` of `s`.
pub open spec fn fixed_entry_at(s: Seq<u8>, p: int) -> ConstantPoolInfo {
    match s[p] {
        7 => ConstantPoolInfo::Class(class_info_at(s, p + 1)),
        9 => ConstantPoolInfo::FieldRef(field_ref_info_at(s, p + 1)),
        10 => ConstantPoolInfo::MethodRef(method_ref_info_at(s, p + 1)),
        11 => ConstantPoolInfo::InterfaceMethodRef(interface_method_ref_info_at(s, p + 1)),
        8 => ConstantPoolInfo::String(string_info_at(s, p + 1)),
        3 => ConstantPoolInfo::Integer(integer_info_at(s, p + 1)),
        4 => ConstantPoolInfo::Float(float_info_at(s, p + 1)),
        5 => ConstantPoolInfo::Long(long_info_at(s, p + 1)),
        6 => ConstantPoolInfo::Double(double_info_at(s, p + 1)),
        12 => ConstantPoolInfo::NameAndType(name_and_type_info_at(s, p + 1)),
        15 => ConstantPoolInfo::MethodHandle(method_handle_info_at(s, p + 1)),
        16 => ConstantPoolInfo::MethodType(method_type_info_at(s, p + 1)),
        17 => ConstantPoolInfo::Dynamic(dynamic_info_at(s, p + 1)),
        18 => ConstantPoolInfo::InvokeDynamic(invoke_dynamic_info_at(s, p + 1)),
        19 => ConstantPoolInfo::Module(module_info_at(s, p + 1)),
        20 => ConstantPoolInfo::Package(package_info_at(s, p + 1)),
        _ => ConstantPoolInfo::Dummy(),
    }
}

/// Outcome of decoding one entry whose tag byte is at `p`, with `e` the end of the input: the
/// offset after the entry, or the error.
pub open spec fn entry_outcome(s: Seq<u8>, p: int, e: int) -> Result<int, DecodeError> {
    if p + 1 > e {
        Err(DecodeError::Truncation)
    } else if s[p] == 1 {
        if p + 3 > e || p + 3 + be16(s, p + 1) > e {
            Err(DecodeError::Truncation)
        } else {
            Ok(p + 3 + be16(s, p + 1))
        }
    } else {
        match fixed_body_len(s[p]) {
            Some(n) => if p + 1 + n > e {
                Err(DecodeError::Truncation)
            } else {
                Ok(p + 1 + n)
            },
            None => Err(DecodeError::UnknownTag),
        }
    }
}

/// Whether `v` is the entry whose tag byte is at offset `p` of `s`.
pub open spec fn entry_at(s: Seq<u8>, p: int, v: ConstantPoolInfo) -> bool {
    if s[p] == 1 {
        v matches ConstantPoolInfo::Utf8(u) && utf8_info_at(s, p + 1, u)
    } else {
        v == fixed_entry_at(s, p)
    }
}

/// Number of table slots that an entry with tag `t` takes: two for `Long` and `Double`.
pub open spec fn slot_width(t: u8) -> int {
    if t == 5 || t == 6 {
        2
    } else {
        1
    }
}

/// Decodes one entry at `pos`: its tag byte, then the body that the tag selects.
#[verifier::spinoff_prover]
#[verifier::rlimit(100)]
fn decode_entry(buffer: &[u8], pos: usize, end: usize) -> (r: Result<
    (ConstantPoolInfo, usize),
    DecodeError,
>)
    requires
        pos <= end <= buffer@.len(),
    ensures
        match r {
            Ok((v, q)) => entry_outcome(buffer@, pos as int, end as int) == Ok::<int, DecodeError>(
                q as int,
            ) && entry_at(buffer@, pos as int, v),
            Err(e) => entry_outcome(buffer@, pos as int, end as int) == Err::<int, DecodeError>(e),
        },
{
    let (t, _) = read_u8(buffer, pos, end)?;
    match t {
        1 => {
            let (info, q) = decode_utf8_info(buffer, pos + 1, end)?;
            Ok((ConstantPoolInfo::Utf8(info), q))
        },
        7 => {
            let (info, q) = decode_class_info(buffer, pos + 1, end)?;
            Ok((ConstantPoolInfo::Class(info), q))
        },
        9 => {
            let (info, q) = decode_field_ref_info(buffer, pos + 1, end)?;
            Ok((ConstantPoolInfo::FieldRef(info), q))
        },
        10 => {
            let (info, q) = decode_method_ref_info(buffer, pos + 1, end)?;
            Ok((ConstantPoolInfo::MethodRef(info), q))
        },
        11 => {
            let (info, q) = decode_interface_method_ref_info(buffer, pos + 1, end)?;
            Ok((ConstantPoolInfo::InterfaceMethodRef(info), q))
        },
        8 => {
            let (info, q) = decode_string_info(buffer, pos + 1, end)?;
            Ok((ConstantPoolInfo::String(info), q))
        },
        3 => {
            let (info, q) = decode_integer_info(buffer, pos + 1, end)?;
            Ok((ConstantPoolInfo::Integer(info), q))
        },
        4 => {
            let (info, q) = decode_float_info(buffer, pos + 1, end)?;
            Ok((ConstantPoolInfo::Float(info), q))
        },
        5 => {
            let (info, q) = decode_long_info(buffer, pos + 1, end)?;
            Ok((ConstantPoolInfo::Long(info), q))
        },
        6 => {
            let (info, q) = decode_double_info(buffer, pos + 1, end)?;
            Ok((ConstantPoolInfo::Double(info), q))
        },
        12 => {
            let (info, q) = decode_name_and_type_info(buffer, pos + 1, end)?;
            Ok((ConstantPoolInfo::NameAndType(info), q))
        },
        15 => {
            let (info, q) = decode_method_handle_info(buffer, pos + 1, end)?;
            Ok((ConstantPoolInfo::MethodHandle(info), q))
        },
        16 => {
            let (info, q) = decode_method_type_info(buffer, pos + 1, end)?;
            Ok((ConstantPoolInfo::MethodType(info), q))
        },
        17 => {
            let (info, q) = decode_dynamic_info(buffer, pos + 1, end)?;
            Ok((ConstantPoolInfo::Dynamic(info), q))
        },
        18 => {
            let (info, q) = decode_invoke_dynamic_info(buffer, pos + 1, end)?;
            Ok((ConstantPoolInfo::InvokeDynamic(info), q))
        },
        19 => {
            let (info, q) = decode_module_info(buffer, pos + 1, end)?;
            Ok((ConstantPoolInfo::Module(info), q))
        },
        20 => {
            let (info, q) = decode_package_info(buffer, pos + 1, end)?;
            Ok((ConstantPoolInfo::Package(info), q))
        },
        _ => Err(DecodeError::UnknownTag),
    }
}

/// Outcome of decoding the entries from table index `i` on, the first at `p`, in a table of `n`
/// slots: the offset after the last entry, or the first error.
pub open spec fn pool_walk(s: Seq<u8>, p: int, e: int, i: int, n: int) -> Result<int, DecodeError>
    decreases n + 1 - i,
{
    if i >= n {
        Ok(p)
    } else {
        match entry_outcome(s, p, e) {
            Ok(q) => pool_walk(s, q, e, i + slot_width(s[p]), n),
            Err(err) => Err(err),
        }
    }
}

/// Where the slots from table index `i` on come from: the offset of each entry's tag byte, and
/// `-1` for the placeholder after a `Long` or `Double`.
pub open spec fn pool_layout(s: Seq<u8>, p: int, e: int, i: int, n: int) -> Seq<int>
    decreases n + 1 - i,
{
    if i >= n {
        Seq::empty()
    } else {
        match entry_outcome(s, p, e) {
            Ok(q) => (if slot_width(s[p]) == 2 {
                seq![p, -1]
            } else {
                seq![p]
            }) + pool_layout(s, q, e, i + slot_width(s[p]), n),
            Err(_) => Seq::empty(),
        }
    }
}

/// Outcome of decoding a constant pool whose count field is at `p`.
pub open spec fn pool_outcome(s: Seq<u8>, p: int, e: int) -> Result<int, DecodeError> {
    if p + 2 > e {
        Err(DecodeError::Truncation)
    } else {
        pool_walk(s, p + 2, e, 1, be16(s, p) as int)
    }
}

/// The source of every slot of the pool whose count field is at `p`.
pub open spec fn pool_slots(s: Seq<u8>, p: int, e: int) -> Seq<int> {
    pool_layout(s, p + 2, e, 1, be16(s, p) as int)
}

/// Whether `pool` is the table decoded from the constant pool whose count field is at `p`: a
/// placeholder at index 0, then one slot for each element of [`pool_slots`].
pub open spec fn pool_at(s: Seq<u8>, p: int, e: int, pool: Seq<ConstantPoolInfo>) -> bool {
    let lay = pool_slots(s, p, e);
    &&& pool.len() == lay.len() + 1
    &&& pool[0] == ConstantPoolInfo::Dummy()
    &&& forall|j: int|
        0 <= j < lay.len() ==> if lay[j] < 0 {
            pool[j + 1] == ConstantPoolInfo::Dummy()
        } else {
            entry_at(s, lay[j], #[trigger] pool[j + 1])
        }
}

/// The text of each `Utf8` slot of the pool whose count field is at `p`, read from the bytes
/// alone, and `None` for every other slot.
pub open spec fn pool_names(s: Seq<u8>, p: int, e: int) -> Seq<Option<Seq<u8>>> {
    let lay = pool_slots(s, p, e);
    Seq::new(
        lay.len() + 1,
        |i: int|
            if i == 0 || lay[i - 1] < 0 || s[lay[i - 1]] != 1 {
                None
            } else {
                Some(s.subrange(lay[i - 1] + 3, lay[i - 1] + 3 + be16(s, lay[i - 1] + 1)))
            },
    )
}

/// The `Utf8` texts of a decoded pool are those that its bytes hold.
pub proof fn lemma_pool_names(s: Seq<u8>, p: int, e: int, pool: Seq<ConstantPoolInfo>)
    requires
        pool_at(s, p, e, pool),
    ensures
        utf8_names(pool) == pool_names(s, p, e),
{
    let lay = pool_slots(s, p, e);
    assert forall|i: int| 0 <= i < pool.len() implies #[trigger] utf8_names(pool)[i] == pool_names(
        s,
        p,
        e,
    )[i] by {
        if i > 0 {
            let j = i - 1;
            assert(pool[j + 1] == pool[i]);
            if lay[j] >= 0 {
                assert(entry_at(s, lay[j], pool[j + 1]));
            }
        }
    }
    assert(utf8_names(pool) =~= pool_names(s, p, e));
}

/// Whether a slot holds an 8-byte constant.
pub open spec fn is_wide(c: ConstantPoolInfo) -> bool {
    c is Long || c is Double
}

/// Shape of the slot sources from table index `i` on: entries and placeholders alternate as
/// the double-slot rule says, and there are `n - i` of them, one more only when an 8-byte entry
/// sits at the last index.
proof fn lemma_layout_shape(s: Seq<u8>, p: int, e: int, i: int, n: int)
    requires
        0 <= p,
        pool_walk(s, p, e, i, n) is Ok,
    ensures
        ({
            let lay = pool_layout(s, p, e, i, n);
            &&& i >= n ==> lay.len() == 0
            &&& i < n ==> (lay.len() == n - i || (lay.len() == n - i + 1 && lay[lay.len() - 2] >= 0
                && slot_width(s[lay[lay.len() - 2]]) == 2))
            &&& lay.len() > 0 ==> lay[0] >= 0
            &&& forall|j: int|
                0 < j < lay.len() ==> (#[trigger] lay[j] < 0 <==> (lay[j - 1] >= 0 && slot_width(
                    s[lay[j - 1]],
                ) == 2))
            &&& forall|j: int|
                0 <= j < lay.len() && #[trigger] lay[j] >= 0 ==> entry_outcome(s, lay[j], e) is Ok
        }),
    decreases n + 1 - i,
{
    if i < n {
        let q = entry_outcome(s, p, e)->Ok_0;
        let w = slot_width(s[p]);
        lemma_layout_shape(s, q, e, i + w, n);
        let rest = pool_layout(s, q, e, i + w, n);
        let head = if w == 2 {
            seq![p, -1]
        } else {
            seq![p]
        };
        let lay = pool_layout(s, p, e, i, n);
        assert(lay == head + rest);
        assert forall|j: int| 0 < j < lay.len() implies (#[trigger] lay[j] < 0 <==> (lay[j - 1]
            >= 0 && slot_width(s[lay[j - 1]]) == 2)) by {
            if j < head.len() {
                assert(lay[j] == -1 && lay[j - 1] == p);
            } else if j == head.len() {
                assert(lay[j] == rest[0]);
                assert(rest[0] >= 0);
                if w == 2 {
                    assert(lay[j - 1] == -1);
                } else {
                    assert(lay[j - 1] == p);
                }
            } else {
                assert(lay[j] == rest[j - head.len()]);
                assert(lay[j - 1] == rest[j - 1 - head.len()]);
            }
        }
        assert forall|j: int| 0 <= j < lay.len() && #[trigger] lay[j] >= 0 implies entry_outcome(
            s,
            lay[j],
            e,
        ) is Ok by {
            if j >= head.len() {
                assert(lay[j] == rest[j - head.len()]);
            } else if j == 0 {
                assert(lay[j] == p);
            }
        }
        if rest.len() > 0 && lay.len() == n - i + 1 {
            assert(lay[lay.len() - 2] == rest[rest.len() - 2]);
        }
    }
}

/// A decoded entry is never a placeholder, and is 8-byte exactly when its tag takes two slots.
proof fn lemma_entry_kind(s: Seq<u8>, q: int, e: int, v: ConstantPoolInfo)
    requires
        entry_outcome(s, q, e) is Ok,
        entry_at(s, q, v),
    ensures
        v != ConstantPoolInfo::Dummy(),
        is_wide(v) <==> slot_width(s[q]) == 2,
{
}

/// The table that a structural walk visits has exactly one slot for each index that the count
/// `n` declares: index 0 and the slot after each `Long` or `Double` are placeholders, and no
/// other slot is. Only where an 8-byte entry sits at the last declared index, `n - 1`, does its
/// placeholder fall one slot past the count.
pub proof fn lemma_pool_slots(s: Seq<u8>, p: int, e: int, pool: Seq<ConstantPoolInfo>)
    requires
        0 <= p,
        pool_outcome(s, p, e) is Ok,
        pool_at(s, p, e, pool),
    ensures
        pool[0] == ConstantPoolInfo::Dummy(),
        forall|i: int|
            0 < i < pool.len() ==> (#[trigger] pool[i] == ConstantPoolInfo::Dummy() <==> is_wide(
                pool[i - 1],
            )),
        pool.len() == if be16(s, p) == 0 {
            1
        } else {
            be16(s, p) as int
        } || (be16(s, p) >= 2 && pool.len() == be16(s, p) + 1 && is_wide(pool[be16(s, p) - 1])),
{
    let n = be16(s, p) as int;
    let lay = pool_slots(s, p, e);
    lemma_layout_shape(s, p + 2, e, 1, n);
    assert forall|j: int| 0 <= j < lay.len() && lay[j] >= 0 implies (#[trigger] pool[j + 1]
        != ConstantPoolInfo::Dummy() && (is_wide(pool[j + 1]) <==> slot_width(s[lay[j]]) == 2)) by {
        lemma_entry_kind(s, lay[j], e, pool[j + 1]);
    }
    assert forall|i: int| 0 < i < pool.len() implies (#[trigger] pool[i]
        == ConstantPoolInfo::Dummy() <==> is_wide(pool[i - 1])) by {
        let j = i - 1;
        if lay[j] < 0 {
            assert(pool[j + 1] == ConstantPoolInfo::Dummy());
        }
        if j > 0 {
            let k = j - 1;
            assert(k + 1 == j);
            if lay[k] < 0 {
                assert(pool[k + 1] == ConstantPoolInfo::Dummy());
            } else {
                assert(pool[k + 1] != ConstantPoolInfo::Dummy() && (is_wide(pool[k + 1])
                    <==> slot_width(s[lay[k]]) == 2));
            }
        }
    }
    if n >= 2 && lay.len() == n {
        let j = lay.len() - 2;
        assert(pool[j + 1] == pool[n - 1]);
    }
}

/// Decodes the constant pool whose count field is at `pos`: a count `n`, then the entries of
/// indices 1 to `n - 1`, where each `Long` and `Double` also fills the index after it with a
/// placeholder.
pub fn decode_constant_pool(buffer: &[u8], pos: usize, end: usize) -> (r: Result<
    (Vec<ConstantPoolInfo>, usize),
    DecodeError,
>)
    requires
        pos <= end <= buffer@.len(),
    ensures
        match r {
            Ok((pool, q)) => pool_outcome(buffer@, pos as int, end as int) == Ok::<
                int,
                DecodeError,
            >(q as int) && pool_at(buffer@, pos as int, end as int, pool@) && pos + 2 <= q <= end,
            Err(e) => pool_outcome(buffer@, pos as int, end as int) == Err::<int, DecodeError>(
                e,
            ),
        },
{
    let ghost s = buffer@;
    let (count, start) = read_u16(buffer, pos, end)?;
    let n = count as usize;
    let mut constants: Vec<ConstantPoolInfo> = Vec::with_capacity(n);
    constants.push(ConstantPoolInfo::Dummy());
    let mut i: usize = 1;
    let mut cur: usize = start;
    let ghost mut lay: Seq<int> = Seq::empty();
    while i < n
        invariant
            s == buffer@,
            n == count as usize,
            count == be16(s, pos as int),
            start == pos + 2,
            start <= cur <= end <= buffer@.len(),
            1 <= i <= n + 1,
            pool_walk(s, start as int, end as int, 1, n as int) == pool_walk(
                s,
                cur as int,
                end as int,
                i as int,
                n as int,
            ),
            pool_layout(s, start as int, end as int, 1, n as int) == lay + pool_layout(
                s,
                cur as int,
                end as int,
                i as int,
                n as int,
            ),
            constants@.len() == lay.len() + 1,
            constants@[0] == ConstantPoolInfo::Dummy(),
            forall|j: int|
                0 <= j < lay.len() ==> if lay[j] < 0 {
                    constants@[j + 1] == ConstantPoolInfo::Dummy()
                } else {
                    entry_at(s, lay[j], #[trigger] constants@[j + 1])
                },
        decreases n + 1 - i,
    {
        let (entry, q) = match decode_entry(buffer, cur, end) {
            Ok(x) => x,
            Err(e) => {
                return Err(e);
            },
        };
        let wide = match entry {
            ConstantPoolInfo::Long(_) => true,
            ConstantPoolInfo::Double(_) => true,
            _ => false,
        };
        assert(wide == (slot_width(s[cur as int]) == 2));
        constants.push(entry);
        if wide {
            constants.push(ConstantPoolInfo::Dummy());
            proof {
                assert(lay + seq![cur as int, -1] + pool_layout(s, q as int, end as int, i + 2, n as int)
                    =~= lay + (seq![cur as int, -1] + pool_layout(s, q as int, end as int, i + 2, n as int)));
                lay = lay + seq![cur as int, -1];
            }
            i = i + 2;
        } else {
            proof {
                assert(lay + seq![cur as int] + pool_layout(s, q as int, end as int, i + 1, n as int)
                    =~= lay + (seq![cur as int] + pool_layout(s, q as int, end as int, i + 1, n as int)));
                lay = lay + seq![cur as int];
            }
            i = i + 1;
        }
        cur = q;
    }
    assert(lay + pool_layout(s, cur as int, end as int, i as int, n as int) =~= lay);
    Ok((constants, cur))
}

} // verus!
