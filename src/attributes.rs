//! Attributes: named, length-delimited blocks of metadata attached to a class, a member, a code
//! body or a record component.
use std::collections::HashMap;

use vstd::prelude::*;
use vstd::string::*;

use crate::constant_pool::{utf8_info_bytes, utf8_names, ConstantPoolInfo};
use crate::utils::{
    be16, be32, read_u16, read_u32, read_u8, read_str, walk, walk_starts, DecodeError,
};

verus! {

/// A decoded attribute payload.
#[derive(Debug)]
pub enum AttributeInfo {
    ConstantValue(ConstantValueAttribute),
    Code(CodeAttribute),
    StackMapTable(StackMapTableAttribute),
    Exceptions(ExceptionsAttribute),
    InnerClasses(InnerClassesAttribute),
    EnclosingMethod(EnclosingMethodAttribute),
    Synthetic(SyntheticAttribute),
    Signature(SignatureAttribute),
    SourceFile(SourceFileAttribute),
    LineNumberTable(LineNumberTableAttribute),
    LocalVariableTable(LocalVariableTableAttribute),
    LocalVariableTypeTable(LocalVariableTypeTableAttribute),
    BootstrapMethods(BootstrapMethodsAttribute),
    NestHost(NestHostAttribute),
    NestMembers(NestMembersAttribute),
    Record(RecordAttribute),
    PermittedSubtypes(PermittedSubtypesAttribute),
    /// An attribute of a kind that is not modelled; the decoder skips such attributes and
    /// never produces this variant.
    Unknown,
}

#[derive(Debug, Clone, Copy, PartialEq, Eq, Structural)]
pub struct ConstantValueAttribute {
    pub constant_value_index: u16,
}

#[derive(Debug, Clone, Copy, PartialEq, Eq, Structural)]
pub struct EnclosingMethodAttribute {
    pub class_index: u16,
    pub method_index: u16,
}

#[derive(Debug, Clone, Copy, PartialEq, Eq, Structural)]
pub struct SyntheticAttribute;

#[derive(Debug, Clone, Copy, PartialEq, Eq, Structural)]
pub struct SignatureAttribute {
    pub signature_index: u16,
}

#[derive(Debug, Clone, Copy, PartialEq, Eq, Structural)]
pub struct SourceFileAttribute {
    pub sourcefile_index: u16,
}

#[derive(Debug, Clone, Copy, PartialEq, Eq, Structural)]
pub struct NestHostAttribute {
    pub host_class_index: u16,
}

/// A 8-byte record of a table attribute.
#[derive(Debug, Clone, Copy, PartialEq, Eq, Structural)]
pub struct ExceptionTableEntry {
    pub start_pc: u16,
    pub end_pc: u16,
    pub handler_pc: u16,
    pub catch_type: u16,
}

/// A 8-byte record of a table attribute.
#[derive(Debug, Clone, Copy, PartialEq, Eq, Structural)]
pub struct InnerClassInfo {
    pub inner_class_info_index: u16,
    pub outer_class_info_index: u16,
    pub inner_name_index: u16,
    pub inner_class_access_flags: u16,
}

/// A 4-byte record of a table attribute.
#[derive(Debug, Clone, Copy, PartialEq, Eq, Structural)]
pub struct LineNumberTableEntry {
    pub start_pc: u16,
    pub line_number: u16,
}

/// A 10-byte record of a table attribute.
#[derive(Debug, Clone, Copy, PartialEq, Eq, Structural)]
pub struct LocalVariableTableEntry {
    pub start_pc: u16,
    pub length: u16,
    pub name_index: usize,
    pub descriptor_index: usize,
    pub index: usize,
}

/// A 10-byte record of a table attribute.
#[derive(Debug, Clone, Copy, PartialEq, Eq, Structural)]
pub struct LocalVariableTypeTableEntry {
    pub start_pc: u16,
    pub length: u16,
    pub name_index: usize,
    pub signature_index: usize,
    pub index: usize,
}
#[derive(Debug)]
pub struct ExceptionsAttribute {
    pub number_of_exceptions: u16,
    pub exception_index_table: Vec<u16>,
}

#[derive(Debug)]
pub struct InnerClassesAttribute {
    pub number_of_classes: u16,
    pub classes: Vec<InnerClassInfo>,
}

#[derive(Debug)]
pub struct LineNumberTableAttribute {
    pub line_number_table_length: u16,
    pub line_number_table: Vec<LineNumberTableEntry>,
}

#[derive(Debug)]
pub struct LocalVariableTableAttribute {
    pub local_variable_table_length: u16,
    pub local_variable_table: Vec<LocalVariableTableEntry>,
}

#[derive(Debug)]
pub struct LocalVariableTypeTableAttribute {
    pub local_variable_type_table_length: u16,
    pub local_variable_type_table: Vec<LocalVariableTypeTableEntry>,
}

#[derive(Debug)]
pub struct NestMembersAttribute {
    pub number_of_classes: u16,
    pub classes: Vec<u16>,
}

#[derive(Debug)]
pub struct PermittedSubtypesAttribute {
    pub number_of_classes: u16,
    pub classes: Vec<u16>,
}

#[derive(Debug)]
pub struct CodeAttribute {
    pub max_stack: u16,
    pub max_locals: u16,
    pub code_length: usize,
    /// The executable bytes, kept opaque.
    pub code: Vec<u8>,
    pub exception_table_length: usize,
    pub exception_table: Vec<ExceptionTableEntry>,
    pub attributes: HashMap<u16, AttributeInfo>,
}

/// The shapes of stack-map frames, each selected by a range of frame-type bytes.
#[derive(Debug, Clone, Copy, PartialEq, Eq, Structural)]
pub enum StackMapFrameType {
    /// Frame types 0 to 63.
    SameFrame,
    /// Frame types 64 to 127.
    SameLocals1StackItemFrame,
    /// Frame type 247.
    SameLocals1StackItemFrameExtended,
    /// Frame types 248 to 250.
    ChopFrame,
    /// Frame type 251.
    SameFrameExtended,
    /// Frame types 252 to 254.
    AppendFrame,
    /// Frame type 255.
    FullFrame,
}

/// What occupies one local-variable or operand-stack slot.
#[derive(Debug, Clone, Copy, PartialEq, Eq, Structural)]
pub enum VerificationTypeInfo {
    Top,
    Integer,
    Float,
    Long,
    Double,
    Null,
    UninitializedThis,
    Object { cpool_index: u16 },
    Uninitialized { offset: u16 },
}

#[derive(Debug, Clone, Copy, PartialEq, Eq, Structural)]
pub struct SameFrame {
    pub frame_type: u8,
}

#[derive(Debug, Clone, Copy, PartialEq, Eq, Structural)]
pub struct SameLocals1StackItemFrame {
    pub frame_type: u8,
    pub stack: VerificationTypeInfo,
}

#[derive(Debug, Clone, Copy, PartialEq, Eq, Structural)]
pub struct SameLocals1StackItemFrameExtended {
    pub frame_type: u8,
    pub offset_delta: u16,
    pub stack: VerificationTypeInfo,
}

#[derive(Debug, Clone, Copy, PartialEq, Eq, Structural)]
pub struct ChopFrame {
    pub frame_type: u8,
    pub offset_delta: u16,
}

#[derive(Debug, Clone, Copy, PartialEq, Eq, Structural)]
pub struct SameFrameExtended {
    pub frame_type: u8,
    pub offset_delta: u16,
}

#[derive(Debug)]
pub struct AppendFrame {
    pub frame_type: u8,
    pub offset_delta: u16,
    pub locals: Vec<VerificationTypeInfo>,
}

#[derive(Debug)]
pub struct FullFrame {
    pub frame_type: u8,
    pub offset_delta: u16,
    pub number_of_locals: u16,
    pub locals: Vec<VerificationTypeInfo>,
    pub number_of_stack_items: u16,
    pub stack: Vec<VerificationTypeInfo>,
}

#[derive(Debug)]
pub enum StackMapFrame {
    SameFrame(SameFrame),
    SameLocals1StackItemFrame(SameLocals1StackItemFrame),
    SameLocals1StackItemFrameExtended(SameLocals1StackItemFrameExtended),
    ChopFrame(ChopFrame),
    SameFrameExtended(SameFrameExtended),
    AppendFrame(AppendFrame),
    FullFrame(FullFrame),
}

#[derive(Debug)]
pub struct StackMapTableAttribute {
    pub number_of_entries: u16,
    pub entries: Vec<StackMapFrame>,
}

#[derive(Debug)]
pub struct BootstrapMethodEntry {
    pub bootstrap_method_ref: usize,
    pub num_bootstrap_arguments: usize,
    pub bootstrap_arguments: Vec<usize>,
}

#[derive(Debug)]
pub struct BootstrapMethodsAttribute {
    pub num_bootstrap_methods: u16,
    pub bootstrap_methods: Vec<BootstrapMethodEntry>,
}

#[derive(Debug)]
pub struct RecordComponentInfo {
    pub name_index: u16,
    pub descriptor_index: u16,
    pub attributes: HashMap<u16, AttributeInfo>,
}

#[derive(Debug)]
pub struct RecordAttribute {
    pub components_count: u16,
    pub components: Vec<RecordComponentInfo>,
}

/// The attribute kinds that the decoder models, each selected by its name.
#[derive(Debug, Clone, Copy, PartialEq, Eq, Structural)]
pub enum AttributeKind {
    ConstantValue,
    Code,
    StackMapTable,
    Exceptions,
    InnerClasses,
    EnclosingMethod,
    Synthetic,
    Signature,
    SourceFile,
    LineNumberTable,
    LocalVariableTable,
    LocalVariableTypeTable,
    BootstrapMethods,
    NestHost,
    NestMembers,
    Record,
    PermittedSubclasses,
}

/// The kind that an attribute name (its encoded bytes) selects; `None` for a name that is not
/// modelled.
pub open spec fn attribute_kind_of(name: Seq<u8>) -> Option<AttributeKind> {
    if name == "ConstantValue".spec_bytes() {
        Some(AttributeKind::ConstantValue)
    } else if name == "Code".spec_bytes() {
        Some(AttributeKind::Code)
    } else if name == "StackMapTable".spec_bytes() {
        Some(AttributeKind::StackMapTable)
    } else if name == "Exceptions".spec_bytes() {
        Some(AttributeKind::Exceptions)
    } else if name == "InnerClasses".spec_bytes() {
        Some(AttributeKind::InnerClasses)
    } else if name == "EnclosingMethod".spec_bytes() {
        Some(AttributeKind::EnclosingMethod)
    } else if name == "Synthetic".spec_bytes() {
        Some(AttributeKind::Synthetic)
    } else if name == "Signature".spec_bytes() {
        Some(AttributeKind::Signature)
    } else if name == "SourceFile".spec_bytes() {
        Some(AttributeKind::SourceFile)
    } else if name == "LineNumberTable".spec_bytes() {
        Some(AttributeKind::LineNumberTable)
    } else if name == "LocalVariableTable".spec_bytes() {
        Some(AttributeKind::LocalVariableTable)
    } else if name == "LocalVariableTypeTable".spec_bytes() {
        Some(AttributeKind::LocalVariableTypeTable)
    } else if name == "BootstrapMethods".spec_bytes() {
        Some(AttributeKind::BootstrapMethods)
    } else if name == "NestHost".spec_bytes() {
        Some(AttributeKind::NestHost)
    } else if name == "NestMembers".spec_bytes() {
        Some(AttributeKind::NestMembers)
    } else if name == "Record".spec_bytes() {
        Some(AttributeKind::Record)
    } else if name == "PermittedSubclasses".spec_bytes() {
        Some(AttributeKind::PermittedSubclasses)
    } else {
        None
    }
}

/// Whether two byte strings are equal.
fn bytes_equal(a: &[u8], b: &[u8]) -> (r: bool)
    ensures
        r == (a@ == b@),
{
    if a.len() != b.len() {
        return false;
    }
    let mut i: usize = 0;
    while i < a.len()
        invariant
            a@.len() == b@.len(),
            i <= a@.len(),
            a@.subrange(0, i as int) == b@.subrange(0, i as int),
        decreases a@.len() - i,
    {
        if a[i] != b[i] {
            assert(a@[i as int] != b@[i as int]);
            return false;
        }
        assert(a@.subrange(0, i + 1) =~= a@.subrange(0, i as int).push(a@[i as int]));
        assert(b@.subrange(0, i + 1) =~= b@.subrange(0, i as int).push(b@[i as int]));
        i = i + 1;
    }
    assert(a@ =~= a@.subrange(0, i as int));
    assert(b@ =~= b@.subrange(0, i as int));
    true
}

/// The kind that an attribute name selects, by the table of modelled names.
pub fn attribute_kind(name: &[u8]) -> (r: Option<AttributeKind>)
    ensures
        r == attribute_kind_of(name@),
{
    if bytes_equal(name, "ConstantValue".as_bytes()) {
        Some(AttributeKind::ConstantValue)
    } else if bytes_equal(name, "Code".as_bytes()) {
        Some(AttributeKind::Code)
    } else if bytes_equal(name, "StackMapTable".as_bytes()) {
        Some(AttributeKind::StackMapTable)
    } else if bytes_equal(name, "Exceptions".as_bytes()) {
        Some(AttributeKind::Exceptions)
    } else if bytes_equal(name, "InnerClasses".as_bytes()) {
        Some(AttributeKind::InnerClasses)
    } else if bytes_equal(name, "EnclosingMethod".as_bytes()) {
        Some(AttributeKind::EnclosingMethod)
    } else if bytes_equal(name, "Synthetic".as_bytes()) {
        Some(AttributeKind::Synthetic)
    } else if bytes_equal(name, "Signature".as_bytes()) {
        Some(AttributeKind::Signature)
    } else if bytes_equal(name, "SourceFile".as_bytes()) {
        Some(AttributeKind::SourceFile)
    } else if bytes_equal(name, "LineNumberTable".as_bytes()) {
        Some(AttributeKind::LineNumberTable)
    } else if bytes_equal(name, "LocalVariableTable".as_bytes()) {
        Some(AttributeKind::LocalVariableTable)
    } else if bytes_equal(name, "LocalVariableTypeTable".as_bytes()) {
        Some(AttributeKind::LocalVariableTypeTable)
    } else if bytes_equal(name, "BootstrapMethods".as_bytes()) {
        Some(AttributeKind::BootstrapMethods)
    } else if bytes_equal(name, "NestHost".as_bytes()) {
        Some(AttributeKind::NestHost)
    } else if bytes_equal(name, "NestMembers".as_bytes()) {
        Some(AttributeKind::NestMembers)
    } else if bytes_equal(name, "Record".as_bytes()) {
        Some(AttributeKind::Record)
    } else if bytes_equal(name, "PermittedSubclasses".as_bytes()) {
        Some(AttributeKind::PermittedSubclasses)
    } else {
        None
    }
}

/// Decodes `n` consecutive big-endian `u16` values, the first at `pos`.
fn decode_u16_list(buffer: &[u8], pos: usize, n: usize, end: usize) -> (r: Result<
    (Vec<u16>, usize),
    DecodeError,
>)
    requires
        pos <= end <= buffer@.len(),
    ensures
        match r {
            Ok((v, q)) => q == pos + 2 * n <= end && v@ == Seq::new(
                n as nat,
                |j: int| be16(buffer@, pos + 2 * j),
            ),
            Err(e) => pos + 2 * n > end && e == DecodeError::Truncation,
        },
{
    if (end - pos) / 2 < n {
        return Err(DecodeError::Truncation);
    }
    let mut v: Vec<u16> = Vec::with_capacity(n);
    let mut cur: usize = pos;
    let mut j: usize = 0;
    while j < n
        invariant
            pos + 2 * n <= end <= buffer@.len(),
            j <= n,
            cur == pos + 2 * j,
            v@ == Seq::new(j as nat, |i: int| be16(buffer@, pos + 2 * i)),
        decreases n - j,
    {
        let (x, q) = read_u16(buffer, cur, end)?;
        v.push(x);
        j = j + 1;
        cur = q;
        assert(v@ =~= Seq::new(j as nat, |i: int| be16(buffer@, pos + 2 * i)));
    }
    assert(v@ =~= Seq::new(n as nat, |i: int| be16(buffer@, pos + 2 * i)));
    Ok((v, cur))
}

/// Decodes `n` consecutive big-endian `u16` constant-pool indices, the first at `pos`.
pub fn decode_index_list(buffer: &[u8], pos: usize, n: usize, end: usize) -> (r: Result<
    (Vec<usize>, usize),
    DecodeError,
>)
    requires
        pos <= end <= buffer@.len(),
    ensures
        match r {
            Ok((v, q)) => q == pos + 2 * n <= end && v@ == Seq::new(
                n as nat,
                |j: int| be16(buffer@, pos + 2 * j) as usize,
            ),
            Err(e) => pos + 2 * n > end && e == DecodeError::Truncation,
        },
{
    if (end - pos) / 2 < n {
        return Err(DecodeError::Truncation);
    }
    let mut v: Vec<usize> = Vec::with_capacity(n);
    let mut cur: usize = pos;
    let mut j: usize = 0;
    while j < n
        invariant
            pos + 2 * n <= end <= buffer@.len(),
            j <= n,
            cur == pos + 2 * j,
            v@ == Seq::new(j as nat, |i: int| be16(buffer@, pos + 2 * i) as usize),
        decreases n - j,
    {
        let (x, q) = read_u16(buffer, cur, end)?;
        v.push(x as usize);
        j = j + 1;
        cur = q;
        assert(v@ =~= Seq::new(j as nat, |i: int| be16(buffer@, pos + 2 * i) as usize));
    }
    assert(v@ =~= Seq::new(n as nat, |i: int| be16(buffer@, pos + 2 * i) as usize));
    Ok((v, cur))
}

/// The `ExceptionTableEntry` at offset `p` of `s`.
pub open spec fn exception_table_entry_at(s: Seq<u8>, p: int) -> ExceptionTableEntry {
    ExceptionTableEntry {
        start_pc: be16(s, p + 0),
        end_pc: be16(s, p + 2),
        handler_pc: be16(s, p + 4),
        catch_type: be16(s, p + 6),
    }
}

/// Decodes one `ExceptionTableEntry` at `pos`.
fn decode_exception_table_entry(buffer: &[u8], pos: usize, end: usize) -> (r: Result<
    (ExceptionTableEntry, usize),
    DecodeError,
>)
    requires
        pos <= end <= buffer@.len(),
    ensures
        match r {
            Ok((v, q)) => q == pos + 8 <= end && v == exception_table_entry_at(buffer@, pos as int),
            Err(e) => pos + 8 > end && e == DecodeError::Truncation,
        },
{
    let (start_pc, q0) = read_u16(buffer, pos, end)?;
    let (end_pc, q1) = read_u16(buffer, q0, end)?;
    let (handler_pc, q2) = read_u16(buffer, q1, end)?;
    let (catch_type, q3) = read_u16(buffer, q2, end)?;
    Ok((ExceptionTableEntry { start_pc, end_pc, handler_pc, catch_type }, q3))
}

/// Decodes `n` consecutive `ExceptionTableEntry` records, the first at `pos`.
fn decode_exception_table(buffer: &[u8], pos: usize, n: usize, end: usize) -> (r: Result<
    (Vec<ExceptionTableEntry>, usize),
    DecodeError,
>)
    requires
        pos <= end <= buffer@.len(),
    ensures
        match r {
            Ok((v, q)) => q == pos + 8 * n <= end && v@ == Seq::new(
                n as nat,
                |j: int| exception_table_entry_at(buffer@, pos + 8 * j),
            ),
            Err(e) => pos + 8 * n > end && e == DecodeError::Truncation,
        },
{
    if (end - pos) / 8 < n {
        return Err(DecodeError::Truncation);
    }
    let mut v: Vec<ExceptionTableEntry> = Vec::with_capacity(n);
    let mut cur: usize = pos;
    let mut j: usize = 0;
    while j < n
        invariant
            pos + 8 * n <= end <= buffer@.len(),
            j <= n,
            cur == pos + 8 * j,
            v@ == Seq::new(j as nat, |i: int| exception_table_entry_at(buffer@, pos + 8 * i)),
        decreases n - j,
    {
        let (x, q) = decode_exception_table_entry(buffer, cur, end)?;
        v.push(x);
        j = j + 1;
        cur = q;
        assert(v@ =~= Seq::new(j as nat, |i: int| exception_table_entry_at(buffer@, pos + 8 * i)));
    }
    assert(v@ =~= Seq::new(n as nat, |i: int| exception_table_entry_at(buffer@, pos + 8 * i)));
    Ok((v, cur))
}

/// The `InnerClassInfo` at offset `p` of `s`.
pub open spec fn inner_class_info_at(s: Seq<u8>, p: int) -> InnerClassInfo {
    InnerClassInfo {
        inner_class_info_index: be16(s, p + 0),
        outer_class_info_index: be16(s, p + 2),
        inner_name_index: be16(s, p + 4),
        inner_class_access_flags: be16(s, p + 6),
    }
}

/// Decodes one `InnerClassInfo` at `pos`.
fn decode_inner_class_info(buffer: &[u8], pos: usize, end: usize) -> (r: Result<
    (InnerClassInfo, usize),
    DecodeError,
>)
    requires
        pos <= end <= buffer@.len(),
    ensures
        match r {
            Ok((v, q)) => q == pos + 8 <= end && v == inner_class_info_at(buffer@, pos as int),
            Err(e) => pos + 8 > end && e == DecodeError::Truncation,
        },
{
    let (inner_class_info_index, q0) = read_u16(buffer, pos, end)?;
    let (outer_class_info_index, q1) = read_u16(buffer, q0, end)?;
    let (inner_name_index, q2) = read_u16(buffer, q1, end)?;
    let (inner_class_access_flags, q3) = read_u16(buffer, q2, end)?;
    Ok((
        InnerClassInfo {
            inner_class_info_index,
            outer_class_info_index,
            inner_name_index,
            inner_class_access_flags,
        },
        q3,
    ))
}

/// Decodes `n` consecutive `InnerClassInfo` records, the first at `pos`.
fn decode_inner_class_infos(buffer: &[u8], pos: usize, n: usize, end: usize) -> (r: Result<
    (Vec<InnerClassInfo>, usize),
    DecodeError,
>)
    requires
        pos <= end <= buffer@.len(),
    ensures
        match r {
            Ok((v, q)) => q == pos + 8 * n <= end && v@ == Seq::new(
                n as nat,
                |j: int| inner_class_info_at(buffer@, pos + 8 * j),
            ),
            Err(e) => pos + 8 * n > end && e == DecodeError::Truncation,
        },
{
    if (end - pos) / 8 < n {
        return Err(DecodeError::Truncation);
    }
    let mut v: Vec<InnerClassInfo> = Vec::with_capacity(n);
    let mut cur: usize = pos;
    let mut j: usize = 0;
    while j < n
        invariant
            pos + 8 * n <= end <= buffer@.len(),
            j <= n,
            cur == pos + 8 * j,
            v@ == Seq::new(j as nat, |i: int| inner_class_info_at(buffer@, pos + 8 * i)),
        decreases n - j,
    {
        let (x, q) = decode_inner_class_info(buffer, cur, end)?;
        v.push(x);
        j = j + 1;
        cur = q;
        assert(v@ =~= Seq::new(j as nat, |i: int| inner_class_info_at(buffer@, pos + 8 * i)));
    }
    assert(v@ =~= Seq::new(n as nat, |i: int| inner_class_info_at(buffer@, pos + 8 * i)));
    Ok((v, cur))
}

/// The `LineNumberTableEntry` at offset `p` of `s`.
pub open spec fn line_number_table_entry_at(s: Seq<u8>, p: int) -> LineNumberTableEntry {
    LineNumberTableEntry { start_pc: be16(s, p + 0), line_number: be16(s, p + 2) }
}

/// Decodes one `LineNumberTableEntry` at `pos`.
fn decode_line_number_table_entry(buffer: &[u8], pos: usize, end: usize) -> (r: Result<
    (LineNumberTableEntry, usize),
    DecodeError,
>)
    requires
        pos <= end <= buffer@.len(),
    ensures
        match r {
            Ok((v, q)) => q == pos + 4 <= end
                && v == line_number_table_entry_at(buffer@, pos as int),
            Err(e) => pos + 4 > end && e == DecodeError::Truncation,
        },
{
    let (start_pc, q0) = read_u16(buffer, pos, end)?;
    let (line_number, q1) = read_u16(buffer, q0, end)?;
    Ok((LineNumberTableEntry { start_pc, line_number }, q1))
}

/// Decodes `n` consecutive `LineNumberTableEntry` records, the first at `pos`.
fn decode_line_numbers(buffer: &[u8], pos: usize, n: usize, end: usize) -> (r: Result<
    (Vec<LineNumberTableEntry>, usize),
    DecodeError,
>)
    requires
        pos <= end <= buffer@.len(),
    ensures
        match r {
            Ok((v, q)) => q == pos + 4 * n <= end && v@ == Seq::new(
                n as nat,
                |j: int| line_number_table_entry_at(buffer@, pos + 4 * j),
            ),
            Err(e) => pos + 4 * n > end && e == DecodeError::Truncation,
        },
{
    if (end - pos) / 4 < n {
        return Err(DecodeError::Truncation);
    }
    let mut v: Vec<LineNumberTableEntry> = Vec::with_capacity(n);
    let mut cur: usize = pos;
    let mut j: usize = 0;
    while j < n
        invariant
            pos + 4 * n <= end <= buffer@.len(),
            j <= n,
            cur == pos + 4 * j,
            v@ == Seq::new(j as nat, |i: int| line_number_table_entry_at(buffer@, pos + 4 * i)),
        decreases n - j,
    {
        let (x, q) = decode_line_number_table_entry(buffer, cur, end)?;
        v.push(x);
        j = j + 1;
        cur = q;
        assert(v@
            =~= Seq::new(j as nat, |i: int| line_number_table_entry_at(buffer@, pos + 4 * i)));
    }
    assert(v@ =~= Seq::new(n as nat, |i: int| line_number_table_entry_at(buffer@, pos + 4 * i)));
    Ok((v, cur))
}

/// The `LocalVariableTableEntry` at offset `p` of `s`.
pub open spec fn local_variable_table_entry_at(s: Seq<u8>, p: int) -> LocalVariableTableEntry {
    LocalVariableTableEntry {
        start_pc: be16(s, p + 0),
        length: be16(s, p + 2),
        name_index: be16(s, p + 4) as usize,
        descriptor_index: be16(s, p + 6) as usize,
        index: be16(s, p + 8) as usize,
    }
}

/// Decodes one `LocalVariableTableEntry` at `pos`.
fn decode_local_variable_table_entry(buffer: &[u8], pos: usize, end: usize) -> (r: Result<
    (LocalVariableTableEntry, usize),
    DecodeError,
>)
    requires
        pos <= end <= buffer@.len(),
    ensures
        match r {
            Ok((v, q)) => q == pos + 10 <= end
                && v == local_variable_table_entry_at(buffer@, pos as int),
            Err(e) => pos + 10 > end && e == DecodeError::Truncation,
        },
{
    let (start_pc, q0) = read_u16(buffer, pos, end)?;
    let (length, q1) = read_u16(buffer, q0, end)?;
    let (name_index, q2) = read_u16(buffer, q1, end)?;
    let (descriptor_index, q3) = read_u16(buffer, q2, end)?;
    let (index, q4) = read_u16(buffer, q3, end)?;
    Ok((
        LocalVariableTableEntry {
            start_pc,
            length,
            name_index: name_index as usize,
            descriptor_index: descriptor_index as usize,
            index: index as usize,
        },
        q4,
    ))
}

/// Decodes `n` consecutive `LocalVariableTableEntry` records, the first at `pos`.
fn decode_local_variables(buffer: &[u8], pos: usize, n: usize, end: usize) -> (r: Result<
    (Vec<LocalVariableTableEntry>, usize),
    DecodeError,
>)
    requires
        pos <= end <= buffer@.len(),
    ensures
        match r {
            Ok((v, q)) => q == pos + 10 * n <= end && v@ == Seq::new(
                n as nat,
                |j: int| local_variable_table_entry_at(buffer@, pos + 10 * j),
            ),
            Err(e) => pos + 10 * n > end && e == DecodeError::Truncation,
        },
{
    if (end - pos) / 10 < n {
        return Err(DecodeError::Truncation);
    }
    let mut v: Vec<LocalVariableTableEntry> = Vec::with_capacity(n);
    let mut cur: usize = pos;
    let mut j: usize = 0;
    while j < n
        invariant
            pos + 10 * n <= end <= buffer@.len(),
            j <= n,
            cur == pos + 10 * j,
            v@ == Seq::new(j as nat, |i: int| local_variable_table_entry_at(buffer@, pos + 10 * i)),
        decreases n - j,
    {
        let (x, q) = decode_local_variable_table_entry(buffer, cur, end)?;
        v.push(x);
        j = j + 1;
        cur = q;
        assert(v@
            =~= Seq::new(j as nat, |i: int| local_variable_table_entry_at(buffer@, pos + 10 * i)));
    }
    assert(v@
        =~= Seq::new(n as nat, |i: int| local_variable_table_entry_at(buffer@, pos + 10 * i)));
    Ok((v, cur))
}

/// The `LocalVariableTypeTableEntry` at offset `p` of `s`.
pub open spec fn local_variable_type_table_entry_at(
    s: Seq<u8>,
    p: int,
) -> LocalVariableTypeTableEntry {
    LocalVariableTypeTableEntry {
        start_pc: be16(s, p + 0),
        length: be16(s, p + 2),
        name_index: be16(s, p + 4) as usize,
        signature_index: be16(s, p + 6) as usize,
        index: be16(s, p + 8) as usize,
    }
}

/// Decodes one `LocalVariableTypeTableEntry` at `pos`.
fn decode_local_variable_type_table_entry(buffer: &[u8], pos: usize, end: usize) -> (r: Result<
    (LocalVariableTypeTableEntry, usize),
    DecodeError,
>)
    requires
        pos <= end <= buffer@.len(),
    ensures
        match r {
            Ok((v, q)) => q == pos + 10 <= end
                && v == local_variable_type_table_entry_at(buffer@, pos as int),
            Err(e) => pos + 10 > end && e == DecodeError::Truncation,
        },
{
    let (start_pc, q0) = read_u16(buffer, pos, end)?;
    let (length, q1) = read_u16(buffer, q0, end)?;
    let (name_index, q2) = read_u16(buffer, q1, end)?;
    let (signature_index, q3) = read_u16(buffer, q2, end)?;
    let (index, q4) = read_u16(buffer, q3, end)?;
    Ok((
        LocalVariableTypeTableEntry {
            start_pc,
            length,
            name_index: name_index as usize,
            signature_index: signature_index as usize,
            index: index as usize,
        },
        q4,
    ))
}

/// Decodes `n` consecutive `LocalVariableTypeTableEntry` records, the first at `pos`.
fn decode_local_variable_types(buffer: &[u8], pos: usize, n: usize, end: usize) -> (r: Result<
    (Vec<LocalVariableTypeTableEntry>, usize),
    DecodeError,
>)
    requires
        pos <= end <= buffer@.len(),
    ensures
        match r {
            Ok((v, q)) => q == pos + 10 * n <= end && v@ == Seq::new(
                n as nat,
                |j: int| local_variable_type_table_entry_at(buffer@, pos + 10 * j),
            ),
            Err(e) => pos + 10 * n > end && e == DecodeError::Truncation,
        },
{
    if (end - pos) / 10 < n {
        return Err(DecodeError::Truncation);
    }
    let mut v: Vec<LocalVariableTypeTableEntry> = Vec::with_capacity(n);
    let mut cur: usize = pos;
    let mut j: usize = 0;
    while j < n
        invariant
            pos + 10 * n <= end <= buffer@.len(),
            j <= n,
            cur == pos + 10 * j,
            v@ == Seq::new(
                j as nat,
                |i: int| local_variable_type_table_entry_at(buffer@, pos + 10 * i),
            ),
        decreases n - j,
    {
        let (x, q) = decode_local_variable_type_table_entry(buffer, cur, end)?;
        v.push(x);
        j = j + 1;
        cur = q;
        assert(v@ =~= Seq::new(
            j as nat,
            |i: int| local_variable_type_table_entry_at(buffer@, pos + 10 * i),
        ));
    }
    assert(v@ =~= Seq::new(
        n as nat,
        |i: int| local_variable_type_table_entry_at(buffer@, pos + 10 * i),
    ));
    Ok((v, cur))
}

/// Outcome of decoding a count at `p` followed by that many `w`-byte records.
pub open spec fn counted_outcome(s: Seq<u8>, p: int, e: int, w: int) -> Result<int, DecodeError> {
    if p + 2 > e || p + 2 + w * be16(s, p) > e {
        Err(DecodeError::Truncation)
    } else {
        Ok(p + 2 + w * be16(s, p))
    }
}

/// Whether `v` is the `Exceptions` attribute whose payload starts at offset `p` of `s`: a count,
/// then that many 2-byte records.
pub open spec fn exceptions_at(s: Seq<u8>, p: int, v: ExceptionsAttribute) -> bool {
    &&& v.number_of_exceptions == be16(s, p)
    &&& v.exception_index_table@ == Seq::new(be16(s, p) as nat, |j: int| be16(s, p + 2 + 2 * j))
}

/// Decodes a `Exceptions` attribute whose payload starts at `pos`.
fn decode_exceptions_attribute(buffer: &[u8], pos: usize, end: usize) -> (r: Result<
    (ExceptionsAttribute, usize),
    DecodeError,
>)
    requires
        pos <= end <= buffer@.len(),
    ensures
        match r {
            Ok((v, q)) => counted_outcome(buffer@, pos as int, end as int, 2)
                == Ok::<int, DecodeError>(
                q as int,
            ) && exceptions_at(buffer@, pos as int, v),
            Err(e) => counted_outcome(buffer@, pos as int, end as int, 2)
                == Err::<int, DecodeError>(e),
        },
{
    let (count, q) = read_u16(buffer, pos, end)?;
    let (table, q) = decode_u16_list(buffer, q, count as usize, end)?;
    Ok((ExceptionsAttribute { number_of_exceptions: count, exception_index_table: table }, q))
}

/// Whether `v` is the `InnerClasses` attribute whose payload starts at offset `p` of `s`: a count,
/// then that many 8-byte records.
pub open spec fn inner_classes_at(s: Seq<u8>, p: int, v: InnerClassesAttribute) -> bool {
    &&& v.number_of_classes == be16(s, p)
    &&& v.classes@ == Seq::new(be16(s, p) as nat, |j: int| inner_class_info_at(s, p + 2 + 8 * j))
}

/// Decodes a `InnerClasses` attribute whose payload starts at `pos`.
fn decode_inner_classes_attribute(buffer: &[u8], pos: usize, end: usize) -> (r: Result<
    (InnerClassesAttribute, usize),
    DecodeError,
>)
    requires
        pos <= end <= buffer@.len(),
    ensures
        match r {
            Ok((v, q)) => counted_outcome(buffer@, pos as int, end as int, 8)
                == Ok::<int, DecodeError>(
                q as int,
            ) && inner_classes_at(buffer@, pos as int, v),
            Err(e) => counted_outcome(buffer@, pos as int, end as int, 8)
                == Err::<int, DecodeError>(e),
        },
{
    let (count, q) = read_u16(buffer, pos, end)?;
    let (table, q) = decode_inner_class_infos(buffer, q, count as usize, end)?;
    Ok((InnerClassesAttribute { number_of_classes: count, classes: table }, q))
}

/// Whether `v` is the `LineNumberTable` attribute whose payload starts at offset `p` of `s`: a
/// count,
/// then that many 4-byte records.
pub open spec fn line_number_table_at(s: Seq<u8>, p: int, v: LineNumberTableAttribute) -> bool {
    &&& v.line_number_table_length == be16(s, p)
    &&& v.line_number_table@ == Seq::new(
        be16(s, p) as nat,
        |j: int| line_number_table_entry_at(s, p + 2 + 4 * j),
    )
}

/// Decodes a `LineNumberTable` attribute whose payload starts at `pos`.
fn decode_line_number_table_attribute(buffer: &[u8], pos: usize, end: usize) -> (r: Result<
    (LineNumberTableAttribute, usize),
    DecodeError,
>)
    requires
        pos <= end <= buffer@.len(),
    ensures
        match r {
            Ok((v, q)) => counted_outcome(buffer@, pos as int, end as int, 4)
                == Ok::<int, DecodeError>(
                q as int,
            ) && line_number_table_at(buffer@, pos as int, v),
            Err(e) => counted_outcome(buffer@, pos as int, end as int, 4)
                == Err::<int, DecodeError>(e),
        },
{
    let (count, q) = read_u16(buffer, pos, end)?;
    let (table, q) = decode_line_numbers(buffer, q, count as usize, end)?;
    Ok((LineNumberTableAttribute { line_number_table_length: count, line_number_table: table }, q))
}

/// Whether `v` is the `LocalVariableTable` attribute whose payload starts at offset `p` of `s`: a
/// count,
/// then that many 10-byte records.
pub open spec fn local_variable_table_at(
    s: Seq<u8>,
    p: int,
    v: LocalVariableTableAttribute,
) -> bool {
    &&& v.local_variable_table_length == be16(s, p)
    &&& v.local_variable_table@ == Seq::new(
        be16(s, p) as nat,
        |j: int| local_variable_table_entry_at(s, p + 2 + 10 * j),
    )
}

/// Decodes a `LocalVariableTable` attribute whose payload starts at `pos`.
fn decode_local_variable_table_attribute(buffer: &[u8], pos: usize, end: usize) -> (r: Result<
    (LocalVariableTableAttribute, usize),
    DecodeError,
>)
    requires
        pos <= end <= buffer@.len(),
    ensures
        match r {
            Ok((v, q)) => counted_outcome(buffer@, pos as int, end as int, 10)
                == Ok::<int, DecodeError>(
                q as int,
            ) && local_variable_table_at(buffer@, pos as int, v),
            Err(e) => counted_outcome(buffer@, pos as int, end as int, 10)
                == Err::<int, DecodeError>(e),
        },
{
    let (count, q) = read_u16(buffer, pos, end)?;
    let (table, q) = decode_local_variables(buffer, q, count as usize, end)?;
    Ok((
        LocalVariableTableAttribute {
            local_variable_table_length: count,
            local_variable_table: table,
        },
        q,
    ))
}

/// Whether `v` is the `LocalVariableTypeTable` attribute whose payload starts at offset `p` of `s`:
/// a count,
/// then that many 10-byte records.
pub open spec fn local_variable_type_table_at(
    s: Seq<u8>,
    p: int,
    v: LocalVariableTypeTableAttribute,
) -> bool {
    &&& v.local_variable_type_table_length == be16(s, p)
    &&& v.local_variable_type_table@ == Seq::new(
        be16(s, p) as nat,
        |j: int| local_variable_type_table_entry_at(s, p + 2 + 10 * j),
    )
}

/// Decodes a `LocalVariableTypeTable` attribute whose payload starts at `pos`.
fn decode_local_variable_type_table_attribute(buffer: &[u8], pos: usize, end: usize) -> (r: Result<
    (LocalVariableTypeTableAttribute, usize),
    DecodeError,
>)
    requires
        pos <= end <= buffer@.len(),
    ensures
        match r {
            Ok((v, q)) => counted_outcome(buffer@, pos as int, end as int, 10)
                == Ok::<int, DecodeError>(
                q as int,
            ) && local_variable_type_table_at(buffer@, pos as int, v),
            Err(e) => counted_outcome(buffer@, pos as int, end as int, 10)
                == Err::<int, DecodeError>(e),
        },
{
    let (count, q) = read_u16(buffer, pos, end)?;
    let (table, q) = decode_local_variable_types(buffer, q, count as usize, end)?;
    Ok((
        LocalVariableTypeTableAttribute {
            local_variable_type_table_length: count,
            local_variable_type_table: table,
        },
        q,
    ))
}

/// Whether `v` is the `NestMembers` attribute whose payload starts at offset `p` of `s`: a count,
/// then that many 2-byte records.
pub open spec fn nest_members_at(s: Seq<u8>, p: int, v: NestMembersAttribute) -> bool {
    &&& v.number_of_classes == be16(s, p)
    &&& v.classes@ == Seq::new(be16(s, p) as nat, |j: int| be16(s, p + 2 + 2 * j))
}

/// Decodes a `NestMembers` attribute whose payload starts at `pos`.
fn decode_nest_members_attribute(buffer: &[u8], pos: usize, end: usize) -> (r: Result<
    (NestMembersAttribute, usize),
    DecodeError,
>)
    requires
        pos <= end <= buffer@.len(),
    ensures
        match r {
            Ok((v, q)) => counted_outcome(buffer@, pos as int, end as int, 2)
                == Ok::<int, DecodeError>(
                q as int,
            ) && nest_members_at(buffer@, pos as int, v),
            Err(e) => counted_outcome(buffer@, pos as int, end as int, 2)
                == Err::<int, DecodeError>(e),
        },
{
    let (count, q) = read_u16(buffer, pos, end)?;
    let (table, q) = decode_u16_list(buffer, q, count as usize, end)?;
    Ok((NestMembersAttribute { number_of_classes: count, classes: table }, q))
}

/// Whether `v` is the `PermittedSubtypes` attribute whose payload starts at offset `p` of `s`: a
/// count,
/// then that many 2-byte records.
pub open spec fn permitted_subtypes_at(s: Seq<u8>, p: int, v: PermittedSubtypesAttribute) -> bool {
    &&& v.number_of_classes == be16(s, p)
    &&& v.classes@ == Seq::new(be16(s, p) as nat, |j: int| be16(s, p + 2 + 2 * j))
}

/// Decodes a `PermittedSubtypes` attribute whose payload starts at `pos`.
fn decode_permitted_subtypes_attribute(buffer: &[u8], pos: usize, end: usize) -> (r: Result<
    (PermittedSubtypesAttribute, usize),
    DecodeError,
>)
    requires
        pos <= end <= buffer@.len(),
    ensures
        match r {
            Ok((v, q)) => counted_outcome(buffer@, pos as int, end as int, 2)
                == Ok::<int, DecodeError>(
                q as int,
            ) && permitted_subtypes_at(buffer@, pos as int, v),
            Err(e) => counted_outcome(buffer@, pos as int, end as int, 2)
                == Err::<int, DecodeError>(e),
        },
{
    let (count, q) = read_u16(buffer, pos, end)?;
    let (table, q) = decode_u16_list(buffer, q, count as usize, end)?;
    Ok((PermittedSubtypesAttribute { number_of_classes: count, classes: table }, q))
}

/// Outcome of decoding one verification type whose tag byte is at `p`.
pub open spec fn vti_outcome(s: Seq<u8>, p: int, e: int) -> Result<int, DecodeError> {
    if p + 1 > e {
        Err(DecodeError::Truncation)
    } else if s[p] <= 6 {
        Ok(p + 1)
    } else if s[p] <= 8 {
        if p + 3 > e {
            Err(DecodeError::Truncation)
        } else {
            Ok(p + 3)
        }
    } else {
        Err(DecodeError::UnknownTag)
    }
}

/// [`vti_outcome`] as a function of the start offset.
pub open spec fn vti_step(s: Seq<u8>, e: int) -> spec_fn(int) -> Result<int, DecodeError> {
    |q: int| vti_outcome(s, q, e)
}

/// The verification type whose tag byte is at `p`.
pub open spec fn vti_at(s: Seq<u8>, p: int) -> VerificationTypeInfo {
    match s[p] {
        0 => VerificationTypeInfo::Top,
        1 => VerificationTypeInfo::Integer,
        2 => VerificationTypeInfo::Float,
        3 => VerificationTypeInfo::Double,
        4 => VerificationTypeInfo::Long,
        5 => VerificationTypeInfo::Null,
        6 => VerificationTypeInfo::UninitializedThis,
        7 => VerificationTypeInfo::Object { cpool_index: be16(s, p + 1) },
        _ => VerificationTypeInfo::Uninitialized { offset: be16(s, p + 1) },
    }
}

/// The `n` verification types that follow one another from `p`.
pub open spec fn vtis_at(s: Seq<u8>, p: int, e: int, n: nat) -> Seq<VerificationTypeInfo> {
    Seq::new(n, |j: int| vti_at(s, walk_starts(vti_step(s, e), p, n)[j]))
}

/// Decodes one verification type at `pos`: a tag byte, then a 2-byte operand for `Object`
/// and `Uninitialized`.
fn decode_verification_type_info(buffer: &[u8], pos: usize, end: usize) -> (r: Result<
    (VerificationTypeInfo, usize),
    DecodeError,
>)
    requires
        pos <= end <= buffer@.len(),
    ensures
        match r {
            Ok((v, q)) => vti_step(buffer@, end as int)(pos as int)
                == Ok::<int, DecodeError>(q as int)
                && v == vti_at(buffer@, pos as int) && pos <= q <= end,
            Err(e) => vti_step(buffer@, end as int)(pos as int) == Err::<int, DecodeError>(e),
        },
{
    let (t, q) = read_u8(buffer, pos, end)?;
    match t {
        0 => Ok((VerificationTypeInfo::Top, q)),
        1 => Ok((VerificationTypeInfo::Integer, q)),
        2 => Ok((VerificationTypeInfo::Float, q)),
        3 => Ok((VerificationTypeInfo::Double, q)),
        4 => Ok((VerificationTypeInfo::Long, q)),
        5 => Ok((VerificationTypeInfo::Null, q)),
        6 => Ok((VerificationTypeInfo::UninitializedThis, q)),
        7 => {
            let (cpool_index, q) = read_u16(buffer, q, end)?;
            Ok((VerificationTypeInfo::Object { cpool_index }, q))
        },
        8 => {
            let (offset, q) = read_u16(buffer, q, end)?;
            Ok((VerificationTypeInfo::Uninitialized { offset }, q))
        },
        _ => Err(DecodeError::UnknownTag),
    }
}

/// Decodes `n` consecutive verification types, the first at `pos`.
fn decode_verification_type_infos(buffer: &[u8], pos: usize, n: usize, end: usize) -> (r: Result<
    (Vec<VerificationTypeInfo>, usize),
    DecodeError,
>)
    requires
        pos <= end <= buffer@.len(),
    ensures
        match r {
            Ok((v, q)) => {
                &&& walk(vti_step(buffer@, end as int), pos as int, n as nat)
                    == Ok::<int, DecodeError>(q as int)
                &&& v@.len() == n
                &&& pos <= q <= end
                &&& forall|j: int| 0 <= j < n ==>
                    #[trigger] v@[j] == vti_at(
                        buffer@,
                        walk_starts(vti_step(buffer@, end as int), pos as int, n as nat)[j],
                    )
            },
            Err(e) => walk(vti_step(buffer@, end as int), pos as int, n as nat)
                == Err::<int, DecodeError>(e),
        },
{
    let ghost s = buffer@;
    let ghost f = vti_step(buffer@, end as int);
    let mut v: Vec<VerificationTypeInfo> = Vec::with_capacity(n);
    let mut cur: usize = pos;
    let mut j: usize = 0;
    let ghost mut st: Seq<int> = Seq::empty();
    while j < n
        invariant
            s == buffer@,
            f == vti_step(s, end as int),
            pos <= cur <= end <= buffer@.len(),
            j <= n,
            walk(f, pos as int, n as nat) == walk(f, cur as int, (n - j) as nat),
            walk_starts(f, pos as int, n as nat) == st + walk_starts(f, cur as int, (n - j) as nat),
            st.len() == j,
            v@.len() == j,
            forall|i: int| 0 <= i < j ==> #[trigger] v@[i] == vti_at(s, st[i]),
        decreases n - j,
    {
        let (x, q) = match decode_verification_type_info(buffer, cur, end) {
            Ok(x) => x,
            Err(e) => {
                return Err(e);
            },
        };
        proof {
            assert(st + walk_starts(f, cur as int, (n - j) as nat) =~= st.push(cur as int)
                + walk_starts(f, q as int, (n - j - 1) as nat));
            st = st.push(cur as int);
        }
        v.push(x);
        j = j + 1;
        cur = q;
    }
    assert(st + walk_starts(f, cur as int, 0) =~= st);
    Ok((v, cur))
}

/// The frame shape that a frame-type byte selects; `None` for the reserved types 128 to 246.
pub open spec fn frame_type_of(t: u8) -> Option<StackMapFrameType> {
    if t <= 63 {
        Some(StackMapFrameType::SameFrame)
    } else if t <= 127 {
        Some(StackMapFrameType::SameLocals1StackItemFrame)
    } else if t < 247 {
        None
    } else if t == 247 {
        Some(StackMapFrameType::SameLocals1StackItemFrameExtended)
    } else if t <= 250 {
        Some(StackMapFrameType::ChopFrame)
    } else if t == 251 {
        Some(StackMapFrameType::SameFrameExtended)
    } else if t <= 254 {
        Some(StackMapFrameType::AppendFrame)
    } else {
        Some(StackMapFrameType::FullFrame)
    }
}

impl StackMapFrameType {
    /// The frame shape that a frame-type byte selects, by its range.
    pub fn from_frame_type(t: u8) -> (r: Option<StackMapFrameType>)
        ensures
            r == frame_type_of(t),
    {
        if t <= 63 {
            Some(StackMapFrameType::SameFrame)
        } else if t <= 127 {
            Some(StackMapFrameType::SameLocals1StackItemFrame)
        } else if t < 247 {
            None
        } else if t == 247 {
            Some(StackMapFrameType::SameLocals1StackItemFrameExtended)
        } else if t <= 250 {
            Some(StackMapFrameType::ChopFrame)
        } else if t == 251 {
            Some(StackMapFrameType::SameFrameExtended)
        } else if t <= 254 {
            Some(StackMapFrameType::AppendFrame)
        } else {
            Some(StackMapFrameType::FullFrame)
        }
    }
}

/// Outcome of decoding one stack-map frame whose frame-type byte is at `p`. Same frames have
/// no offset delta; the other shapes carry a 2-byte one after the frame type.
pub open spec fn frame_outcome(s: Seq<u8>, p: int, e: int) -> Result<int, DecodeError> {
    if p + 1 > e {
        Err(DecodeError::Truncation)
    } else {
        match frame_type_of(s[p]) {
            None => Err(DecodeError::UnknownTag),
            Some(StackMapFrameType::SameFrame) => Ok(p + 1),
            Some(StackMapFrameType::SameLocals1StackItemFrame) => vti_outcome(s, p + 1, e),
            Some(k) => if p + 3 > e {
                Err(DecodeError::Truncation)
            } else {
                match k {
                    StackMapFrameType::SameLocals1StackItemFrameExtended => vti_outcome(s, p + 3, e),
                    StackMapFrameType::AppendFrame => walk(
                        vti_step(s, e),
                        p + 3,
                        (s[p] - 251) as nat,
                    ),
                    StackMapFrameType::FullFrame => if p + 5 > e {
                        Err(DecodeError::Truncation)
                    } else {
                        match walk(vti_step(s, e), p + 5, be16(s, p + 3) as nat) {
                            Ok(r) => if r + 2 > e {
                                Err(DecodeError::Truncation)
                            } else {
                                walk(vti_step(s, e), r + 2, be16(s, r) as nat)
                            },
                            Err(err) => Err(err),
                        }
                    },
                    _ => Ok(p + 3),
                }
            },
        }
    }
}

/// [`frame_outcome`] as a function of the start offset.
pub open spec fn frame_step(s: Seq<u8>, e: int) -> spec_fn(int) -> Result<int, DecodeError> {
    |q: int| frame_outcome(s, q, e)
}

/// Offset of the stack-item count of the full frame whose frame-type byte is at `p`.
pub open spec fn full_frame_stack_pos(s: Seq<u8>, p: int, e: int) -> int {
    match walk(vti_step(s, e), p + 5, be16(s, p + 3) as nat) {
        Ok(r) => r,
        Err(_) => e,
    }
}

/// Whether `f` is the stack-map frame whose frame-type byte is at `p`.
pub open spec fn frame_at(s: Seq<u8>, p: int, e: int, f: StackMapFrame) -> bool {
    let t = s[p];
    match frame_type_of(t) {
        Some(StackMapFrameType::SameFrame) => f == StackMapFrame::SameFrame(SameFrame { frame_type: t }),
        Some(StackMapFrameType::SameLocals1StackItemFrame) => f
            == StackMapFrame::SameLocals1StackItemFrame(
            SameLocals1StackItemFrame { frame_type: t, stack: vti_at(s, p + 1) },
        ),
        Some(StackMapFrameType::SameLocals1StackItemFrameExtended) => f
            == StackMapFrame::SameLocals1StackItemFrameExtended(
            SameLocals1StackItemFrameExtended {
                frame_type: t,
                offset_delta: be16(s, p + 1),
                stack: vti_at(s, p + 3),
            },
        ),
        Some(StackMapFrameType::ChopFrame) => f == StackMapFrame::ChopFrame(
            ChopFrame { frame_type: t, offset_delta: be16(s, p + 1) },
        ),
        Some(StackMapFrameType::SameFrameExtended) => f == StackMapFrame::SameFrameExtended(
            SameFrameExtended { frame_type: t, offset_delta: be16(s, p + 1) },
        ),
        Some(StackMapFrameType::AppendFrame) => f matches StackMapFrame::AppendFrame(a) && {
            &&& a.frame_type == t
            &&& a.offset_delta == be16(s, p + 1)
            &&& a.locals@ == vtis_at(s, p + 3, e, (t - 251) as nat)
        },
        Some(StackMapFrameType::FullFrame) => f matches StackMapFrame::FullFrame(x) && {
            let r = full_frame_stack_pos(s, p, e);
            &&& x.frame_type == t
            &&& x.offset_delta == be16(s, p + 1)
            &&& x.number_of_locals == be16(s, p + 3)
            &&& x.locals@ == vtis_at(s, p + 5, e, be16(s, p + 3) as nat)
            &&& x.number_of_stack_items == be16(s, r)
            &&& x.stack@ == vtis_at(s, r + 2, e, be16(s, r) as nat)
        },
        None => false,
    }
}

/// Decodes one stack-map frame at `pos`, dispatching on the range of its frame-type byte.
#[verifier::spinoff_prover]
#[verifier::rlimit(60)]
fn decode_stack_map_frame(buffer: &[u8], pos: usize, end: usize) -> (r: Result<
    (StackMapFrame, usize),
    DecodeError,
>)
    requires
        pos <= end <= buffer@.len(),
    ensures
        match r {
            Ok((v, q)) => frame_step(buffer@, end as int)(pos as int)
                == Ok::<int, DecodeError>(q as int)
                && frame_at(buffer@, pos as int, end as int, v) && pos <= q <= end,
            Err(e) => frame_step(buffer@, end as int)(pos as int) == Err::<int, DecodeError>(e),
        },
{
    let (frame_type, q) = read_u8(buffer, pos, end)?;
    let shape = match StackMapFrameType::from_frame_type(frame_type) {
        Some(k) => k,
        None => {
            return Err(DecodeError::UnknownTag);
        },
    };
    match shape {
        StackMapFrameType::SameFrame => Ok((StackMapFrame::SameFrame(SameFrame { frame_type }), q)),
        StackMapFrameType::SameLocals1StackItemFrame => {
            let (stack, q) = decode_verification_type_info(buffer, q, end)?;
            Ok((
                StackMapFrame::SameLocals1StackItemFrame(
                    SameLocals1StackItemFrame { frame_type, stack },
                ),
                q,
            ))
        },
        StackMapFrameType::SameLocals1StackItemFrameExtended => {
            let (offset_delta, q) = read_u16(buffer, q, end)?;
            let (stack, q) = decode_verification_type_info(buffer, q, end)?;
            Ok((
                StackMapFrame::SameLocals1StackItemFrameExtended(
                    SameLocals1StackItemFrameExtended { frame_type, offset_delta, stack },
                ),
                q,
            ))
        },
        StackMapFrameType::ChopFrame => {
            let (offset_delta, q) = read_u16(buffer, q, end)?;
            Ok((StackMapFrame::ChopFrame(ChopFrame { frame_type, offset_delta }), q))
        },
        StackMapFrameType::SameFrameExtended => {
            let (offset_delta, q) = read_u16(buffer, q, end)?;
            Ok((StackMapFrame::SameFrameExtended(SameFrameExtended { frame_type, offset_delta }), q))
        },
        StackMapFrameType::AppendFrame => {
            let (offset_delta, q) = read_u16(buffer, q, end)?;
            let (locals, q) = match decode_verification_type_infos(
                buffer,
                q,
                (frame_type - 251) as usize,
                end,
            ) {
                Ok(x) => x,
                Err(e) => {
                    return Err(e);
                },
            };
            assert(locals@ =~= vtis_at(buffer@, pos + 3, end as int, (frame_type - 251) as nat));
            Ok((StackMapFrame::AppendFrame(AppendFrame { frame_type, offset_delta, locals }), q))
        },
        StackMapFrameType::FullFrame => {
            let (offset_delta, q) = read_u16(buffer, q, end)?;
            let (number_of_locals, q) = read_u16(buffer, q, end)?;
            let (locals, q) = match decode_verification_type_infos(
                buffer,
                q,
                number_of_locals as usize,
                end,
            ) {
                Ok(x) => x,
                Err(e) => {
                    return Err(e);
                },
            };
            let q2 = q;
            let (number_of_stack_items, q) = read_u16(buffer, q, end)?;
            let (stack, q) = match decode_verification_type_infos(
                buffer,
                q,
                number_of_stack_items as usize,
                end,
            ) {
                Ok(x) => x,
                Err(e) => {
                    return Err(e);
                },
            };
            assert(locals@ =~= vtis_at(buffer@, pos + 5, end as int, number_of_locals as nat));
            assert(stack@ =~= vtis_at(buffer@, q2 + 2, end as int, number_of_stack_items as nat));
            Ok((
                StackMapFrame::FullFrame(
                    FullFrame {
                        frame_type,
                        offset_delta,
                        number_of_locals,
                        locals,
                        number_of_stack_items,
                        stack,
                    },
                ),
                q,
            ))
        },
    }
}

/// Decodes `n` consecutive stack-map frames, the first at `pos`.
fn decode_stack_map_frames(buffer: &[u8], pos: usize, n: usize, end: usize) -> (r: Result<
    (Vec<StackMapFrame>, usize),
    DecodeError,
>)
    requires
        pos <= end <= buffer@.len(),
    ensures
        match r {
            Ok((v, q)) => {
                &&& walk(frame_step(buffer@, end as int), pos as int, n as nat)
                    == Ok::<int, DecodeError>(q as int)
                &&& v@.len() == n
                &&& pos <= q <= end
                &&& forall|j: int| 0 <= j < n ==>
                    frame_at(
                        buffer@,
                        walk_starts(frame_step(buffer@, end as int), pos as int, n as nat)[j],
                        end as int,
                        #[trigger] v@[j],
                    )
            },
            Err(e) => walk(frame_step(buffer@, end as int), pos as int, n as nat)
                == Err::<int, DecodeError>(e),
        },
{
    let ghost s = buffer@;
    let ghost f = frame_step(buffer@, end as int);
    let mut v: Vec<StackMapFrame> = Vec::with_capacity(n);
    let mut cur: usize = pos;
    let mut j: usize = 0;
    let ghost mut st: Seq<int> = Seq::empty();
    while j < n
        invariant
            s == buffer@,
            f == frame_step(s, end as int),
            pos <= cur <= end <= buffer@.len(),
            j <= n,
            walk(f, pos as int, n as nat) == walk(f, cur as int, (n - j) as nat),
            walk_starts(f, pos as int, n as nat) == st + walk_starts(f, cur as int, (n - j) as nat),
            st.len() == j,
            v@.len() == j,
            forall|i: int| 0 <= i < j ==> frame_at(s, st[i], end as int, #[trigger] v@[i]),
        decreases n - j,
    {
        let (x, q) = match decode_stack_map_frame(buffer, cur, end) {
            Ok(x) => x,
            Err(e) => {
                return Err(e);
            },
        };
        proof {
            assert(st + walk_starts(f, cur as int, (n - j) as nat) =~= st.push(cur as int)
                + walk_starts(f, q as int, (n - j - 1) as nat));
            st = st.push(cur as int);
        }
        v.push(x);
        j = j + 1;
        cur = q;
    }
    assert(st + walk_starts(f, cur as int, 0) =~= st);
    Ok((v, cur))
}

/// Outcome of decoding a `StackMapTable` payload at `p`: a count, then that many frames.
pub open spec fn stack_map_table_outcome(s: Seq<u8>, p: int, e: int) -> Result<int, DecodeError> {
    if p + 2 > e {
        Err(DecodeError::Truncation)
    } else {
        walk(frame_step(s, e), p + 2, be16(s, p) as nat)
    }
}

/// Whether `v` is the `StackMapTable` attribute whose payload starts at `p`.
pub open spec fn stack_map_table_at(s: Seq<u8>, p: int, e: int, v: StackMapTableAttribute) -> bool {
    let n = be16(s, p) as nat;
    &&& v.number_of_entries == be16(s, p)
    &&& v.entries@.len() == n
    &&& forall|j: int|
        0 <= j < n ==>
            frame_at(s, walk_starts(frame_step(s, e), p + 2, n)[j], e, #[trigger] v.entries@[j])
}

/// Decodes a `StackMapTable` attribute whose payload starts at `pos`.
fn decode_stack_map_table(buffer: &[u8], pos: usize, end: usize) -> (r: Result<
    (StackMapTableAttribute, usize),
    DecodeError,
>)
    requires
        pos <= end <= buffer@.len(),
    ensures
        match r {
            Ok((v, q)) => stack_map_table_outcome(buffer@, pos as int, end as int)
                == Ok::<int, DecodeError>(q as int)
                && stack_map_table_at(buffer@, pos as int, end as int, v),
            Err(e) => stack_map_table_outcome(buffer@, pos as int, end as int)
                == Err::<int, DecodeError>(e),
        },
{
    let (number_of_entries, q) = read_u16(buffer, pos, end)?;
    let (entries, q) = match decode_stack_map_frames(buffer, q, number_of_entries as usize, end) {
        Ok(x) => x,
        Err(e) => {
            return Err(e);
        },
    };
    Ok((StackMapTableAttribute { number_of_entries, entries }, q))
}

/// Outcome of decoding one bootstrap method at `p`: a method-handle index, an argument count,
/// then that many argument indices.
pub open spec fn bootstrap_method_outcome(s: Seq<u8>, p: int, e: int) -> Result<int, DecodeError> {
    if p + 4 > e || p + 4 + 2 * be16(s, p + 2) > e {
        Err(DecodeError::Truncation)
    } else {
        Ok(p + 4 + 2 * be16(s, p + 2))
    }
}

/// [`bootstrap_method_outcome`] as a function of the start offset.
pub open spec fn bootstrap_method_step(
    s: Seq<u8>,
    e: int) -> spec_fn(int,
) -> Result<int, DecodeError> {
    |q: int| bootstrap_method_outcome(s, q, e)
}

/// Whether `v` is the bootstrap method at `p`.
pub open spec fn bootstrap_method_at(s: Seq<u8>, p: int, v: BootstrapMethodEntry) -> bool {
    &&& v.bootstrap_method_ref == be16(s, p) as usize
    &&& v.num_bootstrap_arguments == be16(s, p + 2) as usize
    &&& v.bootstrap_arguments@ == Seq::new(
        be16(s, p + 2) as nat,
        |j: int| be16(s, p + 4 + 2 * j) as usize,
    )
}

/// Decodes one bootstrap method at `pos`.
fn decode_bootstrap_method(buffer: &[u8], pos: usize, end: usize) -> (r: Result<
    (BootstrapMethodEntry, usize),
    DecodeError,
>)
    requires
        pos <= end <= buffer@.len(),
    ensures
        match r {
            Ok((v, q)) => bootstrap_method_step(buffer@, end as int)(pos as int)
                == Ok::<int, DecodeError>(q as int)
                && bootstrap_method_at(buffer@, pos as int, v) && pos <= q <= end,
            Err(e) => bootstrap_method_step(buffer@, end as int)(pos as int)
                == Err::<int, DecodeError>(e),
        },
{
    let (method_ref, q) = read_u16(buffer, pos, end)?;
    let (num_args, q) = read_u16(buffer, q, end)?;
    let (bootstrap_arguments, q) = decode_index_list(buffer, q, num_args as usize, end)?;
    Ok((
        BootstrapMethodEntry {
            bootstrap_method_ref: method_ref as usize,
            num_bootstrap_arguments: num_args as usize,
            bootstrap_arguments,
        },
        q,
    ))
}

/// Decodes `n` consecutive bootstrap methods, the first at `pos`.
fn decode_bootstrap_method_list(buffer: &[u8], pos: usize, n: usize, end: usize) -> (r: Result<
    (Vec<BootstrapMethodEntry>, usize),
    DecodeError,
>)
    requires
        pos <= end <= buffer@.len(),
    ensures
        match r {
            Ok((v, q)) => {
                &&& walk(bootstrap_method_step(buffer@, end as int), pos as int, n as nat)
                    == Ok::<int, DecodeError>(q as int)
                &&& v@.len() == n
                &&& pos <= q <= end
                &&& forall|j: int| 0 <= j < n ==>
                    bootstrap_method_at(
                        buffer@,
                        walk_starts(bootstrap_method_step(buffer@, end as int), pos as int, n as nat)[j],
                        #[trigger] v@[j],
                    )
            },
            Err(e) => walk(bootstrap_method_step(buffer@, end as int), pos as int, n as nat)
                == Err::<int, DecodeError>(e),
        },
{
    let ghost s = buffer@;
    let ghost f = bootstrap_method_step(buffer@, end as int);
    let mut v: Vec<BootstrapMethodEntry> = Vec::with_capacity(n);
    let mut cur: usize = pos;
    let mut j: usize = 0;
    let ghost mut st: Seq<int> = Seq::empty();
    while j < n
        invariant
            s == buffer@,
            f == bootstrap_method_step(s, end as int),
            pos <= cur <= end <= buffer@.len(),
            j <= n,
            walk(f, pos as int, n as nat) == walk(f, cur as int, (n - j) as nat),
            walk_starts(f, pos as int, n as nat) == st + walk_starts(f, cur as int, (n - j) as nat),
            st.len() == j,
            v@.len() == j,
            forall|i: int| 0 <= i < j ==> bootstrap_method_at(s, st[i], #[trigger] v@[i]),
        decreases n - j,
    {
        let (x, q) = match decode_bootstrap_method(buffer, cur, end) {
            Ok(x) => x,
            Err(e) => {
                return Err(e);
            },
        };
        proof {
            assert(st + walk_starts(f, cur as int, (n - j) as nat) =~= st.push(cur as int)
                + walk_starts(f, q as int, (n - j - 1) as nat));
            st = st.push(cur as int);
        }
        v.push(x);
        j = j + 1;
        cur = q;
    }
    assert(st + walk_starts(f, cur as int, 0) =~= st);
    Ok((v, cur))
}

/// Outcome of decoding a `BootstrapMethods` payload at `p`: a count, then that many methods.
pub open spec fn bootstrap_methods_outcome(s: Seq<u8>, p: int, e: int) -> Result<int, DecodeError> {
    if p + 2 > e {
        Err(DecodeError::Truncation)
    } else {
        walk(bootstrap_method_step(s, e), p + 2, be16(s, p) as nat)
    }
}

/// Whether `v` is the `BootstrapMethods` attribute whose payload starts at `p`.
pub open spec fn bootstrap_methods_at(
    s: Seq<u8>,
    p: int,
    e: int,
    v: BootstrapMethodsAttribute,
) -> bool {
    let n = be16(s, p) as nat;
    &&& v.num_bootstrap_methods == be16(s, p)
    &&& v.bootstrap_methods@.len() == n
    &&& forall|j: int|
        0 <= j < n ==> bootstrap_method_at(
            s,
            walk_starts(bootstrap_method_step(s, e), p + 2, n)[j],
            #[trigger] v.bootstrap_methods@[j],
        )
}

/// Decodes a `BootstrapMethods` attribute whose payload starts at `pos`.
fn decode_bootstrap_methods_attribute(buffer: &[u8], pos: usize, end: usize) -> (r: Result<
    (BootstrapMethodsAttribute, usize),
    DecodeError,
>)
    requires
        pos <= end <= buffer@.len(),
    ensures
        match r {
            Ok((v, q)) => bootstrap_methods_outcome(buffer@, pos as int, end as int)
                == Ok::<int, DecodeError>(q as int)
                && bootstrap_methods_at(buffer@, pos as int, end as int, v),
            Err(e) => bootstrap_methods_outcome(buffer@, pos as int, end as int)
                == Err::<int, DecodeError>(e),
        },
{
    let (num_bootstrap_methods, q) = read_u16(buffer, pos, end)?;
    let (bootstrap_methods, q) = match decode_bootstrap_method_list(
        buffer,
        q,
        num_bootstrap_methods as usize,
        end,
    ) {
        Ok(x) => x,
        Err(e) => {
            return Err(e);
        },
    };
    Ok((BootstrapMethodsAttribute { num_bootstrap_methods, bootstrap_methods }, q))
}

/// How an attribute name index resolves: the kind that its `Utf8` text selects (`None` for a
/// name that is not modelled), or `BadReference`.
pub open spec fn resolve_name(names: Seq<Option<Seq<u8>>>, k: u16) -> Result<
    Option<AttributeKind>,
    DecodeError,
> {
    if (k as int) < names.len() {
        match names[k as int] {
            Some(t) => Ok(attribute_kind_of(t)),
            None => Err(DecodeError::BadReference),
        }
    } else {
        Err(DecodeError::BadReference)
    }
}

/// Resolves an attribute name index against the constant pool.
fn resolve_attribute_name(pool: &[ConstantPoolInfo], k: u16) -> (r: Result<
    Option<AttributeKind>,
    DecodeError,
>)
    ensures
        r == resolve_name(utf8_names(pool@), k),
{
    match utf8_info_bytes(pool, k as usize) {
        Ok(t) => Ok(attribute_kind(t)),
        Err(e) => Err(e),
    }
}

/// Outcome of decoding the payload `[a, b)` of an attribute of a kind that holds no nested
/// attributes.
pub open spec fn simple_outcome(s: Seq<u8>, a: int, b: int, k: AttributeKind) -> Result<
    int,
    DecodeError,
> {
    match k {
        AttributeKind::ConstantValue | AttributeKind::Signature | AttributeKind::SourceFile
        | AttributeKind::NestHost => if a + 2 > b {
            Err(DecodeError::Truncation)
        } else {
            Ok(a + 2)
        },
        AttributeKind::EnclosingMethod => if a + 4 > b {
            Err(DecodeError::Truncation)
        } else {
            Ok(a + 4)
        },
        AttributeKind::Synthetic => Ok(a),
        AttributeKind::Exceptions | AttributeKind::NestMembers
        | AttributeKind::PermittedSubclasses => counted_outcome(s, a, b, 2),
        AttributeKind::InnerClasses => counted_outcome(s, a, b, 8),
        AttributeKind::LineNumberTable => counted_outcome(s, a, b, 4),
        AttributeKind::LocalVariableTable | AttributeKind::LocalVariableTypeTable =>
            counted_outcome(s, a, b, 10),
        AttributeKind::StackMapTable => stack_map_table_outcome(s, a, b),
        AttributeKind::BootstrapMethods => bootstrap_methods_outcome(s, a, b),
        AttributeKind::Code | AttributeKind::Record => Ok(b),
    }
}

/// Outcome of decoding the attribute table whose count field is at `p`, with `e` the end of
/// the enclosing span: the offset after the table, or the first error.
#[verifier::opaque]
pub open spec fn attributes_outcome(
    s: Seq<u8>,
    p: int,
    e: int,
    names: Seq<Option<Seq<u8>>>,
) -> Result<
    int,
    DecodeError,
>
    decreases e - p, 0int,
{
    if p + 2 > e {
        Err(DecodeError::Truncation)
    } else {
        entries_outcome(s, p + 2, e, names, be16(s, p) as nat)
    }
}

/// Outcome of decoding `n` attribute entries from `p`. Each entry is a name index, a 4-byte
/// payload length `L` and the payload; the next entry starts `L` bytes after the payload start,
/// whatever the payload's kind, and a payload of a kind that is not modelled is skipped unread.
pub open spec fn entries_outcome(
    s: Seq<u8>,
    p: int,
    e: int,
    names: Seq<Option<Seq<u8>>>,
    n: nat,
) -> Result<int, DecodeError>
    decreases e - p, 0int,
{
    if n == 0 {
        Ok(p)
    } else if p + 2 > e {
        Err(DecodeError::Truncation)
    } else {
        match resolve_name(names, be16(s, p)) {
            Err(err) => Err(err),
            Ok(kind) => if p + 6 > e || p + 6 + be32(s, p + 2) > e {
                Err(DecodeError::Truncation)
            } else {
                match payload_outcome(s, p + 6, p + 6 + be32(s, p + 2), names, kind) {
                    Ok(_) => entries_outcome(s, p + 6 + be32(s, p + 2), e, names, (n - 1) as nat),
                    Err(err) => Err(err),
                }
            },
        }
    }
}

/// Outcome of decoding the payload `[a, b)` of an attribute of the given kind (`None`: skipped).
pub open spec fn payload_outcome(
    s: Seq<u8>,
    a: int,
    b: int,
    names: Seq<Option<Seq<u8>>>,
    kind: Option<AttributeKind>,
) -> Result<int, DecodeError>
    decreases b - a, 1int,
{
    match kind {
        None => Ok(b),
        Some(AttributeKind::Code) => code_outcome(s, a, b, names),
        Some(AttributeKind::Record) => record_outcome(s, a, b, names),
        Some(k) => simple_outcome(s, a, b, k),
    }
}

/// Offset of the exception-table count of the `Code` payload starting at `a`.
pub open spec fn code_exceptions_pos(s: Seq<u8>, a: int) -> int {
    a + 8 + be32(s, a + 4)
}

/// Offset of the nested attribute table of the `Code` payload starting at `a`.
pub open spec fn code_attributes_pos(s: Seq<u8>, a: int) -> int {
    code_exceptions_pos(s, a) + 2 + 8 * be16(s, code_exceptions_pos(s, a))
}

/// Outcome of decoding a `Code` payload `[a, b)`: max stack, max locals, a 4-byte code length
/// and the code, an exception table of 8-byte records, then a nested attribute table.
pub open spec fn code_outcome(s: Seq<u8>, a: int, b: int, names: Seq<Option<Seq<u8>>>) -> Result<
    int,
    DecodeError,
>
    decreases b - a, 0int,
{
    if a + 8 > b || code_exceptions_pos(s, a) + 2 > b || code_attributes_pos(s, a) > b {
        Err(DecodeError::Truncation)
    } else {
        attributes_outcome(s, code_attributes_pos(s, a), b, names)
    }
}

/// Outcome of decoding a `Record` payload `[a, b)`: a count, then that many components.
pub open spec fn record_outcome(s: Seq<u8>, a: int, b: int, names: Seq<Option<Seq<u8>>>) -> Result<
    int,
    DecodeError,
>
    decreases b - a, 0int,
{
    if a + 2 > b {
        Err(DecodeError::Truncation)
    } else {
        components_outcome(s, a + 2, b, names, be16(s, a) as nat)
    }
}

/// Outcome of decoding `n` record components from `p`: each is a name index, a descriptor index
/// and an attribute table.
pub open spec fn components_outcome(
    s: Seq<u8>,
    p: int,
    e: int,
    names: Seq<Option<Seq<u8>>>,
    n: nat,
) -> Result<int, DecodeError>
    decreases e - p, 0int,
{
    if n == 0 {
        Ok(p)
    } else if p + 4 > e {
        Err(DecodeError::Truncation)
    } else {
        match attributes_outcome(s, p + 4, e, names) {
            Ok(q) => if p < q <= e {
                components_outcome(s, q, e, names, (n - 1) as nat)
            } else {
                Ok(q)
            },
            Err(err) => Err(err),
        }
    }
}

/// Start offsets of the record components that [`components_outcome`] visits.
pub open spec fn component_starts(
    s: Seq<u8>,
    p: int,
    e: int,
    names: Seq<Option<Seq<u8>>>,
    n: nat,
) -> Seq<int>
    decreases n,
{
    if n == 0 {
        Seq::empty()
    } else {
        match attributes_outcome(s, p + 4, e, names) {
            Ok(q) => seq![p] + component_starts(s, q, e, names, (n - 1) as nat),
            Err(_) => seq![p],
        }
    }
}

/// For the `n` attribute entries from `p`, added to `acc`: each name index of a modelled kind,
/// mapped to the offset of the last entry that carries it.
pub open spec fn attribute_fold(
    s: Seq<u8>,
    p: int,
    names: Seq<Option<Seq<u8>>>,
    n: nat,
    acc: Map<u16, int>,
) -> Map<u16, int>
    decreases n,
{
    if n == 0 {
        acc
    } else {
        attribute_fold(
            s,
            p + 6 + be32(s, p + 2),
            names,
            (n - 1) as nat,
            if resolve_name(names, be16(s, p)) matches Ok(Some(_)) {
                acc.insert(be16(s, p), p)
            } else {
                acc
            },
        )
    }
}

/// The entries that the attribute table whose count field is at `p` keeps: see
/// [`attribute_fold`].
pub open spec fn attribute_entries(
    s: Seq<u8>,
    p: int,
    names: Seq<Option<Seq<u8>>>,
) -> Map<u16, int> {
    attribute_fold(s, p + 2, names, be16(s, p) as nat, Map::empty())
}

/// Whether `m` is the dictionary decoded from the attribute table whose count field is at `p`:
/// its keys are the name indices of the modelled entries, and each maps to the payload of the
/// last entry with that name index.
#[verifier::opaque]
pub open spec fn attributes_at(
    s: Seq<u8>,
    p: int,
    e: int,
    names: Seq<Option<Seq<u8>>>,
    m: Map<u16, AttributeInfo>,
) -> bool
    decreases e - p, 2int,
{
    let entries = attribute_entries(s, p, names);
    &&& m.dom() == entries.dom()
    &&& forall|k: u16| #[trigger]
        entries.contains_key(k) ==> attribute_entry_at(s, p, e, names, entries[k], m[k])
}

/// Whether `v` is the payload of the entry at `q` of the attribute table at `p`.
pub open spec fn attribute_entry_at(
    s: Seq<u8>,
    p: int,
    e: int,
    names: Seq<Option<Seq<u8>>>,
    q: int,
    v: AttributeInfo,
) -> bool
    decreases e - p, 1int,
{
    &&& p < q
    &&& q + 6 + be32(s, q + 2) <= e
    &&& match resolve_name(names, be16(s, q)) {
        Ok(Some(kind)) => payload_at(s, q + 6, q + 6 + be32(s, q + 2), names, kind, v),
        _ => false,
    }
}

/// Whether `v` is the attribute of the given kind decoded from the payload `[a, b)`.
pub open spec fn payload_at(
    s: Seq<u8>,
    a: int,
    b: int,
    names: Seq<Option<Seq<u8>>>,
    kind: AttributeKind,
    v: AttributeInfo,
) -> bool
    decreases b - a, 2int,
{
    match kind {
        AttributeKind::ConstantValue => v == AttributeInfo::ConstantValue(
            ConstantValueAttribute { constant_value_index: be16(s, a) },
        ),
        AttributeKind::Code => v matches AttributeInfo::Code(c) && code_at(s, a, b, names, c),
        AttributeKind::StackMapTable => v matches AttributeInfo::StackMapTable(t)
            && stack_map_table_at(s, a, b, t),
        AttributeKind::Exceptions => v matches AttributeInfo::Exceptions(x)
            && exceptions_at(s, a, x),
        AttributeKind::InnerClasses => v matches AttributeInfo::InnerClasses(x) && inner_classes_at(
            s,
            a,
            x,
        ),
        AttributeKind::EnclosingMethod => v == AttributeInfo::EnclosingMethod(
            EnclosingMethodAttribute { class_index: be16(s, a), method_index: be16(s, a + 2) },
        ),
        AttributeKind::Synthetic => v == AttributeInfo::Synthetic(SyntheticAttribute),
        AttributeKind::Signature => v == AttributeInfo::Signature(
            SignatureAttribute { signature_index: be16(s, a) },
        ),
        AttributeKind::SourceFile => v == AttributeInfo::SourceFile(
            SourceFileAttribute { sourcefile_index: be16(s, a) },
        ),
        AttributeKind::LineNumberTable => v matches AttributeInfo::LineNumberTable(x)
            && line_number_table_at(s, a, x),
        AttributeKind::LocalVariableTable => v matches AttributeInfo::LocalVariableTable(x)
            && local_variable_table_at(s, a, x),
        AttributeKind::LocalVariableTypeTable => v matches AttributeInfo::LocalVariableTypeTable(x)
            && local_variable_type_table_at(s, a, x),
        AttributeKind::BootstrapMethods => v matches AttributeInfo::BootstrapMethods(x)
            && bootstrap_methods_at(s, a, b, x),
        AttributeKind::NestHost => v == AttributeInfo::NestHost(
            NestHostAttribute { host_class_index: be16(s, a) },
        ),
        AttributeKind::NestMembers => v matches AttributeInfo::NestMembers(x) && nest_members_at(
            s,
            a,
            x,
        ),
        AttributeKind::Record => v matches AttributeInfo::Record(r) && record_at(s, a, b, names, r),
        AttributeKind::PermittedSubclasses => v matches AttributeInfo::PermittedSubtypes(x)
            && permitted_subtypes_at(s, a, x),
    }
}

/// Whether `c` is the `Code` attribute decoded from the payload `[a, b)`.
pub open spec fn code_at(
    s: Seq<u8>,
    a: int,
    b: int,
    names: Seq<Option<Seq<u8>>>,
    c: CodeAttribute,
) -> bool
    decreases b - a, 1int,
{
    let x = code_exceptions_pos(s, a);
    let y = code_attributes_pos(s, a);
    &&& c.max_stack == be16(s, a)
    &&& c.max_locals == be16(s, a + 2)
    &&& c.code_length == be32(s, a + 4) as usize
    &&& c.code@ == s.subrange(a + 8, x)
    &&& c.exception_table_length == be16(s, x) as usize
    &&& c.exception_table@ == Seq::new(
        be16(s, x) as nat,
        |j: int| exception_table_entry_at(s, x + 2 + 8 * j),
    )
    &&& a < y <= b
    &&& attributes_at(s, y, b, names, c.attributes@)
}

/// Whether `r` is the `Record` attribute decoded from the payload `[a, b)`.
pub open spec fn record_at(
    s: Seq<u8>,
    a: int,
    b: int,
    names: Seq<Option<Seq<u8>>>,
    r: RecordAttribute,
) -> bool
    decreases b - a, 1int,
{
    let n = be16(s, a) as nat;
    &&& r.components_count == be16(s, a)
    &&& r.components@.len() == n
    &&& forall|j: int|
        0 <= j < n ==> component_at(
            s,
            a,
            b,
            names,
            component_starts(s, a + 2, b, names, n)[j],
            #[trigger] r.components@[j],
        )
}

/// Whether `c` is the record component at `q` of the `Record` payload `[a, b)`.
pub open spec fn component_at(
    s: Seq<u8>,
    a: int,
    b: int,
    names: Seq<Option<Seq<u8>>>,
    q: int,
    c: RecordComponentInfo,
) -> bool
    decreases b - a, 0int,
{
    &&& a < q
    &&& q + 4 <= b
    &&& c.name_index == be16(s, q)
    &&& c.descriptor_index == be16(s, q + 2)
    &&& attributes_at(s, q + 4, b, names, c.attributes@)
}

/// An attribute whose name is not modelled, with declared payload length `L`, is skipped: the
/// next entry is decoded from exactly the payload start plus `L`, and the skipped entry adds
/// nothing to the dictionary.
pub proof fn lemma_unknown_attribute_skipped(
    s: Seq<u8>,
    p: int,
    e: int,
    names: Seq<Option<Seq<u8>>>,
    n: nat,
    acc: Map<u16, int>,
)
    requires
        n > 0,
        p + 6 + be32(s, p + 2) <= e,
        resolve_name(names, be16(s, p)) == Ok::<Option<AttributeKind>, DecodeError>(None),
    ensures
        entries_outcome(s, p, e, names, n) == entries_outcome(
            s,
            p + 6 + be32(s, p + 2),
            e,
            names,
            (n - 1) as nat,
        ),
        attribute_fold(s, p, names, n, acc) == attribute_fold(
            s,
            p + 6 + be32(s, p + 2),
            names,
            (n - 1) as nat,
            acc,
        ),
{
    assert(payload_outcome(s, p + 6, p + 6 + be32(s, p + 2), names, None) == Ok::<int, DecodeError>(
        p + 6 + be32(s, p + 2),
    ));
}

/// Decodes the attribute table whose count field is at `pos`, with `end` the end of the
/// enclosing span: a count, then that many entries, each resolved by its name index against
/// `pool`. Entries of a kind that is not modelled are skipped by their declared length; a later
/// entry with the same name index replaces an earlier one.
pub fn decode_attributes(buffer: &[u8], pos: usize, end: usize, pool: &[ConstantPoolInfo]) -> (r:
    Result<(HashMap<u16, AttributeInfo>, usize), DecodeError>)
    requires
        pos <= end <= buffer@.len(),
    ensures
        match r {
            Ok((m, q)) => {
                &&& attributes_outcome(buffer@, pos as int, end as int, utf8_names(pool@)) == Ok::<
                    int,
                    DecodeError,
                >(q as int)
                &&& attributes_at(buffer@, pos as int, end as int, utf8_names(pool@), m@)
                &&& pos + 2 <= q <= end
            },
            Err(e) => attributes_outcome(buffer@, pos as int, end as int, utf8_names(pool@))
                == Err::<int, DecodeError>(e),
        },
    decreases end - pos, 0int,
{
    broadcast use vstd::std_specs::hash::group_hash_axioms;

    reveal(attributes_outcome);
    reveal(attributes_at);
    let ghost s = buffer@;
    let ghost names = utf8_names(pool@);
    let (count, start) = read_u16(buffer, pos, end)?;
    let n = count as usize;
    let mut attributes: HashMap<u16, AttributeInfo> = HashMap::new();
    let mut cur: usize = start;
    let mut j: usize = 0;
    let ghost mut acc: Map<u16, int> = Map::empty();
    while j < n
        invariant
            s == buffer@,
            names == utf8_names(pool@),
            n == count as usize,
            count == be16(s, pos as int),
            start == pos + 2,
            start <= cur <= end <= buffer@.len(),
            j <= n,
            entries_outcome(s, start as int, end as int, names, n as nat) == entries_outcome(
                s,
                cur as int,
                end as int,
                names,
                (n - j) as nat,
            ),
            attribute_fold(s, start as int, names, n as nat, Map::empty()) == attribute_fold(
                s,
                cur as int,
                names,
                (n - j) as nat,
                acc,
            ),
            attributes@.dom() == acc.dom(),
            forall|k: u16| #[trigger]
                acc.contains_key(k) ==> attribute_entry_at(
                    s,
                    pos as int,
                    end as int,
                    names,
                    acc[k],
                    attributes@[k],
                ),
        decreases n - j,
    {
        reveal(attributes_outcome);
        reveal(attributes_at);
        let (name_index, q) = read_u16(buffer, cur, end)?;
        let kind = match resolve_attribute_name(pool, name_index) {
            Ok(k) => k,
            Err(e) => {
                return Err(e);
            },
        };
        let (length, q) = read_u32(buffer, q, end)?;
        if end - q < length as usize {
            return Err(DecodeError::Truncation);
        }
        let payload_end = q + length as usize;
        match kind {
            Some(k) => {
                let v = match decode_attribute_payload(buffer, q, payload_end, pool, k) {
                    Ok(v) => v,
                    Err(e) => {
                        return Err(e);
                    },
                };
                let _ = attributes.insert(name_index, v);
                proof {
                    acc = acc.insert(name_index, cur as int);
                }
            },
            None => {
                proof {
                    lemma_unknown_attribute_skipped(
                        s,
                        cur as int,
                        end as int,
                        names,
                        (n - j) as nat,
                        acc,
                    );
                }
            },
        }
        assert(attributes@.dom() =~= acc.dom());
        cur = payload_end;
        j = j + 1;
    }
    Ok((attributes, cur))
}

/// Decodes the payload `[a, b)` of an attribute of a modelled kind.
#[verifier::spinoff_prover]
#[verifier::rlimit(100)]
fn decode_attribute_payload(
    buffer: &[u8],
    a: usize,
    b: usize,
    pool: &[ConstantPoolInfo],
    kind: AttributeKind,
) -> (r: Result<AttributeInfo, DecodeError>)
    requires
        a <= b <= buffer@.len(),
    ensures
        match r {
            Ok(v) => payload_outcome(buffer@, a as int, b as int, utf8_names(pool@), Some(kind)) is Ok
                && payload_at(buffer@, a as int, b as int, utf8_names(pool@), kind, v),
            Err(e) => payload_outcome(buffer@, a as int, b as int, utf8_names(pool@), Some(kind))
                == Err::<int, DecodeError>(e),
        },
    decreases b - a, 1int,
{
    match kind {
        AttributeKind::ConstantValue => {
            let (constant_value_index, _) = read_u16(buffer, a, b)?;
            Ok(AttributeInfo::ConstantValue(ConstantValueAttribute { constant_value_index }))
        },
        AttributeKind::Code => match decode_code_attribute(buffer, a, b, pool) {
            Ok((c, _)) => Ok(AttributeInfo::Code(c)),
            Err(e) => Err(e),
        },
        AttributeKind::StackMapTable => match decode_stack_map_table(buffer, a, b) {
            Ok((t, _)) => Ok(AttributeInfo::StackMapTable(t)),
            Err(e) => Err(e),
        },
        AttributeKind::Exceptions => match decode_exceptions_attribute(buffer, a, b) {
            Ok((x, _)) => Ok(AttributeInfo::Exceptions(x)),
            Err(e) => Err(e),
        },
        AttributeKind::InnerClasses => match decode_inner_classes_attribute(buffer, a, b) {
            Ok((x, _)) => Ok(AttributeInfo::InnerClasses(x)),
            Err(e) => Err(e),
        },
        AttributeKind::EnclosingMethod => {
            let (class_index, q) = read_u16(buffer, a, b)?;
            let (method_index, _) = read_u16(buffer, q, b)?;
            Ok(AttributeInfo::EnclosingMethod(EnclosingMethodAttribute { class_index, method_index }))
        },
        AttributeKind::Synthetic => Ok(AttributeInfo::Synthetic(SyntheticAttribute)),
        AttributeKind::Signature => {
            let (signature_index, _) = read_u16(buffer, a, b)?;
            Ok(AttributeInfo::Signature(SignatureAttribute { signature_index }))
        },
        AttributeKind::SourceFile => {
            let (sourcefile_index, _) = read_u16(buffer, a, b)?;
            Ok(AttributeInfo::SourceFile(SourceFileAttribute { sourcefile_index }))
        },
        AttributeKind::LineNumberTable => match decode_line_number_table_attribute(buffer, a, b) {
            Ok((x, _)) => Ok(AttributeInfo::LineNumberTable(x)),
            Err(e) => Err(e),
        },
        AttributeKind::LocalVariableTable => match decode_local_variable_table_attribute(
            buffer,
            a,
            b,
        ) {
            Ok((x, _)) => Ok(AttributeInfo::LocalVariableTable(x)),
            Err(e) => Err(e),
        },
        AttributeKind::LocalVariableTypeTable => match decode_local_variable_type_table_attribute(
            buffer,
            a,
            b,
        ) {
            Ok((x, _)) => Ok(AttributeInfo::LocalVariableTypeTable(x)),
            Err(e) => Err(e),
        },
        AttributeKind::BootstrapMethods => match decode_bootstrap_methods_attribute(buffer, a, b) {
            Ok((x, _)) => Ok(AttributeInfo::BootstrapMethods(x)),
            Err(e) => Err(e),
        },
        AttributeKind::NestHost => {
            let (host_class_index, _) = read_u16(buffer, a, b)?;
            Ok(AttributeInfo::NestHost(NestHostAttribute { host_class_index }))
        },
        AttributeKind::NestMembers => match decode_nest_members_attribute(buffer, a, b) {
            Ok((x, _)) => Ok(AttributeInfo::NestMembers(x)),
            Err(e) => Err(e),
        },
        AttributeKind::Record => match decode_record_attribute(buffer, a, b, pool) {
            Ok((x, _)) => Ok(AttributeInfo::Record(x)),
            Err(e) => Err(e),
        },
        AttributeKind::PermittedSubclasses => match decode_permitted_subtypes_attribute(
            buffer,
            a,
            b,
        ) {
            Ok((x, _)) => Ok(AttributeInfo::PermittedSubtypes(x)),
            Err(e) => Err(e),
        },
    }
}

/// Decodes a `Code` payload `[a, b)`, whose nested attribute table is decoded within the same
/// span.
#[verifier::spinoff_prover]
fn decode_code_attribute(buffer: &[u8], a: usize, b: usize, pool: &[ConstantPoolInfo]) -> (r:
    Result<(CodeAttribute, usize), DecodeError>)
    requires
        a <= b <= buffer@.len(),
    ensures
        match r {
            Ok((c, q)) => code_outcome(buffer@, a as int, b as int, utf8_names(pool@)) == Ok::<
                int,
                DecodeError,
            >(q as int) && code_at(buffer@, a as int, b as int, utf8_names(pool@), c),
            Err(e) => code_outcome(buffer@, a as int, b as int, utf8_names(pool@)) == Err::<
                int,
                DecodeError,
            >(e),
        },
    decreases b - a, 0int,
{
    let (max_stack, q) = read_u16(buffer, a, b)?;
    let (max_locals, q) = read_u16(buffer, q, b)?;
    let (code_length, q) = read_u32(buffer, q, b)?;
    let (code, q) = read_str(buffer, q, code_length as usize, b)?;
    let (exception_table_length, q) = read_u16(buffer, q, b)?;
    let (exception_table, q) = decode_exception_table(
        buffer,
        q,
        exception_table_length as usize,
        b,
    )?;
    let (attributes, q) = match decode_attributes(buffer, q, b, pool) {
        Ok(x) => x,
        Err(e) => {
            return Err(e);
        },
    };
    Ok((
        CodeAttribute {
            max_stack,
            max_locals,
            code_length: code_length as usize,
            code,
            exception_table_length: exception_table_length as usize,
            exception_table,
            attributes,
        },
        q,
    ))
}

/// Decodes a `Record` payload `[a, b)`: a count, then that many components, each with its own
/// attribute table.
#[verifier::spinoff_prover]
fn decode_record_attribute(buffer: &[u8], a: usize, b: usize, pool: &[ConstantPoolInfo]) -> (r:
    Result<(RecordAttribute, usize), DecodeError>)
    requires
        a <= b <= buffer@.len(),
    ensures
        match r {
            Ok((x, q)) => record_outcome(buffer@, a as int, b as int, utf8_names(pool@)) == Ok::<
                int,
                DecodeError,
            >(q as int) && record_at(buffer@, a as int, b as int, utf8_names(pool@), x),
            Err(e) => record_outcome(buffer@, a as int, b as int, utf8_names(pool@)) == Err::<
                int,
                DecodeError,
            >(e),
        },
    decreases b - a, 0int,
{
    let ghost s = buffer@;
    let ghost names = utf8_names(pool@);
    let (components_count, start) = read_u16(buffer, a, b)?;
    let n = components_count as usize;
    let mut components: Vec<RecordComponentInfo> = Vec::with_capacity(n);
    let mut cur: usize = start;
    let mut j: usize = 0;
    let ghost mut st: Seq<int> = Seq::empty();
    while j < n
        invariant
            s == buffer@,
            names == utf8_names(pool@),
            n == components_count as usize,
            components_count == be16(s, a as int),
            start == a + 2,
            start <= cur <= b <= buffer@.len(),
            j <= n,
            components_outcome(s, start as int, b as int, names, n as nat) == components_outcome(
                s,
                cur as int,
                b as int,
                names,
                (n - j) as nat,
            ),
            component_starts(s, start as int, b as int, names, n as nat) == st + component_starts(
                s,
                cur as int,
                b as int,
                names,
                (n - j) as nat,
            ),
            st.len() == j,
            components@.len() == j,
            forall|i: int|
                0 <= i < j ==> component_at(s, a as int, b as int, names, st[i], #[trigger] components@[i]),
        decreases n - j,
    {
        let (name_index, q) = read_u16(buffer, cur, b)?;
        let (descriptor_index, q) = read_u16(buffer, q, b)?;
        let (attributes, q) = match decode_attributes(buffer, q, b, pool) {
            Ok(x) => x,
            Err(e) => {
                return Err(e);
            },
        };
        proof {
            assert(st + component_starts(s, cur as int, b as int, names, (n - j) as nat)
                =~= st.push(
                cur as int,
            ) + component_starts(s, q as int, b as int, names, (n - j - 1) as nat));
            st = st.push(cur as int);
        }
        let ghost old_components = components@;
        let c = RecordComponentInfo { name_index, descriptor_index, attributes };
        assert(component_at(s, a as int, b as int, names, cur as int, c));
        components.push(c);
        assert forall|i: int| 0 <= i < j + 1 implies component_at(
            s,
            a as int,
            b as int,
            names,
            st[i],
            #[trigger] components@[i],
        ) by {
            if i < j {
                assert(components@[i] == old_components[i]);
            }
        }
        cur = q;
        j = j + 1;
    }
    assert(st + component_starts(s, cur as int, b as int, names, 0) =~= st);
    Ok((RecordAttribute { components_count, components }, cur))
}

} // verus!
