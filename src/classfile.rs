//! The class structure: header, constant pool, class references, interfaces, fields, methods
//! and the class's own attribute table, and the access-flag tests on them.
use std::collections::HashMap;

use vstd::prelude::*;

use crate::attributes::{
    attributes_at,
    attributes_outcome,
    decode_attributes,
    decode_index_list,
    AttributeInfo,
};
use crate::constant_pool::{utf8_names, ConstantPoolInfo};
use crate::utils::{be16, read_u16, walk, walk_starts, DecodeError};

verus! {

/// The magic number that opens every class file.
pub const CLASS_FILE_MAGIC: u32 = 0xCAFEBABE;

/// Access flags for classes.
#[derive(Debug, Clone, Copy, PartialEq, Eq, Structural)]
pub enum ClassAccessFlag {
    Public,
    Final,
    Super,
    Interface,
    Abstract,
    Synthetic,
    Annotation,
    Enum,
    Module,
}

/// Access flags for fields.
#[derive(Debug, Clone, Copy, PartialEq, Eq, Structural)]
pub enum FieldAccessFlag {
    Public,
    Private,
    Protected,
    Static,
    Final,
    Volatile,
    Transient,
    Synthetic,
    Enum,
}

/// Access flags for methods.
#[derive(Debug, Clone, Copy, PartialEq, Eq, Structural)]
pub enum MethodAccessFlag {
    Public,
    Private,
    Protected,
    Static,
    Final,
    Synchronized,
    Bridge,
    Varargs,
    Native,
    Abstract,
    Strict,
    Synthetic,
}

/// A flag of an access-flag bitmask.
pub trait AccessFlag {
    /// The bit of this flag.
    spec fn spec_bit(&self) -> u16;

    /// The bit of this flag.
    fn bit(&self) -> (r: u16)
        ensures
            r == self.spec_bit(),
    ;

    /// Whether the bitmask `flags` has this flag set.
    fn test(&self, flags: u16) -> (r: bool)
        ensures
            r == (self.spec_bit() & flags != 0),
    ;
}

impl AccessFlag for ClassAccessFlag {
    open spec fn spec_bit(&self) -> u16 {
        match self {
            ClassAccessFlag::Public => 0x0001,
            ClassAccessFlag::Final => 0x0010,
            ClassAccessFlag::Super => 0x0020,
            ClassAccessFlag::Interface => 0x0200,
            ClassAccessFlag::Abstract => 0x0400,
            ClassAccessFlag::Synthetic => 0x1000,
            ClassAccessFlag::Annotation => 0x2000,
            ClassAccessFlag::Enum => 0x4000,
            ClassAccessFlag::Module => 0x8000,
        }
    }

    fn bit(&self) -> (r: u16) {
        match self {
            ClassAccessFlag::Public => 0x0001,
            ClassAccessFlag::Final => 0x0010,
            ClassAccessFlag::Super => 0x0020,
            ClassAccessFlag::Interface => 0x0200,
            ClassAccessFlag::Abstract => 0x0400,
            ClassAccessFlag::Synthetic => 0x1000,
            ClassAccessFlag::Annotation => 0x2000,
            ClassAccessFlag::Enum => 0x4000,
            ClassAccessFlag::Module => 0x8000,
        }
    }

    fn test(&self, flags: u16) -> (r: bool) {
        (self.bit() & flags) != 0
    }
}

impl AccessFlag for FieldAccessFlag {
    open spec fn spec_bit(&self) -> u16 {
        match self {
            FieldAccessFlag::Public => 0x0001,
            FieldAccessFlag::Private => 0x0002,
            FieldAccessFlag::Protected => 0x0004,
            FieldAccessFlag::Static => 0x0008,
            FieldAccessFlag::Final => 0x0010,
            FieldAccessFlag::Volatile => 0x0040,
            FieldAccessFlag::Transient => 0x0080,
            FieldAccessFlag::Synthetic => 0x1000,
            FieldAccessFlag::Enum => 0x4000,
        }
    }

    fn bit(&self) -> (r: u16) {
        match self {
            FieldAccessFlag::Public => 0x0001,
            FieldAccessFlag::Private => 0x0002,
            FieldAccessFlag::Protected => 0x0004,
            FieldAccessFlag::Static => 0x0008,
            FieldAccessFlag::Final => 0x0010,
            FieldAccessFlag::Volatile => 0x0040,
            FieldAccessFlag::Transient => 0x0080,
            FieldAccessFlag::Synthetic => 0x1000,
            FieldAccessFlag::Enum => 0x4000,
        }
    }

    fn test(&self, flags: u16) -> (r: bool) {
        (self.bit() & flags) != 0
    }
}

impl AccessFlag for MethodAccessFlag {
    open spec fn spec_bit(&self) -> u16 {
        match self {
            MethodAccessFlag::Public => 0x0001,
            MethodAccessFlag::Private => 0x0002,
            MethodAccessFlag::Protected => 0x0004,
            MethodAccessFlag::Static => 0x0008,
            MethodAccessFlag::Final => 0x0010,
            MethodAccessFlag::Synchronized => 0x0020,
            MethodAccessFlag::Bridge => 0x0040,
            MethodAccessFlag::Varargs => 0x0080,
            MethodAccessFlag::Native => 0x0100,
            MethodAccessFlag::Abstract => 0x0400,
            MethodAccessFlag::Strict => 0x0800,
            MethodAccessFlag::Synthetic => 0x1000,
        }
    }

    fn bit(&self) -> (r: u16) {
        match self {
            MethodAccessFlag::Public => 0x0001,
            MethodAccessFlag::Private => 0x0002,
            MethodAccessFlag::Protected => 0x0004,
            MethodAccessFlag::Static => 0x0008,
            MethodAccessFlag::Final => 0x0010,
            MethodAccessFlag::Synchronized => 0x0020,
            MethodAccessFlag::Bridge => 0x0040,
            MethodAccessFlag::Varargs => 0x0080,
            MethodAccessFlag::Native => 0x0100,
            MethodAccessFlag::Abstract => 0x0400,
            MethodAccessFlag::Strict => 0x0800,
            MethodAccessFlag::Synthetic => 0x1000,
        }
    }

    fn test(&self, flags: u16) -> (r: bool) {
        (self.bit() & flags) != 0
    }
}

/// A type descriptor.
#[derive(Debug, Clone)]
pub struct Descriptor {
    pub is_primitive: bool,
    pub is_array: bool,
    pub name: String,
}

#[derive(Debug)]
pub struct FieldInfo {
    pub access_flags: u16,
    pub name_index: usize,
    pub descriptor_index: usize,
    pub attributes: HashMap<u16, AttributeInfo>,
}

#[derive(Debug)]
pub struct MethodInfo {
    pub access_flags: u16,
    pub name_index: usize,
    pub descriptor_index: usize,
    pub attributes: HashMap<u16, AttributeInfo>,
}

/// A decoded class file.
#[derive(Debug)]
pub struct JavaClassFile {
    pub magic: u32,
    pub minor_version: u16,
    pub major_version: u16,
    pub constant_pool: Vec<ConstantPoolInfo>,
    pub access_flags: u16,
    pub this_class: usize,
    pub super_class: usize,
    pub interfaces: Vec<usize>,
    pub fields: Vec<FieldInfo>,
    pub methods: Vec<MethodInfo>,
    pub attributes: HashMap<u16, AttributeInfo>,
}

impl JavaClassFile {
    /// A class file with the magic number and nothing else: no constants, interfaces, members
    /// or attributes.
    pub fn empty() -> (r: JavaClassFile)
        ensures
            r.magic == CLASS_FILE_MAGIC,
            r.minor_version == 0,
            r.major_version == 0,
            r.constant_pool@.len() == 0,
            r.access_flags == 0,
            r.this_class == 0,
            r.super_class == 0,
            r.interfaces@.len() == 0,
            r.fields@.len() == 0,
            r.methods@.len() == 0,
            r.attributes@ == Map::<u16, AttributeInfo>::empty(),
    {
        JavaClassFile {
            magic: CLASS_FILE_MAGIC,
            minor_version: 0,
            major_version: 0,
            constant_pool: Vec::new(),
            access_flags: 0,
            this_class: 0,
            super_class: 0,
            interfaces: Vec::new(),
            fields: Vec::new(),
            methods: Vec::new(),
            attributes: HashMap::new(),
        }
    }
}

/// Decodes a `this_class` or `super_class` reference at `pos`: a 2-byte constant-pool index.
pub fn decode_this_or_super_class(buffer: &[u8], pos: usize, end: usize) -> (r: Result<
    (usize, usize),
    DecodeError,
>)
    requires
        pos <= end <= buffer@.len(),
    ensures
        match r {
            Ok((v, q)) => q == pos + 2 <= end && v == be16(buffer@, pos as int) as usize,
            Err(e) => pos + 2 > end && e == DecodeError::Truncation,
        },
{
    let (class_index, q) = read_u16(buffer, pos, end)?;
    Ok((class_index as usize, q))
}

/// Decodes the interface list whose count field is at `pos`: a count, then that many 2-byte
/// constant-pool indices.
pub fn decode_interfaces(buffer: &[u8], pos: usize, end: usize) -> (r: Result<
    (Vec<usize>, usize),
    DecodeError,
>)
    requires
        pos <= end <= buffer@.len(),
    ensures
        match r {
            Ok((v, q)) => pos + 2 <= end && q == pos + 2 + 2 * be16(buffer@, pos as int) <= end
                && v@ == Seq::new(
                be16(buffer@, pos as int) as nat,
                |j: int| be16(buffer@, pos + 2 + 2 * j) as usize,
            ),
            Err(e) => (pos + 2 > end || pos + 2 + 2 * be16(buffer@, pos as int) > end) && e
                == DecodeError::Truncation,
        },
{
    let (count, q) = read_u16(buffer, pos, end)?;
    decode_index_list(buffer, q, count as usize, end)
}

/// Outcome of decoding one field or method record at `p`.
pub open spec fn member_outcome(s: Seq<u8>, p: int, e: int, names: Seq<Option<Seq<u8>>>) -> Result<
    int,
    DecodeError,
> {
    if p + 6 > e {
        Err(DecodeError::Truncation)
    } else {
        attributes_outcome(s, p + 6, e, names)
    }
}

/// [`member_outcome`] as a function of the start offset.
pub open spec fn member_step(
    s: Seq<u8>,
    e: int,
    names: Seq<Option<Seq<u8>>>) -> spec_fn(int,
) -> Result<
    int,
    DecodeError,
> {
    |q: int| member_outcome(s, q, e, names)
}

/// Outcome of decoding a field or method table whose count field is at `p`.
pub open spec fn members_outcome(s: Seq<u8>, p: int, e: int, names: Seq<Option<Seq<u8>>>) -> Result<
    int,
    DecodeError,
> {
    if p + 2 > e {
        Err(DecodeError::Truncation)
    } else {
        walk(member_step(s, e, names), p + 2, be16(s, p) as nat)
    }
}

/// Whether `v` is the field record at `p`: access flags, name index, descriptor index, then an
/// attribute table.
pub open spec fn field_at(
    s: Seq<u8>,
    p: int,
    e: int,
    names: Seq<Option<Seq<u8>>>,
    v: FieldInfo,
) -> bool {
    &&& v.access_flags == be16(s, p)
    &&& v.name_index == be16(s, p + 2) as usize
    &&& v.descriptor_index == be16(s, p + 4) as usize
    &&& attributes_at(s, p + 6, e, names, v.attributes@)
}

/// Decodes one field record at `pos`.
fn decode_field(buffer: &[u8], pos: usize, end: usize, pool: &[ConstantPoolInfo]) -> (r: Result<
    (FieldInfo, usize),
    DecodeError,
>)
    requires
        pos <= end <= buffer@.len(),
    ensures
        match r {
            Ok((v, q)) => member_step(buffer@, end as int, utf8_names(pool@))(pos as int) == Ok::<
                int,
                DecodeError,
            >(q as int) && field_at(buffer@, pos as int, end as int, utf8_names(pool@), v)
                && pos <= q
                <= end,
            Err(e) => member_step(buffer@, end as int, utf8_names(pool@))(pos as int) == Err::<
                int,
                DecodeError,
            >(e),
        },
{
    let (access_flags, q) = read_u16(buffer, pos, end)?;
    let (name_index, q) = read_u16(buffer, q, end)?;
    let (descriptor_index, q) = read_u16(buffer, q, end)?;
    let (attributes, q) = match decode_attributes(buffer, q, end, pool) {
        Ok(x) => x,
        Err(e) => {
            return Err(e);
        },
    };
    Ok((
        FieldInfo {
            access_flags,
            name_index: name_index as usize,
            descriptor_index: descriptor_index as usize,
            attributes,
        },
        q,
    ))
}

/// Decodes `n` consecutive field records, the first at `pos`.
fn decode_field_list(
    buffer: &[u8],
    pos: usize,
    n: usize,
    end: usize,
    pool: &[ConstantPoolInfo],
) -> (r: Result<
    (Vec<FieldInfo>, usize),
    DecodeError,
>)
    requires
        pos <= end <= buffer@.len(),
    ensures
        match r {
            Ok((v, q)) => {
                &&& walk(member_step(buffer@, end as int, utf8_names(pool@)), pos as int, n as nat)
                    == Ok::<int, DecodeError>(q as int)
                &&& v@.len() == n
                &&& pos <= q <= end
                &&& forall|j: int| 0 <= j < n ==>
                    field_at(
                        buffer@,
                        walk_starts(member_step(buffer@, end as int, utf8_names(pool@)), pos as int, n as nat)[j],
                        end as int,
                        utf8_names(pool@),
                        #[trigger] v@[j],
                    )
            },
            Err(e) => walk(
                member_step(buffer@, end as int, utf8_names(pool@)),
                pos as int,
                n as nat,
            )
                == Err::<int, DecodeError>(e),
        },
{
    let ghost s = buffer@;
    let ghost f = member_step(buffer@, end as int, utf8_names(pool@));
    let mut v: Vec<FieldInfo> = Vec::with_capacity(n);
    let mut cur: usize = pos;
    let mut j: usize = 0;
    let ghost mut st: Seq<int> = Seq::empty();
    while j < n
        invariant
            s == buffer@,
            f == member_step(s, end as int, utf8_names(pool@)),
            pos <= cur <= end <= buffer@.len(),
            j <= n,
            walk(f, pos as int, n as nat) == walk(f, cur as int, (n - j) as nat),
            walk_starts(f, pos as int, n as nat) == st + walk_starts(f, cur as int, (n - j) as nat),
            st.len() == j,
            v@.len() == j,
            forall|i: int| 0 <= i < j ==>
                field_at(s, st[i], end as int, utf8_names(pool@), #[trigger] v@[i]),
        decreases n - j,
    {
        let (x, q) = match decode_field(buffer, cur, end, pool) {
            Ok(x) => x,
            Err(e) => {
                return Err(e);
            },
        };
        proof {
            assert(st + walk_starts(f, cur as int, (n - j) as nat) =~= st.push(cur as int)
                + walk_starts(f, q as int, (n - j - 1) as nat));
            st = st.push(cur as int);
        }
        v.push(x);
        j = j + 1;
        cur = q;
    }
    assert(st + walk_starts(f, cur as int, 0) =~= st);
    Ok((v, cur))
}

/// Decodes the field table whose count field is at `pos`: a count, then that many field records.
#[verifier::spinoff_prover]
#[verifier::rlimit(100)]
pub fn decode_fields(
    buffer: &[u8],
    pos: usize,
    end: usize,
    pool: &[ConstantPoolInfo],
) -> (r: Result<
    (Vec<FieldInfo>, usize),
    DecodeError,
>)
    requires
        pos <= end <= buffer@.len(),
    ensures
        match r {
            Ok((v, q)) => {
                &&& members_outcome(buffer@, pos as int, end as int, utf8_names(pool@)) == Ok::<
                    int,
                    DecodeError,
                >(q as int)
                &&& fields_at(buffer@, pos as int, end as int, utf8_names(pool@), v@)
                &&& pos <= q <= end
            },
            Err(e) => members_outcome(buffer@, pos as int, end as int, utf8_names(pool@)) == Err::<
                int,
                DecodeError,
            >(e),
        },
{
    let (count, q) = read_u16(buffer, pos, end)?;
    decode_field_list(buffer, q, count as usize, end, pool)
}

/// Whether `v` is the field table whose count field is at `p`.
pub open spec fn fields_at(
    s: Seq<u8>,
    p: int,
    e: int,
    names: Seq<Option<Seq<u8>>>,
    v: Seq<FieldInfo>,
) -> bool {
    let n = be16(s, p) as nat;
    &&& v.len() == n
    &&& forall|j: int|
        0 <= j < n ==>
            field_at(
                s,
                walk_starts(member_step(s, e, names), p + 2, n)[j],
                e,
                names,
                #[trigger] v[j],
            )
}

/// Whether `v` is the method record at `p`: access flags, name index, descriptor index, then an
/// attribute table.
pub open spec fn method_at(
    s: Seq<u8>,
    p: int,
    e: int,
    names: Seq<Option<Seq<u8>>>,
    v: MethodInfo,
) -> bool {
    &&& v.access_flags == be16(s, p)
    &&& v.name_index == be16(s, p + 2) as usize
    &&& v.descriptor_index == be16(s, p + 4) as usize
    &&& attributes_at(s, p + 6, e, names, v.attributes@)
}

/// Decodes one method record at `pos`.
fn decode_method(buffer: &[u8], pos: usize, end: usize, pool: &[ConstantPoolInfo]) -> (r: Result<
    (MethodInfo, usize),
    DecodeError,
>)
    requires
        pos <= end <= buffer@.len(),
    ensures
        match r {
            Ok((v, q)) => member_step(buffer@, end as int, utf8_names(pool@))(pos as int) == Ok::<
                int,
                DecodeError,
            >(q as int) && method_at(buffer@, pos as int, end as int, utf8_names(pool@), v)
                && pos <= q
                <= end,
            Err(e) => member_step(buffer@, end as int, utf8_names(pool@))(pos as int) == Err::<
                int,
                DecodeError,
            >(e),
        },
{
    let (access_flags, q) = read_u16(buffer, pos, end)?;
    let (name_index, q) = read_u16(buffer, q, end)?;
    let (descriptor_index, q) = read_u16(buffer, q, end)?;
    let (attributes, q) = match decode_attributes(buffer, q, end, pool) {
        Ok(x) => x,
        Err(e) => {
            return Err(e);
        },
    };
    Ok((
        MethodInfo {
            access_flags,
            name_index: name_index as usize,
            descriptor_index: descriptor_index as usize,
            attributes,
        },
        q,
    ))
}

/// Decodes `n` consecutive method records, the first at `pos`.
fn decode_method_list(
    buffer: &[u8],
    pos: usize,
    n: usize,
    end: usize,
    pool: &[ConstantPoolInfo],
) -> (r: Result<
    (Vec<MethodInfo>, usize),
    DecodeError,
>)
    requires
        pos <= end <= buffer@.len(),
    ensures
        match r {
            Ok((v, q)) => {
                &&& walk(member_step(buffer@, end as int, utf8_names(pool@)), pos as int, n as nat)
                    == Ok::<int, DecodeError>(q as int)
                &&& v@.len() == n
                &&& pos <= q <= end
                &&& forall|j: int| 0 <= j < n ==>
                    method_at(
                        buffer@,
                        walk_starts(member_step(buffer@, end as int, utf8_names(pool@)), pos as int, n as nat)[j],
                        end as int,
                        utf8_names(pool@),
                        #[trigger] v@[j],
                    )
            },
            Err(e) => walk(
                member_step(buffer@, end as int, utf8_names(pool@)),
                pos as int,
                n as nat,
            )
                == Err::<int, DecodeError>(e),
        },
{
    let ghost s = buffer@;
    let ghost f = member_step(buffer@, end as int, utf8_names(pool@));
    let mut v: Vec<MethodInfo> = Vec::with_capacity(n);
    let mut cur: usize = pos;
    let mut j: usize = 0;
    let ghost mut st: Seq<int> = Seq::empty();
    while j < n
        invariant
            s == buffer@,
            f == member_step(s, end as int, utf8_names(pool@)),
            pos <= cur <= end <= buffer@.len(),
            j <= n,
            walk(f, pos as int, n as nat) == walk(f, cur as int, (n - j) as nat),
            walk_starts(f, pos as int, n as nat) == st + walk_starts(f, cur as int, (n - j) as nat),
            st.len() == j,
            v@.len() == j,
            forall|i: int| 0 <= i < j ==>
                method_at(s, st[i], end as int, utf8_names(pool@), #[trigger] v@[i]),
        decreases n - j,
    {
        let (x, q) = match decode_method(buffer, cur, end, pool) {
            Ok(x) => x,
            Err(e) => {
                return Err(e);
            },
        };
        proof {
            assert(st + walk_starts(f, cur as int, (n - j) as nat) =~= st.push(cur as int)
                + walk_starts(f, q as int, (n - j - 1) as nat));
            st = st.push(cur as int);
        }
        v.push(x);
        j = j + 1;
        cur = q;
    }
    assert(st + walk_starts(f, cur as int, 0) =~= st);
    Ok((v, cur))
}

/// Decodes the method table whose count field is at `pos`: a count, then that many method records.
#[verifier::spinoff_prover]
#[verifier::rlimit(100)]
pub fn decode_methods(
    buffer: &[u8],
    pos: usize,
    end: usize,
    pool: &[ConstantPoolInfo],
) -> (r: Result<
    (Vec<MethodInfo>, usize),
    DecodeError,
>)
    requires
        pos <= end <= buffer@.len(),
    ensures
        match r {
            Ok((v, q)) => {
                &&& members_outcome(buffer@, pos as int, end as int, utf8_names(pool@)) == Ok::<
                    int,
                    DecodeError,
                >(q as int)
                &&& methods_at(buffer@, pos as int, end as int, utf8_names(pool@), v@)
                &&& pos <= q <= end
            },
            Err(e) => members_outcome(buffer@, pos as int, end as int, utf8_names(pool@)) == Err::<
                int,
                DecodeError,
            >(e),
        },
{
    let (count, q) = read_u16(buffer, pos, end)?;
    decode_method_list(buffer, q, count as usize, end, pool)
}

/// Whether `v` is the method table whose count field is at `p`.
pub open spec fn methods_at(
    s: Seq<u8>,
    p: int,
    e: int,
    names: Seq<Option<Seq<u8>>>,
    v: Seq<MethodInfo>,
) -> bool {
    let n = be16(s, p) as nat;
    &&& v.len() == n
    &&& forall|j: int|
        0 <= j < n ==>
            method_at(
                s,
                walk_starts(member_step(s, e, names), p + 2, n)[j],
                e,
                names,
                #[trigger] v[j],
            )
}

} // verus!
