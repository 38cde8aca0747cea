//! Decoder for the binary class-file container format.
//!
//! Every decoder reads from one immutable input buffer between a start offset and an end
//! offset, and its contract states the outcome by spec functions over the buffer's bytes: the
//! offset where the decoded structure ends, or the first error, and how the decoded value is
//! read from the bytes.
use vstd::prelude::*;

pub mod attributes;
pub mod classfile;
pub mod constant_pool;
pub mod prefix;
pub mod utils;

use crate::attributes::{attributes_at, attributes_outcome, decode_attributes};
use crate::classfile::{
    decode_fields, decode_interfaces, decode_methods, decode_this_or_super_class, fields_at,
    members_outcome, methods_at, JavaClassFile, CLASS_FILE_MAGIC,
};
use crate::constant_pool::{
    decode_constant_pool, lemma_pool_names, pool_at, pool_names, pool_outcome,
};
use crate::prefix::{
    agree_below, cut, lemma_attributes_cut, lemma_members_cut, lemma_pool_cut,
    lemma_pool_names_cut,
};
use crate::utils::{be16, be32, read_u16, read_u32, DecodeError};

verus! {

/// Offset after the constant pool of the class file `s`.
pub open spec fn class_pool_end(s: Seq<u8>) -> int {
    match pool_outcome(s, 8, s.len() as int) {
        Ok(c) => c,
        Err(_) => 0,
    }
}

/// The `Utf8` texts of the constant pool of the class file `s`, by index.
pub open spec fn class_names(s: Seq<u8>) -> Seq<Option<Seq<u8>>> {
    pool_names(s, 8, s.len() as int)
}

/// Offset of the field table of the class file `s`.
pub open spec fn class_fields_pos(s: Seq<u8>) -> int {
    class_pool_end(s) + 8 + 2 * be16(s, class_pool_end(s) + 6)
}

/// Offset of the method table of the class file `s`.
pub open spec fn class_methods_pos(s: Seq<u8>) -> int {
    match members_outcome(s, class_fields_pos(s), s.len() as int, class_names(s)) {
        Ok(m) => m,
        Err(_) => 0,
    }
}

/// Offset of the top-level attribute table of the class file `s`.
pub open spec fn class_attributes_pos(s: Seq<u8>) -> int {
    match members_outcome(s, class_methods_pos(s), s.len() as int, class_names(s)) {
        Ok(a) => a,
        Err(_) => 0,
    }
}

/// Outcome of decoding the class file `s`: the offset where its structure ends, or the first
/// error. The parts come in this order: magic number, minor and major version, constant pool,
/// access flags, this class, super class, interfaces, fields, methods, attributes.
pub open spec fn class_outcome(s: Seq<u8>) -> Result<int, DecodeError> {
    let e = s.len() as int;
    if 4 > e {
        Err(DecodeError::Truncation)
    } else if be32(s, 0) != CLASS_FILE_MAGIC {
        Err(DecodeError::FormatMismatch)
    } else if 8 > e {
        Err(DecodeError::Truncation)
    } else {
        match pool_outcome(s, 8, e) {
            Err(err) => Err(err),
            Ok(c) => if c + 8 > e || class_fields_pos(s) > e {
                Err(DecodeError::Truncation)
            } else {
                match members_outcome(s, class_fields_pos(s), e, class_names(s)) {
                    Err(err) => Err(err),
                    Ok(m) => match members_outcome(s, m, e, class_names(s)) {
                        Err(err) => Err(err),
                        Ok(a) => attributes_outcome(s, a, e, class_names(s)),
                    },
                }
            },
        }
    }
}

/// Whether `cf` is the class decoded from the bytes `s`.
pub open spec fn class_at(s: Seq<u8>, cf: JavaClassFile) -> bool {
    let e = s.len() as int;
    let c = class_pool_end(s);
    &&& cf.magic == be32(s, 0)
    &&& cf.minor_version == be16(s, 4)
    &&& cf.major_version == be16(s, 6)
    &&& pool_at(s, 8, e, cf.constant_pool@)
    &&& cf.access_flags == be16(s, c)
    &&& cf.this_class == be16(s, c + 2) as usize
    &&& cf.super_class == be16(s, c + 4) as usize
    &&& cf.interfaces@ == Seq::new(be16(s, c + 6) as nat, |j: int| be16(s, c + 8 + 2 * j) as usize)
    &&& fields_at(s, class_fields_pos(s), e, class_names(s), cf.fields@)
    &&& methods_at(s, class_methods_pos(s), e, class_names(s), cf.methods@)
    &&& attributes_at(s, class_attributes_pos(s), e, class_names(s), cf.attributes@)
}

/// Decodes a class file from the start of `bytes`, and returns it with the offset where its
/// structure ends; bytes after that offset are not read.
#[verifier::spinoff_prover]
#[verifier::rlimit(100)]
pub fn decode_prefix(bytes: &[u8]) -> (r: Result<(JavaClassFile, usize), DecodeError>)
    ensures
        match r {
            Ok((cf, q)) => class_outcome(bytes@) == Ok::<int, DecodeError>(q as int) && class_at(
                bytes@,
                cf,
            ),
            Err(e) => class_outcome(bytes@) == Err::<int, DecodeError>(e),
        },
{
    let ghost s = bytes@;
    let end = bytes.len();
    let (magic, q) = read_u32(bytes, 0, end)?;
    if magic != CLASS_FILE_MAGIC {
        return Err(DecodeError::FormatMismatch);
    }
    let (minor_version, q) = read_u16(bytes, q, end)?;
    let (major_version, q) = read_u16(bytes, q, end)?;
    let (constant_pool, q) = match decode_constant_pool(bytes, q, end) {
        Ok(x) => x,
        Err(e) => {
            return Err(e);
        },
    };
    proof {
        lemma_pool_names(s, 8, end as int, constant_pool@);
    }
    let ghost c = q as int;
    assert(class_pool_end(s) == c);
    let (access_flags, q) = read_u16(bytes, q, end)?;
    let (this_class, q) = decode_this_or_super_class(bytes, q, end)?;
    let (super_class, q) = decode_this_or_super_class(bytes, q, end)?;
    let (interfaces, q) = decode_interfaces(bytes, q, end)?;
    assert(class_fields_pos(s) == q as int);
    let (fields, q) = match decode_fields(bytes, q, end, constant_pool.as_slice()) {
        Ok(x) => x,
        Err(e) => {
            return Err(e);
        },
    };
    assert(class_methods_pos(s) == q as int);
    let (methods, q) = match decode_methods(bytes, q, end, constant_pool.as_slice()) {
        Ok(x) => x,
        Err(e) => {
            return Err(e);
        },
    };
    assert(class_attributes_pos(s) == q as int);
    let (attributes, q) = match decode_attributes(bytes, q, end, constant_pool.as_slice()) {
        Ok(x) => x,
        Err(e) => {
            return Err(e);
        },
    };
    Ok((
        JavaClassFile {
            magic,
            minor_version,
            major_version,
            constant_pool,
            access_flags,
            this_class,
            super_class,
            interfaces,
            fields,
            methods,
            attributes,
        },
        q,
    ))
}

/// Decodes a class file from `bytes`.
pub fn decode(bytes: &[u8]) -> (r: Result<JavaClassFile, DecodeError>)
    ensures
        match r {
            Ok(cf) => class_outcome(bytes@) is Ok && class_at(bytes@, cf),
            Err(e) => class_outcome(bytes@) == Err::<int, DecodeError>(e),
        },
{
    match decode_prefix(bytes) {
        Ok((cf, _)) => Ok(cf),
        Err(e) => Err(e),
    }
}

/// Decoding the input cut at `t` gives the same outcome when the class structure ends by `t`,
/// and a truncation otherwise.
pub proof fn lemma_class_cut(s: Seq<u8>, t: int)
    requires
        class_outcome(s) is Ok,
        0 <= t <= s.len(),
    ensures
        0 <= class_outcome(s)->Ok_0 <= s.len(),
        class_outcome(s.subrange(0, t)) == cut(class_outcome(s), t),
{
    reveal(attributes_outcome);
    let e = s.len() as int;
    let s2 = s.subrange(0, t);
    assert(agree_below(s, s2, t));
    lemma_pool_cut(s, s, 8, e, e);
    let c = class_pool_end(s);
    let f = class_fields_pos(s);
    let names = class_names(s);
    lemma_members_cut(s, s, f, e, e, names);
    let m = class_methods_pos(s);
    lemma_members_cut(s, s, m, e, e, names);
    let a = class_attributes_pos(s);
    lemma_attributes_cut(s, s, a, e, e, names);
    if t >= 8 {
        assert(be32(s2, 0) == be32(s, 0));
        lemma_pool_cut(s, s2, 8, e, t);
        if c <= t {
            lemma_pool_names_cut(s, s2, 8, e, t);
            if c + 8 <= t {
                assert(be16(s2, c + 6) == be16(s, c + 6));
                assert(class_pool_end(s2) == c);
                assert(class_names(s2) == names);
                if f <= t {
                    assert(class_fields_pos(s2) == f);
                    lemma_members_cut(s, s2, f, e, t, names);
                    if m <= t {
                        assert(class_methods_pos(s2) == m);
                        lemma_members_cut(s, s2, m, e, t, names);
                        if a <= t {
                            lemma_attributes_cut(s, s2, a, e, t, names);
                        }
                    }
                }
            }
        }
    } else if t >= 4 {
        assert(be32(s2, 0) == be32(s, 0));
    }
}

/// A successful decode ends where the class structure ends: decoding exactly the bytes up to
/// that offset succeeds and ends at the input's length, so an input with nothing after its last
/// top-level attribute is consumed to its end.
pub proof fn lemma_decode_consumes_structure(s: Seq<u8>)
    requires
        class_outcome(s) is Ok,
    ensures
        class_outcome(s)->Ok_0 <= s.len(),
        class_outcome(s.subrange(0, class_outcome(s)->Ok_0)) == Ok::<int, DecodeError>(
            class_outcome(s)->Ok_0,
        ),
{
    lemma_class_cut(s, s.len() as int);
    lemma_class_cut(s, class_outcome(s)->Ok_0);
}

/// Every input cut short of the end of a class structure fails with a truncation: it is never
/// decoded, and no other error is reported.
pub proof fn lemma_truncation_fails(s: Seq<u8>, t: int)
    requires
        class_outcome(s) is Ok,
        0 <= t < class_outcome(s)->Ok_0,
    ensures
        class_outcome(s.subrange(0, t)) == Err::<int, DecodeError>(DecodeError::Truncation),
{
    lemma_class_cut(s, s.len() as int);
    lemma_class_cut(s, t);
}

/// Decodes four zero bytes, which are no class file.
pub fn hoge() -> (r: Result<JavaClassFile, DecodeError>)
    ensures
        r matches Err(e) && e == DecodeError::FormatMismatch,
{
    let bytes: Vec<u8> = vec![0u8, 0u8, 0u8, 0u8];
    decode(bytes.as_slice())
}

} // verus!
