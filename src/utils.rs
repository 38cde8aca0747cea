//! Primitive cursor: big-endian integers and raw byte spans.
use vstd::prelude::*;

verus! {

/// Why a decode failed.
#[derive(Debug, Clone, Copy, PartialEq, Eq, Structural)]
pub enum DecodeError {
    /// Fewer bytes remain than a field needs.
    Truncation,
    /// A constant-pool tag, stack-map frame type or verification-type tag that the format does
    /// not define.
    UnknownTag,
    /// A constant-pool index that is out of range or names an entry of the wrong kind.
    BadReference,
    /// The leading magic number is not the class-file magic.
    FormatMismatch,
}

/// The unsigned 16-bit big-endian integer at offset `p` of `s`.
pub open spec fn be16(s: Seq<u8>, p: int) -> u16 {
    (s[p] as int * 0x100 + s[p + 1] as int) as u16
}

/// The unsigned 32-bit big-endian integer at offset `p` of `s`.
pub open spec fn be32(s: Seq<u8>, p: int) -> u32 {
    (s[p] as int * 0x1000000 + s[p + 1] as int * 0x10000 + s[p + 2] as int * 0x100
        + s[p + 3] as int) as u32
}

/// The unsigned 64-bit big-endian integer at offset `p` of `s`.
pub open spec fn be64(s: Seq<u8>, p: int) -> u64 {
    (be32(s, p) as int * 0x1_0000_0000 + be32(s, p + 4) as int) as u64
}

/// Outcome of decoding `n` consecutive items, the first at `p`, where `f(q)` is the outcome of
/// decoding one item at `q`: the offset after the last item, or the first item's error.
pub open spec fn walk(f: spec_fn(int) -> Result<int, DecodeError>, p: int, n: nat) -> Result<
    int,
    DecodeError,
>
    decreases n,
{
    if n == 0 {
        Ok(p)
    } else {
        match f(p) {
            Ok(q) => walk(f, q, (n - 1) as nat),
            Err(e) => Err(e),
        }
    }
}

/// Start offsets of the items that [`walk`] visits, up to and including a failing one.
pub open spec fn walk_starts(f: spec_fn(int) -> Result<int, DecodeError>, p: int, n: nat) -> Seq<
    int,
>
    decreases n,
{
    if n == 0 {
        Seq::empty()
    } else {
        match f(p) {
            Ok(q) => seq![p] + walk_starts(f, q, (n - 1) as nat),
            Err(_) => seq![p],
        }
    }
}

/// Reads one byte at `pos`, which must lie before `end`.
pub fn read_u8(buffer: &[u8], pos: usize, end: usize) -> (r: Result<(u8, usize), DecodeError>)
    requires
        pos <= end <= buffer@.len(),
    ensures
        match r {
            Ok((v, q)) => pos + 1 <= end && v == buffer@[pos as int] && q == pos + 1,
            Err(e) => pos + 1 > end && e == DecodeError::Truncation,
        },
{
    if end - pos < 1 {
        return Err(DecodeError::Truncation);
    }
    Ok((buffer[pos], pos + 1))
}

/// Reads a big-endian `u16` at `pos`; the two bytes must lie before `end`.
pub fn read_u16(buffer: &[u8], pos: usize, end: usize) -> (r: Result<(u16, usize), DecodeError>)
    requires
        pos <= end <= buffer@.len(),
    ensures
        match r {
            Ok((v, q)) => pos + 2 <= end && v == be16(buffer@, pos as int) && q == pos + 2,
            Err(e) => pos + 2 > end && e == DecodeError::Truncation,
        },
{
    if end - pos < 2 {
        return Err(DecodeError::Truncation);
    }
    let hi = buffer[pos] as u16;
    let lo = buffer[pos + 1] as u16;
    Ok((hi * 0x100 + lo, pos + 2))
}

/// Reads a big-endian `u32` at `pos`; the four bytes must lie before `end`.
pub fn read_u32(buffer: &[u8], pos: usize, end: usize) -> (r: Result<(u32, usize), DecodeError>)
    requires
        pos <= end <= buffer@.len(),
    ensures
        match r {
            Ok((v, q)) => pos + 4 <= end && v == be32(buffer@, pos as int) && q == pos + 4,
            Err(e) => pos + 4 > end && e == DecodeError::Truncation,
        },
{
    if end - pos < 4 {
        return Err(DecodeError::Truncation);
    }
    let b0 = buffer[pos] as u32;
    let b1 = buffer[pos + 1] as u32;
    let b2 = buffer[pos + 2] as u32;
    let b3 = buffer[pos + 3] as u32;
    Ok((b0 * 0x1000000 + b1 * 0x10000 + b2 * 0x100 + b3, pos + 4))
}

/// Reads a big-endian two's-complement `i32` at `pos`.
pub fn read_i32(buffer: &[u8], pos: usize, end: usize) -> (r: Result<(i32, usize), DecodeError>)
    requires
        pos <= end <= buffer@.len(),
    ensures
        match r {
            Ok((v, q)) => pos + 4 <= end && v == be32(buffer@, pos as int) as i32 && q == pos + 4,
            Err(e) => pos + 4 > end && e == DecodeError::Truncation,
        },
{
    let (v, q) = read_u32(buffer, pos, end)?;
    Ok((v as i32, q))
}

/// Reads the bit pattern of a big-endian IEEE 754 single-precision value at `pos`.
pub fn read_f32(buffer: &[u8], pos: usize, end: usize) -> (r: Result<(u32, usize), DecodeError>)
    requires
        pos <= end <= buffer@.len(),
    ensures
        match r {
            Ok((v, q)) => pos + 4 <= end && v == be32(buffer@, pos as int) && q == pos + 4,
            Err(e) => pos + 4 > end && e == DecodeError::Truncation,
        },
{
    read_u32(buffer, pos, end)
}

/// Reads a big-endian `u64` at `pos`; the eight bytes must lie before `end`.
pub fn read_u64(buffer: &[u8], pos: usize, end: usize) -> (r: Result<(u64, usize), DecodeError>)
    requires
        pos <= end <= buffer@.len(),
    ensures
        match r {
            Ok((v, q)) => pos + 8 <= end && v == be64(buffer@, pos as int) && q == pos + 8,
            Err(e) => pos + 8 > end && e == DecodeError::Truncation,
        },
{
    if end - pos < 8 {
        return Err(DecodeError::Truncation);
    }
    let (hi, p) = read_u32(buffer, pos, end)?;
    let (lo, q) = read_u32(buffer, p, end)?;
    Ok(((hi as u64) * 0x1_0000_0000 + lo as u64, q))
}

/// Reads a big-endian two's-complement `i64` at `pos`.
pub fn read_i64(buffer: &[u8], pos: usize, end: usize) -> (r: Result<(i64, usize), DecodeError>)
    requires
        pos <= end <= buffer@.len(),
    ensures
        match r {
            Ok((v, q)) => pos + 8 <= end && v == be64(buffer@, pos as int) as i64 && q == pos + 8,
            Err(e) => pos + 8 > end && e == DecodeError::Truncation,
        },
{
    let (v, q) = read_u64(buffer, pos, end)?;
    Ok((v as i64, q))
}

/// Reads the bit pattern of a big-endian IEEE 754 double-precision value at `pos`.
pub fn read_f64(buffer: &[u8], pos: usize, end: usize) -> (r: Result<(u64, usize), DecodeError>)
    requires
        pos <= end <= buffer@.len(),
    ensures
        match r {
            Ok((v, q)) => pos + 8 <= end && v == be64(buffer@, pos as int) && q == pos + 8,
            Err(e) => pos + 8 > end && e == DecodeError::Truncation,
        },
{
    read_u64(buffer, pos, end)
}

/// Copies the `len` raw bytes at `pos` (text is kept as its encoded bytes, unvalidated).
pub fn read_str(buffer: &[u8], pos: usize, len: usize, end: usize) -> (r: Result<
    (Vec<u8>, usize),
    DecodeError,
>)
    requires
        pos <= end <= buffer@.len(),
    ensures
        match r {
            Ok((v, q)) => pos + len <= end && v@ == buffer@.subrange(pos as int, pos + len) && q
                == pos + len,
            Err(e) => pos + len > end && e == DecodeError::Truncation,
        },
{
    if end - pos < len {
        return Err(DecodeError::Truncation);
    }
    let mut out: Vec<u8> = Vec::with_capacity(len);
    let mut i: usize = 0;
    while i < len
        invariant
            pos + len <= end <= buffer@.len(),
            i <= len,
            out@ == buffer@.subrange(pos as int, pos + i),
        decreases len - i,
    {
        out.push(buffer[pos + i]);
        i = i + 1;
        assert(out@ =~= buffer@.subrange(pos as int, pos + i));
    }
    Ok((out, pos + len))
}

} // verus!
