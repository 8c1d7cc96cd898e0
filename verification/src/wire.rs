//! Byte-buffer primitives shared by every codec in the crate.
//!
//! Writers append to a `Vec<u8>` and their contracts state the exact bytes
//! appended, through the `*_bytes` spec functions.  Readers walk a byte
//! slice with an explicit cursor and their contracts mirror the
//! `spec_read_*` functions, so that a codec proof can work entirely at the
//! level of byte sequences.

use vstd::prelude::*;
use vstd::string::StringSliceAdditionalSpecFns;

verus! {

/// Little-endian bytes of a 16-bit value.
pub open spec fn u16_le_bytes(v: u16) -> Seq<u8> {
    seq![(v & 0xff) as u8, ((v >> 8) & 0xff) as u8]
}

/// Little-endian bytes of a 24-bit value (stored in a `u32`).
pub open spec fn u24_le_bytes(v: u32) -> Seq<u8> {
    seq![(v & 0xff) as u8, ((v >> 8) & 0xff) as u8, ((v >> 16) & 0xff) as u8]
}

/// Little-endian bytes of a 32-bit value.
pub open spec fn u32_le_bytes(v: u32) -> Seq<u8> {
    seq![
        (v & 0xff) as u8,
        ((v >> 8) & 0xff) as u8,
        ((v >> 16) & 0xff) as u8,
        ((v >> 24) & 0xff) as u8,
    ]
}

/// Little-endian bytes of a 64-bit value.
pub open spec fn u64_le_bytes(v: u64) -> Seq<u8> {
    seq![
        (v & 0xff) as u8,
        ((v >> 8) & 0xff) as u8,
        ((v >> 16) & 0xff) as u8,
        ((v >> 24) & 0xff) as u8,
        ((v >> 32) & 0xff) as u8,
        ((v >> 40) & 0xff) as u8,
        ((v >> 48) & 0xff) as u8,
        ((v >> 56) & 0xff) as u8,
    ]
}

/// Appends one byte.
pub fn put_u8(buf: &mut Vec<u8>, v: u8)
    ensures
        final(buf)@ == old(buf)@.push(v),
{
    buf.push(v);
}

/// Appends a boolean as a single byte, 1 for true and 0 for false.
pub fn put_bool(buf: &mut Vec<u8>, v: bool)
    ensures
        final(buf)@ == old(buf)@.push(if v { 1u8 } else { 0u8 }),
{
    if v {
        buf.push(1);
    } else {
        buf.push(0);
    }
}

/// Appends a 16-bit value in little-endian order.
pub fn put_u16_le(buf: &mut Vec<u8>, v: u16)
    ensures
        final(buf)@ == old(buf)@ + u16_le_bytes(v),
{
    buf.push((v & 0xff) as u8);
    buf.push(((v >> 8) & 0xff) as u8);
    assert(buf@ =~= old(buf)@ + u16_le_bytes(v));
}

/// Appends a 24-bit value in little-endian order.
pub fn put_u24_le(buf: &mut Vec<u8>, v: u32)
    requires
        v < 0x1000000,
    ensures
        final(buf)@ == old(buf)@ + u24_le_bytes(v),
{
    buf.push((v & 0xff) as u8);
    buf.push(((v >> 8) & 0xff) as u8);
    buf.push(((v >> 16) & 0xff) as u8);
    assert(buf@ =~= old(buf)@ + u24_le_bytes(v));
}

/// Appends a 32-bit value in little-endian order.
pub fn put_u32_le(buf: &mut Vec<u8>, v: u32)
    ensures
        final(buf)@ == old(buf)@ + u32_le_bytes(v),
{
    buf.push((v & 0xff) as u8);
    buf.push(((v >> 8) & 0xff) as u8);
    buf.push(((v >> 16) & 0xff) as u8);
    buf.push(((v >> 24) & 0xff) as u8);
    assert(buf@ =~= old(buf)@ + u32_le_bytes(v));
}

/// Appends a 64-bit value in little-endian order.
pub fn put_u64_le(buf: &mut Vec<u8>, v: u64)
    ensures
        final(buf)@ == old(buf)@ + u64_le_bytes(v),
{
    buf.push((v & 0xff) as u8);
    buf.push(((v >> 8) & 0xff) as u8);
    buf.push(((v >> 16) & 0xff) as u8);
    buf.push(((v >> 24) & 0xff) as u8);
    buf.push(((v >> 32) & 0xff) as u8);
    buf.push(((v >> 40) & 0xff) as u8);
    buf.push(((v >> 48) & 0xff) as u8);
    buf.push(((v >> 56) & 0xff) as u8);
    assert(buf@ =~= old(buf)@ + u64_le_bytes(v));
}

/// Appends every byte of a slice.
pub fn put_bytes(buf: &mut Vec<u8>, data: &[u8])
    ensures
        final(buf)@ == old(buf)@ + data@,
{
    let mut i: usize = 0;
    while i < data.len()
        invariant
            i <= data@.len(),
            buf@ == old(buf)@ + data@.subrange(0, i as int),
        decreases data@.len() - i,
    {
        buf.push(data[i]);
        i = i + 1;
        assert(buf@ =~= old(buf)@ + data@.subrange(0, i as int));
    }
    assert(buf@ =~= old(buf)@ + data@);
}

/// Reads one byte at `i`, if in bounds.
pub open spec fn spec_read_u8(d: Seq<u8>, i: int) -> Option<(u8, int)> {
    if 0 <= i && i + 1 <= d.len() {
        Some((d[i], i + 1))
    } else {
        None
    }
}

/// Reads a little-endian 16-bit value at `i`, if in bounds.
pub open spec fn spec_read_u16_le(d: Seq<u8>, i: int) -> Option<(u16, int)> {
    if 0 <= i && i + 2 <= d.len() {
        Some(((d[i] as u16 + d[i + 1] as u16 * 0x100) as u16, i + 2))
    } else {
        None
    }
}

/// Reads a little-endian 24-bit value at `i`, if in bounds.
pub open spec fn spec_read_u24_le(d: Seq<u8>, i: int) -> Option<(u32, int)> {
    if 0 <= i && i + 3 <= d.len() {
        Some(((d[i] as u32 + d[i + 1] as u32 * 0x100 + d[i + 2] as u32 * 0x10000) as u32, i + 3))
    } else {
        None
    }
}

/// Reads a little-endian 32-bit value at `i`, if in bounds.
pub open spec fn spec_read_u32_le(d: Seq<u8>, i: int) -> Option<(u32, int)> {
    if 0 <= i && i + 4 <= d.len() {
        Some((
            (d[i] as u32 + d[i + 1] as u32 * 0x100 + d[i + 2] as u32 * 0x10000 + d[i + 3] as u32
                * 0x1000000) as u32,
            i + 4,
        ))
    } else {
        None
    }
}

/// Reads a little-endian 64-bit value at `i`, if in bounds.
pub open spec fn spec_read_u64_le(d: Seq<u8>, i: int) -> Option<(u64, int)> {
    if 0 <= i && i + 8 <= d.len() {
        Some((
            (d[i] as u64 + d[i + 1] as u64 * 0x100 + d[i + 2] as u64 * 0x10000 + d[i + 3] as u64
                * 0x1000000 + d[i + 4] as u64 * 0x100000000 + d[i + 5] as u64 * 0x10000000000 + d[i
                + 6] as u64 * 0x1000000000000 + d[i + 7] as u64 * 0x100000000000000) as u64,
            i + 8,
        ))
    } else {
        None
    }
}

/// Reads `n` raw bytes at `i`, if in bounds.
pub open spec fn spec_read_bytes(d: Seq<u8>, i: int, n: int) -> Option<(Seq<u8>, int)> {
    if 0 <= i && 0 <= n && i + n <= d.len() {
        Some((d.subrange(i, i + n), i + n))
    } else {
        None
    }
}

/// Reading a 16-bit value back from its own little-endian bytes, written
/// after `prefix` and before `rest`, recovers the value.
pub proof fn lemma_read_u16_le(prefix: Seq<u8>, v: u16, rest: Seq<u8>)
    ensures
        spec_read_u16_le(prefix + u16_le_bytes(v) + rest, prefix.len() as int) == Some(
            (v, prefix.len() as int + 2),
        ),
{
    let d = prefix + u16_le_bytes(v) + rest;
    let bs = u16_le_bytes(v);
    let i = prefix.len() as int;
    assert(bs.len() == 2);
    assert forall|k: int| 0 <= k < 2 implies d[i + k] == bs[k] by {
        assert(d[i + k] == (prefix + bs)[i + k]);
    }
    assert(d[i] == (v & 0xff) as u8);
    assert(d[i + 1] == ((v >> 8) & 0xff) as u8);
    assert(((v & 0xff) as u8) as u16 + (((v >> 8) & 0xff) as u8) as u16 * 0x100 == v)
        by (bit_vector);
}

/// Reading a 24-bit value back from its own little-endian bytes recovers it.
pub proof fn lemma_read_u24_le(prefix: Seq<u8>, v: u32, rest: Seq<u8>)
    requires
        v < 0x1000000,
    ensures
        spec_read_u24_le(prefix + u24_le_bytes(v) + rest, prefix.len() as int) == Some(
            (v, prefix.len() as int + 3),
        ),
{
    let d = prefix + u24_le_bytes(v) + rest;
    let bs = u24_le_bytes(v);
    let i = prefix.len() as int;
    assert(bs.len() == 3);
    assert forall|k: int| 0 <= k < 3 implies d[i + k] == bs[k] by {
        assert(d[i + k] == (prefix + bs)[i + k]);
    }
    assert(d[i] == (v & 0xff) as u8);
    assert(d[i + 1] == ((v >> 8) & 0xff) as u8);
    assert(d[i + 2] == ((v >> 16) & 0xff) as u8);
    assert(v < 0x1000000 ==> ((v & 0xff) as u8) as u32 + (((v >> 8) & 0xff) as u8) as u32 * 0x100
        + (((v >> 16) & 0xff) as u8) as u32 * 0x10000 == v) by (bit_vector);
}

/// Reading a 32-bit value back from its own little-endian bytes recovers it.
pub proof fn lemma_read_u32_le(prefix: Seq<u8>, v: u32, rest: Seq<u8>)
    ensures
        spec_read_u32_le(prefix + u32_le_bytes(v) + rest, prefix.len() as int) == Some(
            (v, prefix.len() as int + 4),
        ),
{
    let d = prefix + u32_le_bytes(v) + rest;
    let bs = u32_le_bytes(v);
    let i = prefix.len() as int;
    assert(bs.len() == 4);
    assert forall|k: int| 0 <= k < 4 implies d[i + k] == bs[k] by {
        assert(d[i + k] == (prefix + bs)[i + k]);
    }
    assert(d[i] == (v & 0xff) as u8);
    assert(d[i + 1] == ((v >> 8) & 0xff) as u8);
    assert(d[i + 2] == ((v >> 16) & 0xff) as u8);
    assert(d[i + 3] == ((v >> 24) & 0xff) as u8);
    assert(((v & 0xff) as u8) as u32 + (((v >> 8) & 0xff) as u8) as u32 * 0x100 + (((v >> 16)
        & 0xff) as u8) as u32 * 0x10000 + (((v >> 24) & 0xff) as u8) as u32 * 0x1000000 == v)
        by (bit_vector);
}

/// Reading a 64-bit value back from its own little-endian bytes recovers it.
pub proof fn lemma_read_u64_le(prefix: Seq<u8>, v: u64, rest: Seq<u8>)
    ensures
        spec_read_u64_le(prefix + u64_le_bytes(v) + rest, prefix.len() as int) == Some(
            (v, prefix.len() as int + 8),
        ),
{
    let d = prefix + u64_le_bytes(v) + rest;
    let bs = u64_le_bytes(v);
    let i = prefix.len() as int;
    assert(bs.len() == 8);
    assert forall|k: int| 0 <= k < 8 implies d[i + k] == bs[k] by {
        assert(d[i + k] == (prefix + bs)[i + k]);
    }
    assert(d[i] == (v & 0xff) as u8);
    assert(d[i + 1] == ((v >> 8) & 0xff) as u8);
    assert(d[i + 2] == ((v >> 16) & 0xff) as u8);
    assert(d[i + 3] == ((v >> 24) & 0xff) as u8);
    assert(d[i + 4] == ((v >> 32) & 0xff) as u8);
    assert(d[i + 5] == ((v >> 40) & 0xff) as u8);
    assert(d[i + 6] == ((v >> 48) & 0xff) as u8);
    assert(d[i + 7] == ((v >> 56) & 0xff) as u8);
    assert(((v & 0xff) as u8) as u64 + (((v >> 8) & 0xff) as u8) as u64 * 0x100 + (((v >> 16)
        & 0xff) as u8) as u64 * 0x10000 + (((v >> 24) & 0xff) as u8) as u64 * 0x1000000 + (((v
        >> 32) & 0xff) as u8) as u64 * 0x100000000 + (((v >> 40) & 0xff) as u8) as u64
        * 0x10000000000 + (((v >> 48) & 0xff) as u8) as u64 * 0x1000000000000 + (((v >> 56)
        & 0xff) as u8) as u64 * 0x100000000000000 == v) by (bit_vector);
}

/// Reads one byte and advances the cursor.
pub fn read_u8(d: &[u8], pos: &mut usize) -> (r: Option<u8>)
    ensures
        match spec_read_u8(d@, *old(pos) as int) {
            Some((v, j)) => r == Some(v) && *final(pos) == j,
            None => r is None && *final(pos) == *old(pos),
        },
{
    if *pos < d.len() {
        let v = d[*pos];
        *pos = *pos + 1;
        Some(v)
    } else {
        None
    }
}

/// Reads a little-endian 16-bit value and advances the cursor.
pub fn read_u16_le(d: &[u8], pos: &mut usize) -> (r: Option<u16>)
    ensures
        match spec_read_u16_le(d@, *old(pos) as int) {
            Some((v, j)) => r == Some(v) && *final(pos) == j,
            None => r is None && *final(pos) == *old(pos),
        },
{
    if *pos < d.len() && d.len() - *pos >= 2 {
        let b0 = d[*pos] as u16;
        let b1 = d[*pos + 1] as u16;
        *pos = *pos + 2;
        Some(b0 + b1 * 0x100)
    } else {
        None
    }
}

/// Reads a little-endian 24-bit value and advances the cursor.
pub fn read_u24_le(d: &[u8], pos: &mut usize) -> (r: Option<u32>)
    ensures
        match spec_read_u24_le(d@, *old(pos) as int) {
            Some((v, j)) => r == Some(v) && *final(pos) == j,
            None => r is None && *final(pos) == *old(pos),
        },
{
    if *pos < d.len() && d.len() - *pos >= 3 {
        let b0 = d[*pos] as u32;
        let b1 = d[*pos + 1] as u32;
        let b2 = d[*pos + 2] as u32;
        *pos = *pos + 3;
        Some(b0 + b1 * 0x100 + b2 * 0x10000)
    } else {
        None
    }
}

/// Reads a little-endian 32-bit value and advances the cursor.
pub fn read_u32_le(d: &[u8], pos: &mut usize) -> (r: Option<u32>)
    ensures
        match spec_read_u32_le(d@, *old(pos) as int) {
            Some((v, j)) => r == Some(v) && *final(pos) == j,
            None => r is None && *final(pos) == *old(pos),
        },
{
    if *pos < d.len() && d.len() - *pos >= 4 {
        let b0 = d[*pos] as u32;
        let b1 = d[*pos + 1] as u32;
        let b2 = d[*pos + 2] as u32;
        let b3 = d[*pos + 3] as u32;
        *pos = *pos + 4;
        Some(b0 + b1 * 0x100 + b2 * 0x10000 + b3 * 0x1000000)
    } else {
        None
    }
}

/// Reads a little-endian 64-bit value and advances the cursor.
pub fn read_u64_le(d: &[u8], pos: &mut usize) -> (r: Option<u64>)
    ensures
        match spec_read_u64_le(d@, *old(pos) as int) {
            Some((v, j)) => r == Some(v) && *final(pos) == j,
            None => r is None && *final(pos) == *old(pos),
        },
{
    if *pos < d.len() && d.len() - *pos >= 8 {
        let b0 = d[*pos] as u64;
        let b1 = d[*pos + 1] as u64;
        let b2 = d[*pos + 2] as u64;
        let b3 = d[*pos + 3] as u64;
        let b4 = d[*pos + 4] as u64;
        let b5 = d[*pos + 5] as u64;
        let b6 = d[*pos + 6] as u64;
        let b7 = d[*pos + 7] as u64;
        *pos = *pos + 8;
        Some(
            b0 + b1 * 0x100 + b2 * 0x10000 + b3 * 0x1000000 + b4 * 0x100000000 + b5 * 0x10000000000
                + b6 * 0x1000000000000 + b7 * 0x100000000000000,
        )
    } else {
        None
    }
}

/// Reads `n` raw bytes into a fresh vector and advances the cursor.
pub fn read_bytes(d: &[u8], pos: &mut usize, n: usize) -> (r: Option<Vec<u8>>)
    ensures
        match spec_read_bytes(d@, *old(pos) as int, n as int) {
            Some((v, j)) => r is Some && r.unwrap()@ == v && *final(pos) == j,
            None => r is None && *final(pos) == *old(pos),
        },
{
    if *pos <= d.len() && d.len() - *pos >= n {
        let start = *pos;
        let mut out: Vec<u8> = Vec::new();
        let mut i: usize = 0;
        while i < n
            invariant
                start + n <= d@.len(),
                start + n <= usize::MAX,
                i <= n,
                out@ == d@.subrange(start as int, start + i as int),
            decreases n - i,
        {
            out.push(d[start + i]);
            i = i + 1;
            assert(out@ =~= d@.subrange(start as int, start + i as int));
        }
        *pos = start + n;
        Some(out)
    } else {
        None
    }
}

/// Big-endian bytes of a 16-bit value.
pub open spec fn u16_be_bytes(v: u16) -> Seq<u8> {
    seq![((v >> 8) & 0xff) as u8, (v & 0xff) as u8]
}

/// Big-endian bytes of a 32-bit value.
pub open spec fn u32_be_bytes(v: u32) -> Seq<u8> {
    seq![
        ((v >> 24) & 0xff) as u8,
        ((v >> 16) & 0xff) as u8,
        ((v >> 8) & 0xff) as u8,
        (v & 0xff) as u8,
    ]
}

/// Big-endian bytes of a 64-bit value.
pub open spec fn u64_be_bytes(v: u64) -> Seq<u8> {
    seq![
        ((v >> 56) & 0xff) as u8,
        ((v >> 48) & 0xff) as u8,
        ((v >> 40) & 0xff) as u8,
        ((v >> 32) & 0xff) as u8,
        ((v >> 24) & 0xff) as u8,
        ((v >> 16) & 0xff) as u8,
        ((v >> 8) & 0xff) as u8,
        (v & 0xff) as u8,
    ]
}

/// Appends a 16-bit value in big-endian order.
pub fn put_u16_be(buf: &mut Vec<u8>, v: u16)
    ensures
        final(buf)@ == old(buf)@ + u16_be_bytes(v),
{
    buf.push(((v >> 8) & 0xff) as u8);
    buf.push((v & 0xff) as u8);
    assert(buf@ =~= old(buf)@ + u16_be_bytes(v));
}

/// Appends a 32-bit value in big-endian order.
pub fn put_u32_be(buf: &mut Vec<u8>, v: u32)
    ensures
        final(buf)@ == old(buf)@ + u32_be_bytes(v),
{
    buf.push(((v >> 24) & 0xff) as u8);
    buf.push(((v >> 16) & 0xff) as u8);
    buf.push(((v >> 8) & 0xff) as u8);
    buf.push((v & 0xff) as u8);
    assert(buf@ =~= old(buf)@ + u32_be_bytes(v));
}

/// Appends a 64-bit value in big-endian order.
pub fn put_u64_be(buf: &mut Vec<u8>, v: u64)
    ensures
        final(buf)@ == old(buf)@ + u64_be_bytes(v),
{
    buf.push(((v >> 56) & 0xff) as u8);
    buf.push(((v >> 48) & 0xff) as u8);
    buf.push(((v >> 40) & 0xff) as u8);
    buf.push(((v >> 32) & 0xff) as u8);
    buf.push(((v >> 24) & 0xff) as u8);
    buf.push(((v >> 16) & 0xff) as u8);
    buf.push(((v >> 8) & 0xff) as u8);
    buf.push((v & 0xff) as u8);
    assert(buf@ =~= old(buf)@ + u64_be_bytes(v));
}

/// Appends a 64-bit signed value in big-endian order, two's complement.
pub fn put_i64_be(buf: &mut Vec<u8>, v: i64)
    ensures
        final(buf)@ == old(buf)@ + u64_be_bytes(v as u64),
{
    put_u64_be(buf, v as u64);
}

/// The variable-length encoding of a 32-bit value: seven bits per byte,
/// low group first, the top bit flagging a continuation.
pub open spec fn var_u32_bytes(v: u32) -> Seq<u8>
    decreases v,
    via var_u32_bytes_decreases
{
    if v < 0x80 {
        seq![v as u8]
    } else {
        seq![((v & 0x7f) | 0x80) as u8] + var_u32_bytes(v >> 7)
    }
}

#[via_fn]
proof fn var_u32_bytes_decreases(v: u32) {
    assert(v >= 0x80 ==> v >> 7 < v) by (bit_vector);
}

/// The variable-length encoding of a 64-bit value.
pub open spec fn var_u64_bytes(v: u64) -> Seq<u8>
    decreases v,
    via var_u64_bytes_decreases
{
    if v < 0x80 {
        seq![v as u8]
    } else {
        seq![((v & 0x7f) | 0x80) as u8] + var_u64_bytes(v >> 7)
    }
}

#[via_fn]
proof fn var_u64_bytes_decreases(v: u64) {
    assert(v >= 0x80 ==> v >> 7 < v) by (bit_vector);
}

/// The zigzag mapping of a signed 32-bit value, interleaving positive
/// and negative values onto the unsigned line.
pub open spec fn zigzag32(v: i32) -> u32 {
    ((v << 1) ^ (v >> 31)) as u32
}

/// The zigzag mapping of a signed 64-bit value.
pub open spec fn zigzag64(v: i64) -> u64 {
    ((v << 1) ^ (v >> 63)) as u64
}

/// Appends a 32-bit value in variable-length encoding.
pub fn put_var_u32(buf: &mut Vec<u8>, v: u32)
    ensures
        final(buf)@ == old(buf)@ + var_u32_bytes(v),
    decreases v,
{
    if v < 0x80 {
        buf.push(v as u8);
        assert(buf@ =~= old(buf)@ + var_u32_bytes(v));
    } else {
        proof {
            assert(v >= 0x80 ==> v >> 7 < v) by (bit_vector);
        }
        buf.push(((v & 0x7f) | 0x80) as u8);
        put_var_u32(buf, v >> 7);
        assert(buf@ =~= old(buf)@ + var_u32_bytes(v));
    }
}

/// Appends a 64-bit value in variable-length encoding.
pub fn put_var_u64(buf: &mut Vec<u8>, v: u64)
    ensures
        final(buf)@ == old(buf)@ + var_u64_bytes(v),
    decreases v,
{
    if v < 0x80 {
        buf.push(v as u8);
        assert(buf@ =~= old(buf)@ + var_u64_bytes(v));
    } else {
        proof {
            assert(v >= 0x80 ==> v >> 7 < v) by (bit_vector);
        }
        buf.push(((v & 0x7f) | 0x80) as u8);
        put_var_u64(buf, v >> 7);
        assert(buf@ =~= old(buf)@ + var_u64_bytes(v));
    }
}

/// Appends a signed 32-bit value, zigzag mapped then variable-length
/// encoded.
pub fn put_var_i32(buf: &mut Vec<u8>, v: i32)
    ensures
        final(buf)@ == old(buf)@ + var_u32_bytes(zigzag32(v)),
{
    let z: u32 = ((v << 1i32) ^ (v >> 31i32)) as u32;
    put_var_u32(buf, z);
}

/// Appends a signed 64-bit value, zigzag mapped then variable-length
/// encoded.
pub fn put_var_i64(buf: &mut Vec<u8>, v: i64)
    ensures
        final(buf)@ == old(buf)@ + var_u64_bytes(zigzag64(v)),
{
    let z: u64 = ((v << 1i64) ^ (v >> 63i64)) as u64;
    put_var_u64(buf, z);
}

/// The wire form of a string: its byte length, variable-length encoded,
/// then its bytes.
pub open spec fn string_bytes(s: Seq<u8>) -> Seq<u8> {
    var_u32_bytes(s.len() as u32) + s
}

/// Appends a string: variable-length byte count, then the bytes.
pub fn put_string(buf: &mut Vec<u8>, s: &str)
    requires
        s@.len() <= 0xffff_ffff,
        s.spec_bytes().len() <= 0xffff_ffff,
    ensures
        final(buf)@ == old(buf)@ + string_bytes(s.spec_bytes()),
{
    let bytes = s.as_bytes();
    put_var_u32(buf, bytes.len() as u32);
    put_bytes(buf, bytes);
    assert(buf@ =~= old(buf)@ + string_bytes(s.spec_bytes()));
}

/// Reads a variable-length 32-bit value at `i`: at most five groups of
/// seven bits, low group first.
pub open spec fn spec_read_var_u32(d: Seq<u8>, i: int, shift: nat, acc: u32) -> Option<(u32, int)>
    decreases d.len() - i,
{
    if i < 0 || i >= d.len() || shift >= 35 {
        None
    } else {
        let b = d[i];
        let low = (b & 0x7f) as u32;
        let val = (acc | (low << shift)) as u32;
        if b < 0x80 {
            Some((val, i + 1))
        } else {
            spec_read_var_u32(d, i + 1, shift + 7, val)
        }
    }
}

/// Reads a variable-length 32-bit value and advances the cursor.
pub fn read_var_u32(d: &[u8], pos: &mut usize) -> (r: Option<u32>)
    ensures
        match spec_read_var_u32(d@, *old(pos) as int, 0, 0) {
            Some((v, j)) => r == Some(v) && *final(pos) == j,
            None => r is None,
        },
{
    let mut shift: u32 = 0;
    let mut acc: u32 = 0;
    loop
        invariant
            shift % 7 == 0,
            spec_read_var_u32(d@, *old(pos) as int, 0, 0) == spec_read_var_u32(
                d@,
                *pos as int,
                shift as nat,
                acc,
            ),
        decreases d@.len() - *pos,
    {
        if *pos >= d.len() || shift >= 35 {
            return None;
        }
        let b = d[*pos];
        let low = (b & 0x7f) as u32;
        let val = acc | (low << shift);
        *pos = *pos + 1;
        if b < 0x80 {
            return Some(val);
        }
        shift = shift + 7;
        acc = val;
    }
}

/// Reads a one-byte boolean: zero is false, anything else true.
pub fn read_bool(d: &[u8], pos: &mut usize) -> (r: Option<bool>)
    ensures
        match spec_read_u8(d@, *old(pos) as int) {
            Some((v, j)) => r == Some(v != 0) && *final(pos) == j,
            None => r is None && *final(pos) == *old(pos),
        },
{
    match read_u8(d, pos) {
        Some(v) => Some(v != 0),
        None => None,
    }
}

/// The big-endian 64-bit value at a position; zero when out of bounds.
pub open spec fn spec_u64_be_at(d: Seq<u8>, i: int) -> u64 {
    if 0 <= i && i + 8 <= d.len() {
        (d[i] as u64 * 0x100000000000000 + d[i + 1] as u64 * 0x1000000000000 + d[i + 2] as u64
            * 0x10000000000 + d[i + 3] as u64 * 0x100000000 + d[i + 4] as u64 * 0x1000000 + d[i
            + 5] as u64 * 0x10000 + d[i + 6] as u64 * 0x100 + d[i + 7] as u64) as u64
    } else {
        0
    }
}

/// Reads the big-endian 64-bit value at a position.
pub fn read_u64_be_at(d: &[u8], i: usize) -> (r: u64)
    requires
        i + 8 <= d@.len(),
    ensures
        r == spec_u64_be_at(d@, i as int),
{
    d[i] as u64 * 0x100000000000000 + d[i + 1] as u64 * 0x1000000000000 + d[i + 2] as u64
        * 0x10000000000 + d[i + 3] as u64 * 0x100000000 + d[i + 4] as u64 * 0x1000000 + d[i
        + 5] as u64 * 0x10000 + d[i + 6] as u64 * 0x100 + d[i + 7] as u64
}

/// Reads a variable-length 64-bit value at `i`: at most ten groups of
/// seven bits, low group first.
pub open spec fn spec_read_var_u64(d: Seq<u8>, i: int, shift: nat, acc: u64) -> Option<(u64, int)>
    decreases d.len() - i,
{
    if i < 0 || i >= d.len() || shift >= 70 {
        None
    } else {
        let b = d[i];
        let low = (b & 0x7f) as u64;
        let val = (acc | (low << shift)) as u64;
        if b < 0x80 {
            Some((val, i + 1))
        } else {
            spec_read_var_u64(d, i + 1, shift + 7, val)
        }
    }
}

/// Reads a variable-length 64-bit value and advances the cursor.
pub fn read_var_u64(d: &[u8], pos: &mut usize) -> (r: Option<u64>)
    ensures
        match spec_read_var_u64(d@, *old(pos) as int, 0, 0) {
            Some((v, j)) => r == Some(v) && *final(pos) == j,
            None => r is None,
        },
{
    let mut shift: u64 = 0;
    let mut acc: u64 = 0;
    loop
        invariant
            shift % 7 == 0,
            spec_read_var_u64(d@, *old(pos) as int, 0, 0) == spec_read_var_u64(
                d@,
                *pos as int,
                shift as nat,
                acc,
            ),
        decreases d@.len() - *pos,
    {
        if *pos >= d.len() || shift >= 70 {
            return None;
        }
        let b = d[*pos];
        let low = (b & 0x7f) as u64;
        let val = acc | (low << shift);
        *pos = *pos + 1;
        if b < 0x80 {
            return Some(val);
        }
        shift = shift + 7;
        acc = val;
    }
}

} // verus!
