//! Big-endian fields of the object-module format: writers that append to a
//! byte vector and readers that take a field at a cursor.
use vstd::prelude::*;
use crate::error::Error;

verus! {

/// The four big-endian bytes of a 32-bit value.
pub open spec fn be4(v: u32) -> Seq<u8> {
    seq![(v >> 24u32) as u8, (v >> 16u32) as u8, (v >> 8u32) as u8, v as u8]
}

/// The 32-bit value of four big-endian bytes.
pub open spec fn from_be4(s: Seq<u8>) -> u32 {
    ((s[0] as u32) << 24u32) | ((s[1] as u32) << 16u32) | ((s[2] as u32) << 8u32) | (s[3] as u32)
}

/// The eight big-endian bytes of a 64-bit value.
pub open spec fn be8(v: u64) -> Seq<u8> {
    seq![
        (v >> 56u64) as u8,
        (v >> 48u64) as u8,
        (v >> 40u64) as u8,
        (v >> 32u64) as u8,
        (v >> 24u64) as u8,
        (v >> 16u64) as u8,
        (v >> 8u64) as u8,
        v as u8,
    ]
}

/// The 64-bit value of eight big-endian bytes.
pub open spec fn from_be8(s: Seq<u8>) -> u64 {
    ((s[0] as u64) << 56u64) | ((s[1] as u64) << 48u64) | ((s[2] as u64) << 40u64) | ((
    s[3] as u64) << 32u64) | ((s[4] as u64) << 24u64) | ((s[5] as u64) << 16u64) | ((
    s[6] as u64) << 8u64) | (s[7] as u64)
}

/// A length-prefixed name: one length byte, then the bytes.
pub open spec fn enc_name(name: Seq<u8>) -> Seq<u8> {
    seq![name.len() as u8] + name
}

/// Reading back four written bytes gives the value.
pub proof fn lemma_be4_round_trip(v: u32)
    ensures
        from_be4(be4(v)) == v,
{
    let b0 = (v >> 24u32) as u8;
    let b1 = (v >> 16u32) as u8;
    let b2 = (v >> 8u32) as u8;
    let b3 = v as u8;
    assert(((b0 as u32) << 24u32) | ((b1 as u32) << 16u32) | ((b2 as u32) << 8u32) | (b3 as u32)
        == v) by (bit_vector)
        requires
            b0 == (v >> 24u32) as u8,
            b1 == (v >> 16u32) as u8,
            b2 == (v >> 8u32) as u8,
            b3 == v as u8,
    ;
}

/// Reading back eight written bytes gives the value.
pub proof fn lemma_be8_round_trip(v: u64)
    ensures
        from_be8(be8(v)) == v,
{
    let s = be8(v);
    let b0 = (v >> 56u64) as u8;
    let b1 = (v >> 48u64) as u8;
    let b2 = (v >> 40u64) as u8;
    let b3 = (v >> 32u64) as u8;
    let b4 = (v >> 24u64) as u8;
    let b5 = (v >> 16u64) as u8;
    let b6 = (v >> 8u64) as u8;
    let b7 = v as u8;
    assert(((b0 as u64) << 56u64) | ((b1 as u64) << 48u64) | ((b2 as u64) << 40u64) | ((
    b3 as u64) << 32u64) | ((b4 as u64) << 24u64) | ((b5 as u64) << 16u64) | ((b6 as u64)
        << 8u64) | (b7 as u64) == v) by (bit_vector)
        requires
            b0 == (v >> 56u64) as u8,
            b1 == (v >> 48u64) as u8,
            b2 == (v >> 40u64) as u8,
            b3 == (v >> 32u64) as u8,
            b4 == (v >> 24u64) as u8,
            b5 == (v >> 16u64) as u8,
            b6 == (v >> 8u64) as u8,
            b7 == v as u8,
    ;
}

/// Appends the bytes of a slice.
pub fn push_all(out: &mut Vec<u8>, data: &[u8])
    ensures
        final(out)@ == old(out)@ + data@,
{
    let mut i: usize = 0;
    while i < data.len()
        invariant
            i <= data@.len(),
            out@ == old(out)@ + data@.subrange(0, i as int),
        decreases data@.len() - i,
    {
        out.push(data[i]);
        i += 1;
        assert(data@.subrange(0, i as int) == data@.subrange(0, i - 1) + seq![data@[i - 1]]);
    }
    assert(data@.subrange(0, data@.len() as int) == data@);
}

/// Appends the bytes of `data` from `start` up to `end`.
pub fn push_range(out: &mut Vec<u8>, data: &[u8], start: usize, end: usize)
    requires
        start <= end <= data@.len(),
    ensures
        final(out)@ == old(out)@ + data@.subrange(start as int, end as int),
{
    let mut i: usize = start;
    while i < end
        invariant
            start <= i <= end <= data@.len(),
            out@ == old(out)@ + data@.subrange(start as int, i as int),
        decreases end - i,
    {
        out.push(data[i]);
        i += 1;
        assert(out@ =~= old(out)@ + data@.subrange(start as int, i as int));
    }
}

/// Copies a slice into a new vector.
pub fn to_vec(data: &[u8]) -> (r: Vec<u8>)
    ensures
        r@ == data@,
{
    let mut r: Vec<u8> = Vec::new();
    push_all(&mut r, data);
    r
}

/// Whether two byte strings are equal.
pub fn bytes_eq(a: &[u8], b: &[u8]) -> (r: bool)
    ensures
        r == (a@ == b@),
{
    if a.len() != b.len() {
        return false;
    }
    let mut i: usize = 0;
    while i < a.len()
        invariant
            a@.len() == b@.len(),
            i <= a@.len(),
            forall|j: int| 0 <= j < i ==> a@[j] == b@[j],
        decreases a@.len() - i,
    {
        if a[i] != b[i] {
            return false;
        }
        i += 1;
    }
    assert(a@ =~= b@);
    true
}

/// Appends one byte.
pub fn write_u8(out: &mut Vec<u8>, data: u8)
    ensures
        final(out)@ == old(out)@.push(data),
{
    out.push(data);
}

/// Appends a 32-bit value in big-endian order.
pub fn write_u32(out: &mut Vec<u8>, data: u32)
    ensures
        final(out)@ == old(out)@ + be4(data),
{
    out.push((data >> 24u32) as u8);
    out.push((data >> 16u32) as u8);
    out.push((data >> 8u32) as u8);
    out.push(data as u8);
    assert(out@ =~= old(out)@ + be4(data));
}

/// Appends a 64-bit value in big-endian order.
pub fn write_u64(out: &mut Vec<u8>, data: u64)
    ensures
        final(out)@ == old(out)@ + be8(data),
{
    out.push((data >> 56u64) as u8);
    out.push((data >> 48u64) as u8);
    out.push((data >> 40u64) as u8);
    out.push((data >> 32u64) as u8);
    out.push((data >> 24u64) as u8);
    out.push((data >> 16u64) as u8);
    out.push((data >> 8u64) as u8);
    out.push(data as u8);
    assert(out@ =~= old(out)@ + be8(data));
}

/// Appends an address or a count as a 32-bit field; fails, writing nothing,
/// when it does not fit.
pub fn write_u32_checked(out: &mut Vec<u8>, data: u64) -> (r: Result<(), Error>)
    ensures
        data <= u32::MAX ==> r is Ok && final(out)@ == old(out)@ + be4(data as u32),
        data > u32::MAX ==> r == Err::<(), Error>(Error::ValueTooLarge) && final(out)@ == old(out)@,
{
    if data > u32::MAX as u64 {
        return Err(Error::ValueTooLarge);
    }
    write_u32(out, data as u32);
    Ok(())
}

/// Appends a name with its length byte; fails, writing nothing, on a name
/// longer than 255 bytes.
pub fn write_label(out: &mut Vec<u8>, data: &[u8]) -> (r: Result<(), Error>)
    ensures
        data@.len() <= 255 ==> r is Ok && final(out)@ == old(out)@ + enc_name(data@),
        data@.len() > 255 ==> r == Err::<(), Error>(Error::NameTooLong) && final(out)@ == old(out)@,
{
    if data.len() > 255 {
        return Err(Error::NameTooLong);
    }
    write_u8(out, data.len() as u8);
    push_all(out, data);
    assert(out@ =~= old(out)@ + enc_name(data@));
    Ok(())
}

/// Appends the qualified name `first.second` with its length byte; fails,
/// writing nothing, when it is longer than 255 bytes.
pub fn write_labels(out: &mut Vec<u8>, first: &[u8], second: &[u8]) -> (r: Result<(), Error>)
    ensures
        first@.len() + second@.len() + 1 <= 255 ==> r is Ok && final(out)@ == old(out)@
            + enc_name(first@ + seq![46u8] + second@),
        first@.len() + second@.len() + 1 > 255 ==> r == Err::<(), Error>(Error::NameTooLong)
            && final(out)@ == old(out)@,
{
    if first.len() > 254 || second.len() > 254 - first.len() {
        return Err(Error::NameTooLong);
    }
    write_u8(out, (first.len() + second.len() + 1) as u8);
    push_all(out, first);
    write_u8(out, 46u8);
    push_all(out, second);
    assert(out@ =~= old(out)@ + enc_name(first@ + seq![46u8] + second@));
    Ok(())
}

/// A byte string with a 32-bit length prefix.
pub open spec fn enc_bytes(data: Seq<u8>) -> Seq<u8> {
    be4(data.len() as u32) + data
}

/// Appends a byte string with its 32-bit length; fails, writing nothing,
/// when the length does not fit.
pub fn write_u8_slice(out: &mut Vec<u8>, data: &[u8]) -> (r: Result<(), Error>)
    ensures
        data@.len() <= u32::MAX ==> r is Ok && final(out)@ == old(out)@ + enc_bytes(data@),
        data@.len() > u32::MAX ==> r == Err::<(), Error>(Error::ValueTooLarge) && final(out)@
            == old(out)@,
{
    if data.len() as u64 > u32::MAX as u64 {
        return Err(Error::ValueTooLarge);
    }
    write_u32(out, data.len() as u32);
    push_all(out, data);
    assert(out@ =~= old(out)@ + enc_bytes(data@));
    Ok(())
}

/// The 32-bit fields of a sequence of values, without a count.
pub open spec fn enc_u32_items(data: Seq<u64>) -> Seq<u8>
    decreases data.len(),
{
    if data.len() == 0 {
        seq![]
    } else {
        enc_u32_items(data.drop_last()) + be4(data.last() as u32)
    }
}

/// A sequence of values as a 32-bit count and one 32-bit field each.
pub open spec fn enc_u32s(data: Seq<u64>) -> Seq<u8> {
    be4(data.len() as u32) + enc_u32_items(data)
}

/// Every value fits in 32 bits.
pub open spec fn all_fit_u32(data: Seq<u64>) -> bool {
    forall|i: int| 0 <= i < data.len() ==> data[i] <= u32::MAX
}

/// Appends a sequence of values as 32-bit fields behind their count; fails,
/// writing nothing, when the count or a value does not fit.
pub fn write_u32_slice(out: &mut Vec<u8>, data: &[u64]) -> (r: Result<(), Error>)
    ensures
        data@.len() <= u32::MAX && all_fit_u32(data@) ==> r is Ok && final(out)@ == old(out)@
            + enc_u32s(data@),
        !(data@.len() <= u32::MAX && all_fit_u32(data@)) ==> r == Err::<(), Error>(
            Error::ValueTooLarge,
        ) && final(out)@ == old(out)@,
{
    if data.len() as u64 > u32::MAX as u64 {
        return Err(Error::ValueTooLarge);
    }
    let mut k: usize = 0;
    while k < data.len()
        invariant
            k <= data@.len(),
            forall|j: int| 0 <= j < k ==> data@[j] <= u32::MAX,
        decreases data@.len() - k,
    {
        if data[k] > u32::MAX as u64 {
            return Err(Error::ValueTooLarge);
        }
        k += 1;
    }
    write_u32(out, data.len() as u32);
    let ghost start = out@;
    let mut i: usize = 0;
    while i < data.len()
        invariant
            i <= data@.len(),
            all_fit_u32(data@),
            out@ == start + enc_u32_items(data@.subrange(0, i as int)),
        decreases data@.len() - i,
    {
        write_u32(out, data[i] as u32);
        i += 1;
        assert(data@.subrange(0, i as int).drop_last() =~= data@.subrange(0, i - 1));
    }
    assert(data@.subrange(0, data@.len() as int) =~= data@);
    assert(out@ =~= old(out)@ + enc_u32s(data@));
    Ok(())
}

/// Takes one byte at the cursor.
pub fn read_u8(data: &[u8], pos: &mut usize) -> (r: Result<u8, Error>)
    ensures
        *old(pos) + 1 <= data@.len() ==> r == Ok::<u8, Error>(data@[*old(pos) as int])
            && *final(pos) == *old(pos) + 1,
        *old(pos) + 1 > data@.len() ==> r == Err::<u8, Error>(Error::Truncated) && *final(pos)
            == *old(pos),
{
    if *pos >= data.len() {
        return Err(Error::Truncated);
    }
    let b = data[*pos];
    *pos = *pos + 1;
    Ok(b)
}

/// Takes a big-endian 32-bit value at the cursor.
pub fn read_u32(data: &[u8], pos: &mut usize) -> (r: Result<u32, Error>)
    ensures
        *old(pos) + 4 <= data@.len() ==> r == Ok::<u32, Error>(
            from_be4(data@.subrange(*old(pos) as int, *old(pos) + 4)),
        ) && *final(pos) == *old(pos) + 4,
        *old(pos) + 4 > data@.len() ==> r == Err::<u32, Error>(Error::Truncated) && *final(pos)
            == *old(pos),
{
    if data.len() < 4 || *pos > data.len() - 4 {
        return Err(Error::Truncated);
    }
    let p = *pos;
    let v = ((data[p] as u32) << 24u32) | ((data[p + 1] as u32) << 16u32) | ((data[p + 2] as u32)
        << 8u32) | (data[p + 3] as u32);
    *pos = p + 4;
    Ok(v)
}

/// Takes a length-prefixed name at the cursor.
pub fn read_label(data: &[u8], pos: &mut usize) -> (r: Result<Vec<u8>, Error>)
    ensures
        *old(pos) + 1 <= data@.len() && *old(pos) + 1 + data@[*old(pos) as int] <= data@.len()
            ==> r is Ok && r->Ok_0@ == data@.subrange(
            *old(pos) + 1,
            *old(pos) + 1 + data@[*old(pos) as int],
        ) && *final(pos) == *old(pos) + 1 + data@[*old(pos) as int],
        !(*old(pos) + 1 <= data@.len() && *old(pos) + 1 + data@[*old(pos) as int]
            <= data@.len()) ==> r == Err::<Vec<u8>, Error>(Error::Truncated) && *final(pos)
            == *old(pos),
{
    let p = *pos;
    let len = read_u8(data, pos)?;
    if data.len() - *pos < len as usize {
        *pos = p;
        return Err(Error::Truncated);
    }
    let r = take(data, *pos, len as usize);
    *pos = *pos + len as usize;
    Ok(r)
}

/// Copies `len` bytes starting at `start`.
pub fn take(data: &[u8], start: usize, len: usize) -> (r: Vec<u8>)
    requires
        start + len <= data@.len(),
    ensures
        r@ == data@.subrange(start as int, start + len),
{
    let mut r: Vec<u8> = Vec::new();
    let total = data.len();
    let mut i: usize = 0;
    while i < len
        invariant
            start + len <= data@.len(),
            total == data@.len(),
            i <= len,
            r@ == data@.subrange(start as int, start + i),
        decreases len - i,
    {
        r.push(data[start + i]);
        i += 1;
        assert(r@ =~= data@.subrange(start as int, start + i));
    }
    r
}

/// Takes a byte string with a 32-bit length prefix at the cursor.
pub fn read_u8_vec(data: &[u8], pos: &mut usize) -> (r: Result<Vec<u8>, Error>)
    ensures
        ({
            let p = *old(pos);
            let n = from_be4(data@.subrange(p as int, p + 4)) as int;
            if p + 4 <= data@.len() && p + 4 + n <= data@.len() {
                r is Ok && r->Ok_0@ == data@.subrange(p + 4, p + 4 + n) && *final(pos) == p + 4
                    + n
            } else {
                r == Err::<Vec<u8>, Error>(Error::Truncated) && *final(pos) == p
            }
        }),
{
    let p = *pos;
    let len = read_u32(data, pos)?;
    if data.len() - *pos < len as usize {
        *pos = p;
        return Err(Error::Truncated);
    }
    let r = take(data, *pos, len as usize);
    *pos = *pos + len as usize;
    Ok(r)
}

/// The values of `count` consecutive 32-bit fields starting at `pos`.
pub open spec fn u32_items(data: Seq<u8>, pos: int, count: nat) -> Seq<u64> {
    Seq::new(count, |i: int| from_be4(data.subrange(pos + 4 * i, pos + 4 * i + 4)) as u64)
}

/// Takes a 32-bit count and that many 32-bit values at the cursor.
pub fn read_u32_vec(data: &[u8], pos: &mut usize) -> (r: Result<Vec<u64>, Error>)
    ensures
        ({
            let p = *old(pos);
            let n = from_be4(data@.subrange(p as int, p + 4)) as int;
            if p + 4 <= data@.len() && p + 4 + 4 * n <= data@.len() {
                r is Ok && r->Ok_0@ == u32_items(data@, p + 4, n as nat) && *final(pos) == p + 4
                    + 4 * n
            } else {
                r == Err::<Vec<u64>, Error>(Error::Truncated) && *final(pos) == p
            }
        }),
{
    let p = *pos;
    let len = read_u32(data, pos)?;
    if (data.len() - *pos) / 4 < len as usize {
        *pos = p;
        return Err(Error::Truncated);
    }
    let mut result: Vec<u64> = Vec::new();
    let mut i: u32 = 0;
    while i < len
        invariant
            *pos == p + 4 + 4 * i,
            p + 4 + 4 * len <= data@.len(),
            i <= len,
            result@ == u32_items(data@, p + 4, i as nat),
        decreases len - i,
    {
        let v = read_u32(data, pos)?;
        result.push(v as u64);
        i += 1;
        assert(result@ =~= u32_items(data@, p + 4, i as nat));
    }
    Ok(result)
}

} // verus!
