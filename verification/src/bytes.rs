use vstd::prelude::*;

verus! {

/// The little-endian value of the four bytes of `data` that start at `pos`.
pub open spec fn le_u32_at(data: Seq<u8>, pos: int) -> u32 {
    (data[pos] as int + data[pos + 1] as int * 0x100 + data[pos + 2] as int * 0x1_0000
        + data[pos + 3] as int * 0x100_0000) as u32
}

/// The little-endian value of the two bytes of `data` that start at `pos`.
pub open spec fn le_u16_at(data: Seq<u8>, pos: int) -> u16 {
    (data[pos] as int + data[pos + 1] as int * 0x100) as u16
}

/// The little-endian value of the eight bytes of `data` that start at `pos`.
pub open spec fn le_u64_at(data: Seq<u8>, pos: int) -> u64 {
    (le_u32_at(data, pos) as int + le_u32_at(data, pos + 4) as int * 0x1_0000_0000) as u64
}

/// The four little-endian bytes of `value`.
pub open spec fn u32_le(value: u32) -> Seq<u8> {
    seq![
        (value % 0x100) as u8,
        ((value / 0x100) % 0x100) as u8,
        ((value / 0x1_0000) % 0x100) as u8,
        ((value / 0x100_0000) % 0x100) as u8,
    ]
}

/// The two little-endian bytes of `value`.
pub open spec fn u16_le(value: u16) -> Seq<u8> {
    seq![(value % 0x100) as u8, ((value / 0x100) % 0x100) as u8]
}

/// The eight little-endian bytes of `value`.
pub open spec fn u64_le(value: u64) -> Seq<u8> {
    u32_le((value % 0x1_0000_0000) as u32) + u32_le((value / 0x1_0000_0000) as u32)
}

/// The little-endian bytes of each value of `values`, one after the other.
pub open spec fn u16s_le(values: Seq<u16>) -> Seq<u8>
    decreases values.len(),
{
    if values.len() == 0 {
        Seq::empty()
    } else {
        u16_le(values[0]) + u16s_le(values.drop_first())
    }
}

/// The little-endian bytes of each value of `values`, one after the other.
pub open spec fn u32s_le(values: Seq<u32>) -> Seq<u8>
    decreases values.len(),
{
    if values.len() == 0 {
        Seq::empty()
    } else {
        u32_le(values[0]) + u32s_le(values.drop_first())
    }
}

/// `n` zero bytes.
pub open spec fn zeros(n: nat) -> Seq<u8> {
    Seq::new(n, |_i: int| 0u8)
}

/// Decodes a little-endian `u32` from four bytes of `data` at `pos`.
pub fn read_le_u32(data: &[u8], pos: usize) -> (value: u32)
    requires
        pos + 4 <= data@.len(),
    ensures
        value == le_u32_at(data@, pos as int),
{
    let b0 = data[pos] as u32;
    let b1 = data[pos + 1] as u32;
    let b2 = data[pos + 2] as u32;
    let b3 = data[pos + 3] as u32;
    b0 + b1 * 0x100 + b2 * 0x1_0000 + b3 * 0x100_0000
}

/// Decodes a little-endian `u16` from two bytes of `data` at `pos`.
pub fn read_le_u16(data: &[u8], pos: usize) -> (value: u16)
    requires
        pos + 2 <= data@.len(),
    ensures
        value == le_u16_at(data@, pos as int),
{
    let b0 = data[pos] as u16;
    let b1 = data[pos + 1] as u16;
    b0 + b1 * 0x100
}

/// Decodes a little-endian `u64` from eight bytes of `data` at `pos`.
pub fn read_le_u64(data: &[u8], pos: usize) -> (value: u64)
    requires
        pos + 8 <= data@.len(),
    ensures
        value == le_u64_at(data@, pos as int),
{
    let _len = data.len();
    let low = read_le_u32(data, pos) as u64;
    let high = read_le_u32(data, pos + 4) as u64;
    low + high * 0x1_0000_0000
}

/// Appends the little-endian bytes of `value` to `out`.
pub fn push_le_u32(out: &mut Vec<u8>, value: u32)
    ensures
        final(out)@ == old(out)@ + u32_le(value),
{
    out.push((value % 0x100) as u8);
    out.push(((value / 0x100) % 0x100) as u8);
    out.push(((value / 0x1_0000) % 0x100) as u8);
    out.push(((value / 0x100_0000) % 0x100) as u8);
    assert(out@ =~= old(out)@ + u32_le(value));
}

/// Appends the little-endian bytes of `value` to `out`.
pub fn push_le_u16(out: &mut Vec<u8>, value: u16)
    ensures
        final(out)@ == old(out)@ + u16_le(value),
{
    out.push((value % 0x100) as u8);
    out.push(((value / 0x100) % 0x100) as u8);
    assert(out@ =~= old(out)@ + u16_le(value));
}

/// Appends the little-endian bytes of `value` to `out`.
pub fn push_le_u64(out: &mut Vec<u8>, value: u64)
    ensures
        final(out)@ == old(out)@ + u64_le(value),
{
    push_le_u32(out, (value % 0x1_0000_0000) as u32);
    push_le_u32(out, (value / 0x1_0000_0000) as u32);
    assert(out@ =~= old(out)@ + u64_le(value));
}

/// Appends all bytes of `bytes` to `out`.
pub fn push_all(out: &mut Vec<u8>, bytes: &[u8])
    ensures
        final(out)@ == old(out)@ + bytes@,
{
    let mut i: usize = 0;
    while i < bytes.len()
        invariant
            i <= bytes@.len(),
            out@ == old(out)@ + bytes@.take(i as int),
        decreases bytes@.len() - i,
    {
        out.push(bytes[i]);
        i = i + 1;
        assert(out@ =~= old(out)@ + bytes@.take(i as int));
    }
    assert(bytes@.take(i as int) =~= bytes@);
}

/// Appends zero bytes to `out` until its length is `len`; a shorter `len` truncates it.
pub fn resize_zero(out: &mut Vec<u8>, len: usize)
    ensures
        final(out)@ == resized(old(out)@, len as int),
{
    if len <= out.len() {
        out.truncate(len);
    } else {
        while out.len() < len
            invariant
                old(out)@.len() < len,
                old(out)@.len() <= out@.len() <= len,
                out@ == old(out)@ + zeros((out@.len() - old(out)@.len()) as nat),
            decreases len - out@.len(),
        {
            out.push(0u8);
            assert(out@ =~= old(out)@ + zeros((out@.len() - old(out)@.len()) as nat));
        }
    }
}

/// `out` cut or padded with zero bytes to length `len`.
pub open spec fn resized(out: Seq<u8>, len: int) -> Seq<u8> {
    if len <= out.len() {
        out.take(len)
    } else {
        out + zeros((len - out.len()) as nat)
    }
}

/// Reading back the four bytes that `u32_le` writes gives the value again.
pub proof fn lemma_u32_le_roundtrip(value: u32, prefix: Seq<u8>, suffix: Seq<u8>)
    ensures
        le_u32_at(prefix + u32_le(value) + suffix, prefix.len() as int) == value,
{
    let d = prefix + u32_le(value) + suffix;
    let p = prefix.len() as int;
    assert(d[p] == u32_le(value)[0]);
    assert(d[p + 1] == u32_le(value)[1]);
    assert(d[p + 2] == u32_le(value)[2]);
    assert(d[p + 3] == u32_le(value)[3]);
    lemma_u32_digits(value);
}

/// A `u32` is the sum of its four base-256 digits.
proof fn lemma_u32_digits(value: u32)
    ensures
        ((value % 0x100) as u8) as int + ((value / 0x100) % 0x100) as u8 as int * 0x100 + ((value
            / 0x1_0000) % 0x100) as u8 as int * 0x1_0000 + ((value / 0x100_0000) % 0x100) as u8 as int
            * 0x100_0000 == value,
{
}

/// Reading back the two bytes that `u16_le` writes gives the value again.
pub proof fn lemma_u16_le_roundtrip(value: u16, prefix: Seq<u8>, suffix: Seq<u8>)
    ensures
        le_u16_at(prefix + u16_le(value) + suffix, prefix.len() as int) == value,
{
    let d = prefix + u16_le(value) + suffix;
    let p = prefix.len() as int;
    assert(d[p] == (value % 0x100) as u8);
    assert(d[p + 1] == ((value / 0x100) % 0x100) as u8);
}

/// Reading back the eight bytes that `u64_le` writes gives the value again.
pub proof fn lemma_u64_le_roundtrip(value: u64, prefix: Seq<u8>, suffix: Seq<u8>)
    ensures
        le_u64_at(prefix + u64_le(value) + suffix, prefix.len() as int) == value,
{
    let low = (value % 0x1_0000_0000) as u32;
    let high = (value / 0x1_0000_0000) as u32;
    let d = prefix + u64_le(value) + suffix;
    assert(d =~= prefix + u32_le(low) + (u32_le(high) + suffix));
    lemma_u32_le_roundtrip(low, prefix, u32_le(high) + suffix);
    assert(d =~= (prefix + u32_le(low)) + u32_le(high) + suffix);
    lemma_u32_le_roundtrip(high, prefix + u32_le(low), suffix);
}

/// `u32_le` gives four bytes and `u16s_le`/`u32s_le` two or four bytes per value.
pub proof fn lemma_le_lengths(a: Seq<u16>, b: Seq<u32>)
    ensures
        u16s_le(a).len() == 2 * a.len(),
        u32s_le(b).len() == 4 * b.len(),
    decreases a.len() + b.len(),
{
    if a.len() > 0 {
        lemma_le_lengths(a.drop_first(), b);
    } else if b.len() > 0 {
        lemma_le_lengths(a, b.drop_first());
    }
}

/// The bytes of `a + b` are the bytes of `a` followed by those of `b`.
pub proof fn lemma_u16s_le_append(a: Seq<u16>, b: Seq<u16>)
    ensures
        u16s_le(a + b) == u16s_le(a) + u16s_le(b),
    decreases a.len(),
{
    if a.len() == 0 {
        assert(a + b =~= b);
        assert(u16s_le(a) + u16s_le(b) =~= u16s_le(b));
    } else {
        assert((a + b).drop_first() =~= a.drop_first() + b);
        lemma_u16s_le_append(a.drop_first(), b);
        assert(u16s_le(a + b) =~= u16s_le(a) + u16s_le(b));
    }
}

/// The bytes of `a + b` are the bytes of `a` followed by those of `b`.
pub proof fn lemma_u32s_le_append(a: Seq<u32>, b: Seq<u32>)
    ensures
        u32s_le(a + b) == u32s_le(a) + u32s_le(b),
    decreases a.len(),
{
    if a.len() == 0 {
        assert(a + b =~= b);
        assert(u32s_le(a) + u32s_le(b) =~= u32s_le(b));
    } else {
        assert((a + b).drop_first() =~= a.drop_first() + b);
        lemma_u32s_le_append(a.drop_first(), b);
        assert(u32s_le(a + b) =~= u32s_le(a) + u32s_le(b));
    }
}

/// The bytes of a single value.
pub proof fn lemma_le_single(x: u16, y: u32)
    ensures
        u16s_le(seq![x]) == u16_le(x),
        u32s_le(seq![y]) == u32_le(y),
{
    assert(seq![x].drop_first() =~= Seq::<u16>::empty());
    assert(seq![y].drop_first() =~= Seq::<u32>::empty());
    assert(u16s_le(Seq::<u16>::empty()) =~= Seq::<u8>::empty());
    assert(u32s_le(Seq::<u32>::empty()) =~= Seq::<u8>::empty());
    assert(u16s_le(seq![x]) =~= u16_le(x));
    assert(u32s_le(seq![y]) =~= u32_le(y));
}

} // verus!
