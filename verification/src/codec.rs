//! Little-endian encoding of the integers that make up on-disk structures.
use vstd::prelude::*;

verus! {

/// The four little-endian bytes of `x`.
pub open spec fn u32_bytes(x: u32) -> Seq<u8> {
    seq![
        (x % 256) as u8,
        ((x / 256) % 256) as u8,
        ((x / 65536) % 256) as u8,
        (x / 16777216) as u8,
    ]
}

/// The little-endian `u32` held by the four bytes of `b` starting at `off`.
pub open spec fn le_u32(b: Seq<u8>, off: int) -> u32 {
    (b[off] + 256 * b[off + 1] + 65536 * b[off + 2] + 16777216 * b[off + 3]) as u32
}

/// The eight little-endian bytes of `x`.
pub open spec fn u64_bytes(x: u64) -> Seq<u8> {
    seq![
        (x % 256) as u8,
        ((x / 0x100) % 256) as u8,
        ((x / 0x1_0000) % 256) as u8,
        ((x / 0x100_0000) % 256) as u8,
        ((x / 0x1_0000_0000) % 256) as u8,
        ((x / 0x100_0000_0000) % 256) as u8,
        ((x / 0x1_0000_0000_0000) % 256) as u8,
        (x / 0x100_0000_0000_0000) as u8,
    ]
}

/// The little-endian `u64` held by the eight bytes of `b` starting at `off`.
pub open spec fn le_u64(b: Seq<u8>, off: int) -> u64 {
    (b[off] + 0x100 * b[off + 1] + 0x1_0000 * b[off + 2] + 0x100_0000 * b[off + 3] + 0x1_0000_0000
        * b[off + 4] + 0x100_0000_0000 * b[off + 5] + 0x1_0000_0000_0000 * b[off + 6]
        + 0x100_0000_0000_0000 * b[off + 7]) as u64
}

/// The values of `s` encoded one after the other, four bytes each.
pub open spec fn u32s_bytes(s: Seq<u32>) -> Seq<u8> {
    Seq::new(4 * s.len(), |j: int| u32_bytes(s[j / 4])[j % 4])
}

/// The values of `s` encoded one after the other, eight bytes each.
pub open spec fn u64s_bytes(s: Seq<u64>) -> Seq<u8> {
    Seq::new(8 * s.len(), |j: int| u64_bytes(s[j / 8])[j % 8])
}

/// The `n` little-endian `u32` values held by `b` from offset `off` on.
pub open spec fn le_u32s(b: Seq<u8>, off: int, n: int) -> Seq<u32> {
    Seq::new(n as nat, |i: int| le_u32(b, off + 4 * i))
}

/// The `n` little-endian `u64` values held by `b` from offset `off` on.
pub open spec fn le_u64s(b: Seq<u8>, off: int, n: int) -> Seq<u64> {
    Seq::new(n as nat, |i: int| le_u64(b, off + 8 * i))
}

/// Decoding the bytes of a `u32` gives it back.
pub proof fn lemma_u32_roundtrip(x: u32)
    ensures
        le_u32(u32_bytes(x), 0) == x,
{
}

/// Decoding the bytes of a `u64` gives it back.
pub proof fn lemma_u64_roundtrip(x: u64)
    ensures
        le_u64(u64_bytes(x), 0) == x,
{
    assert((x % 256) + 0x100 * ((x / 0x100) % 256) + 0x1_0000 * ((x / 0x1_0000) % 256) + 0x100_0000
        * ((x / 0x100_0000) % 256) + 0x1_0000_0000 * ((x / 0x1_0000_0000) % 256) + 0x100_0000_0000
        * ((x / 0x100_0000_0000) % 256) + 0x1_0000_0000_0000 * ((x / 0x1_0000_0000_0000) % 256)
        + 0x100_0000_0000_0000 * (x / 0x100_0000_0000_0000) == x) by (bit_vector);
}

/// Decoding the encoding of a sequence of `u32` values gives it back.
pub proof fn law_u32s_roundtrip(s: Seq<u32>)
    ensures
        le_u32s(u32s_bytes(s), 0, s.len() as int) == s,
{
    let b = u32s_bytes(s);
    assert forall|i: int| 0 <= i < s.len() implies #[trigger] le_u32(b, 4 * i) == s[i] by {
        assert((4 * i) / 4 == i && (4 * i + 1) / 4 == i && (4 * i + 2) / 4 == i && (4 * i + 3) / 4
            == i);
        assert((4 * i) % 4 == 0 && (4 * i + 1) % 4 == 1 && (4 * i + 2) % 4 == 2 && (4 * i + 3) % 4
            == 3);
        lemma_u32_roundtrip(s[i]);
    }
    assert(le_u32s(b, 0, s.len() as int) =~= s);
}

/// Decoding the encoding of a sequence of `u64` values gives it back.
pub proof fn law_u64s_roundtrip(s: Seq<u64>)
    ensures
        le_u64s(u64s_bytes(s), 0, s.len() as int) == s,
{
    let b = u64s_bytes(s);
    assert forall|i: int| 0 <= i < s.len() implies #[trigger] le_u64(b, 8 * i) == s[i] by {
        assert(b[8 * i] == u64_bytes(s[i])[0]);
        assert(b[8 * i + 1] == u64_bytes(s[i])[1]);
        assert(b[8 * i + 2] == u64_bytes(s[i])[2]);
        assert(b[8 * i + 3] == u64_bytes(s[i])[3]);
        assert(b[8 * i + 4] == u64_bytes(s[i])[4]);
        assert(b[8 * i + 5] == u64_bytes(s[i])[5]);
        assert(b[8 * i + 6] == u64_bytes(s[i])[6]);
        assert(b[8 * i + 7] == u64_bytes(s[i])[7]);
        lemma_u64_roundtrip(s[i]);
    }
    assert(le_u64s(b, 0, s.len() as int) =~= s);
}

/// Appends the four little-endian bytes of `x` to `out`.
pub fn push_u32(out: &mut Vec<u8>, x: u32)
    ensures
        final(out)@ == old(out)@ + u32_bytes(x),
{
    out.push((x % 256) as u8);
    out.push(((x / 256) % 256) as u8);
    out.push(((x / 65536) % 256) as u8);
    out.push((x / 16777216) as u8);
    assert(out@ =~= old(out)@ + u32_bytes(x));
}

/// Appends the eight little-endian bytes of `x` to `out`.
pub fn push_u64(out: &mut Vec<u8>, x: u64)
    ensures
        final(out)@ == old(out)@ + u64_bytes(x),
{
    out.push((x % 256) as u8);
    out.push(((x / 0x100) % 256) as u8);
    out.push(((x / 0x1_0000) % 256) as u8);
    out.push(((x / 0x100_0000) % 256) as u8);
    out.push(((x / 0x1_0000_0000) % 256) as u8);
    out.push(((x / 0x100_0000_0000) % 256) as u8);
    out.push(((x / 0x1_0000_0000_0000) % 256) as u8);
    out.push((x / 0x100_0000_0000_0000) as u8);
    assert(out@ =~= old(out)@ + u64_bytes(x));
}

/// The little-endian `u32` held by the four bytes of `b` starting at `off`.
pub fn read_u32(b: &[u8], off: usize) -> (r: u32)
    requires
        off + 4 <= b@.len(),
    ensures
        r == le_u32(b@, off as int),
{
    b[off] as u32 + 256 * (b[off + 1] as u32) + 65536 * (b[off + 2] as u32) + 16777216 * (b[off
        + 3] as u32)
}

/// The little-endian `u64` held by the eight bytes of `b` starting at `off`.
pub fn read_u64(b: &[u8], off: usize) -> (r: u64)
    requires
        off + 8 <= b@.len(),
    ensures
        r == le_u64(b@, off as int),
{
    b[off] as u64 + 0x100 * (b[off + 1] as u64) + 0x1_0000 * (b[off + 2] as u64) + 0x100_0000 * (
    b[off + 3] as u64) + 0x1_0000_0000 * (b[off + 4] as u64) + 0x100_0000_0000 * (b[off
        + 5] as u64) + 0x1_0000_0000_0000 * (b[off + 6] as u64) + 0x100_0000_0000_0000 * (b[off
        + 7] as u64)
}

/// Appends the encoding of each value of `s`, in order, to `out`.
pub fn push_u32s(out: &mut Vec<u8>, s: &[u32])
    ensures
        final(out)@ == old(out)@ + u32s_bytes(s@),
{
    let mut i: usize = 0;
    while i < s.len()
        invariant
            i <= s@.len(),
            out@ == old(out)@ + u32s_bytes(s@.take(i as int)),
        decreases s@.len() - i,
    {
        let ghost before = out@;
        push_u32(out, s[i]);
        proof {
            let t0 = s@.take(i as int);
            let t1 = s@.take(i + 1);
            assert(u32s_bytes(t1) =~= u32s_bytes(t0) + u32_bytes(s@[i as int])) by {
                assert forall|j: int| 0 <= j < 4 * t1.len() implies #[trigger] u32s_bytes(t1)[j]
                    == (u32s_bytes(t0) + u32_bytes(s@[i as int]))[j] by {
                    if j < 4 * i {
                        assert(t1[j / 4] == t0[j / 4]);
                    } else {
                        assert(j / 4 == i);
                    }
                }
            }
            assert(out@ =~= old(out)@ + u32s_bytes(t1));
        }
        i = i + 1;
    }
    assert(s@.take(i as int) =~= s@);
}

/// Appends the encoding of each value of `s`, in order, to `out`.
pub fn push_u64s(out: &mut Vec<u8>, s: &[u64])
    ensures
        final(out)@ == old(out)@ + u64s_bytes(s@),
{
    let mut i: usize = 0;
    while i < s.len()
        invariant
            i <= s@.len(),
            out@ == old(out)@ + u64s_bytes(s@.take(i as int)),
        decreases s@.len() - i,
    {
        push_u64(out, s[i]);
        proof {
            let t0 = s@.take(i as int);
            let t1 = s@.take(i + 1);
            assert(u64s_bytes(t1) =~= u64s_bytes(t0) + u64_bytes(s@[i as int])) by {
                assert forall|j: int| 0 <= j < 8 * t1.len() implies #[trigger] u64s_bytes(t1)[j]
                    == (u64s_bytes(t0) + u64_bytes(s@[i as int]))[j] by {
                    if j < 8 * i {
                        assert(t1[j / 8] == t0[j / 8]);
                    } else {
                        assert(j / 8 == i);
                    }
                }
            }
            assert(out@ =~= old(out)@ + u64s_bytes(t1));
        }
        i = i + 1;
    }
    assert(s@.take(i as int) =~= s@);
}

/// The `n` little-endian `u32` values held by `b` from offset `off` on.
pub fn read_u32s(b: &[u8], off: usize, n: usize) -> (r: Vec<u32>)
    requires
        off + 4 * n <= b@.len(),
    ensures
        r@ == le_u32s(b@, off as int, n as int),
{
    let mut r: Vec<u32> = Vec::new();
    let len = b.len();
    let mut i: usize = 0;
    while i < n
        invariant
            i <= n,
            len == b@.len(),
            off + 4 * n <= b@.len(),
            r@ == le_u32s(b@, off as int, i as int),
        decreases n - i,
    {
        r.push(read_u32(b, off + 4 * i));
        assert(r@ =~= le_u32s(b@, off as int, i + 1));
        i = i + 1;
    }
    r
}

/// The `n` little-endian `u64` values held by `b` from offset `off` on.
pub fn read_u64s(b: &[u8], off: usize, n: usize) -> (r: Vec<u64>)
    requires
        off + 8 * n <= b@.len(),
    ensures
        r@ == le_u64s(b@, off as int, n as int),
{
    let mut r: Vec<u64> = Vec::new();
    let len = b.len();
    let mut i: usize = 0;
    while i < n
        invariant
            i <= n,
            len == b@.len(),
            off + 8 * n <= b@.len(),
            r@ == le_u64s(b@, off as int, i as int),
        decreases n - i,
    {
        r.push(read_u64(b, off + 8 * i));
        assert(r@ =~= le_u64s(b@, off as int, i + 1));
        i = i + 1;
    }
    r
}

} // verus!
