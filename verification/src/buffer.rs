//! Byte-buffer helpers: reading a sub-range out of a buffer and splicing a
//! segment into one, with their mathematical counterparts.

use vstd::prelude::*;

verus! {

/// The bytes of `m` in `[addr, addr + len)`.
pub open spec fn spec_read_range(m: Seq<u8>, addr: int, len: int) -> Seq<u8>
    recommends
        0 <= addr,
        0 <= len,
        addr + len <= m.len(),
{
    m.subrange(addr, addr + len)
}

/// `m` with `data` written at `addr`; bytes outside the written range keep
/// their old value.
pub open spec fn spec_write_bytes(m: Seq<u8>, addr: int, data: Seq<u8>) -> Seq<u8> {
    Seq::new(m.len(), |i: int| if addr <= i < addr + data.len() { data[i - addr] } else { m[i] })
}

/// Law (round trip): reading `len` bytes at `a` right after writing
/// `bytes` at `a` returns a prefix of `bytes`, whatever the memory held
/// before. Together with the contracts of the cached read and write
/// paths, which pin their results to `spec_read_range` and
/// `spec_write_bytes` of the connector bytes, this covers a physical
/// write followed by a read with no other write in between.
pub proof fn lemma_write_read_roundtrip(m: Seq<u8>, a: int, bytes: Seq<u8>, len: int)
    requires
        0 <= a,
        0 <= len <= bytes.len(),
        a + bytes.len() <= m.len(),
    ensures
        spec_read_range(spec_write_bytes(m, a, bytes), a, len) == bytes.take(len),
{
    assert(spec_read_range(spec_write_bytes(m, a, bytes), a, len) =~= bytes.take(len));
}

/// A fresh vector holding `src[start .. start + len]`.
pub fn subvec(src: &Vec<u8>, start: usize, len: usize) -> (r: Vec<u8>)
    requires
        start + len <= src@.len(),
    ensures
        r@ == spec_read_range(src@, start as int, len as int),
{
    let n = src.len();
    let mut r: Vec<u8> = Vec::new();
    let mut j: usize = 0;
    while j < len
        invariant
            start + len <= n,
            n == src@.len(),
            j <= len,
            r@ == src@.subrange(start as int, start + j),
        decreases len - j,
    {
        r.push(src[start + j]);
        proof {
            assert(r@ =~= src@.subrange(start as int, start + j + 1));
        }
        j = j + 1;
    }
    r
}

/// Copies `len` bytes from `src[src_off ..]` into `dst[dst_off ..]`,
/// leaving the rest of `dst` unchanged.
pub fn copy_block(dst: &mut Vec<u8>, dst_off: usize, src: &Vec<u8>, src_off: usize, len: usize)
    requires
        dst_off + len <= old(dst)@.len(),
        src_off + len <= src@.len(),
    ensures
        final(dst)@ == spec_write_bytes(
            old(dst)@,
            dst_off as int,
            spec_read_range(src@, src_off as int, len as int),
        ),
{
    let nd = dst.len();
    let ns = src.len();
    let mut j: usize = 0;
    while j < len
        invariant
            dst_off + len <= nd,
            src_off + len <= ns,
            nd == old(dst)@.len(),
            ns == src@.len(),
            j <= len,
            dst@.len() == old(dst)@.len(),
            forall|i: int|
                0 <= i < dst@.len() ==> dst@[i] == if dst_off <= i < dst_off + j {
                    src@[i - dst_off + src_off]
                } else {
                    old(dst)@[i]
                },
        decreases len - j,
    {
        let b = src[src_off + j];
        dst[dst_off + j] = b;
        j = j + 1;
    }
    proof {
        assert(dst@ =~= spec_write_bytes(
            old(dst)@,
            dst_off as int,
            spec_read_range(src@, src_off as int, len as int),
        ));
    }
}

/// A vector of `len` zero bytes.
pub fn zero_vec(len: usize) -> (r: Vec<u8>)
    ensures
        r@ == Seq::new(len as nat, |i: int| 0u8),
{
    let mut r: Vec<u8> = Vec::new();
    let mut j: usize = 0;
    while j < len
        invariant
            j <= len,
            r@ == Seq::new(j as nat, |i: int| 0u8),
        decreases len - j,
    {
        r.push(0u8);
        proof {
            assert(r@ =~= Seq::new((j + 1) as nat, |i: int| 0u8));
        }
        j = j + 1;
    }
    r
}

} // verus!
