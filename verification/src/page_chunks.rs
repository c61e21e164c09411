//! The page-chunk splitter: cuts an arbitrary span of bytes into sub-spans
//! that each lie entirely within one page.
//!
//! The first and last sub-span may be shorter than a page; all inner
//! boundaries fall exactly on page boundaries.

use vstd::prelude::*;
use vstd::arithmetic::div_mod::{
    lemma_fundamental_div_mod, lemma_fundamental_div_mod_converse,
    lemma_mod_add_multiples_vanish, lemma_mod_division_less_than_divisor,
    lemma_mod_multiples_basic,
};
use crate::types::spec_align_down;

verus! {

/// One sub-span produced by the splitter: `len` bytes of the original
/// buffer starting at buffer offset `offset`, covering addresses
/// `[addr, addr + len)`.
#[derive(Clone, Copy, Debug, PartialEq, Eq, Structural)]
pub struct PageChunk {
    /// First address covered by the sub-span.
    pub addr: u64,
    /// Offset of the sub-span inside the original buffer.
    pub offset: usize,
    /// Length of the sub-span in bytes.
    pub len: usize,
}

/// All chunks lie inside the buffer, are non-empty, follow each other
/// without gaps, and each lies within a single page; every inner boundary
/// is a page boundary. Chunk addresses strictly increase because each
/// chunk starts exactly where the previous one ended.
pub open spec fn chunks_wf(r: Seq<PageChunk>, start: u64, len: usize, page_size: u64) -> bool {
    &&& (forall|i: int|
        0 <= i < r.len() ==> {
            &&& (#[trigger] r[i]).len > 0
            &&& r[i].addr == start + r[i].offset
            &&& r[i].offset + r[i].len <= len
            &&& spec_align_down(r[i].addr, page_size) == spec_align_down(
                (r[i].addr + r[i].len - 1) as u64,
                page_size,
            )
        })
    &&& (forall|i: int|
        0 < i < r.len() ==> (#[trigger] r[i]).offset == r[i - 1].offset + r[i - 1].len)
    &&& (forall|i: int| 0 < i < r.len() ==> (#[trigger] r[i]).addr as int % page_size as int == 0)
    &&& (forall|i: int|
        0 <= i < r.len() - 1 ==> ((#[trigger] r[i]).addr + r[i].len) as int % page_size as int
            == 0)
    &&& (len == 0 ==> r.len() == 0)
    &&& (len > 0 ==> {
        &&& r.len() > 0
        &&& r[0].offset == 0
        &&& r[r.len() - 1].offset + r[r.len() - 1].len == len
    })
}

/// The start of the page holding `a` is a multiple of the page size, and so
/// is the start of the next page.
proof fn lemma_page_start_divides(a: int, ps: int)
    requires
        ps > 0,
    ensures
        (a - a % ps) % ps == 0,
        (a - a % ps + ps) % ps == 0,
{
    lemma_fundamental_div_mod(a, ps);
    assert(a == ps * (a / ps) + a % ps);
    assert(a - a % ps == (a / ps) * ps) by {
        vstd::arithmetic::mul::lemma_mul_is_commutative(ps, a / ps);
    }
    lemma_mod_multiples_basic(a / ps, ps);
    lemma_mod_add_multiples_vanish(a - a % ps, ps);
}

/// Two addresses in the same page align down to the same page start.
pub proof fn lemma_align_same_page(a: u64, x: u64, ps: u64)
    requires
        ps > 0,
        a <= x,
        x < (a as int) - (a as int) % (ps as int) + ps,
    ensures
        spec_align_down(x, ps) == spec_align_down(a, ps),
{
    let psi = ps as int;
    let ai = a as int;
    let xi = x as int;
    lemma_fundamental_div_mod(ai, psi);
    lemma_mod_division_less_than_divisor(ai, psi);
    let p = ai - ai % psi;
    assert(xi == (ai / psi) * psi + (xi - p)) by {
        vstd::arithmetic::mul::lemma_mul_is_commutative(ai / psi, psi);
    }
    lemma_fundamental_div_mod_converse(xi, psi, ai / psi, xi - p);
}

/// Every buffer offset below `len` is covered by some chunk, starting the
/// search at chunk `k` whose offset is not past `o`.
proof fn lemma_chunks_cover_from(r: Seq<PageChunk>, start: u64, len: usize, page_size: u64, o: int, k: int)
    requires
        chunks_wf(r, start, len, page_size),
        0 <= o < len,
        0 <= k < r.len(),
        r[k].offset <= o,
    ensures
        exists|j: int|
            0 <= j < r.len() && (#[trigger] r[j]).offset <= o < r[j].offset + r[j].len,
    decreases r.len() - k,
{
    if o < r[k].offset + r[k].len {
        assert(r[k].offset <= o < r[k].offset + r[k].len);
    } else {
        assert(k + 1 < r.len()) by {
            if k == r.len() - 1 {
                assert(r[k].offset + r[k].len == len);
            }
        }
        assert(r[k + 1].offset == r[k].offset + r[k].len);
        lemma_chunks_cover_from(r, start, len, page_size, o, k + 1);
    }
}

/// Every buffer offset below `len` is covered by some chunk.
pub proof fn lemma_chunks_cover(r: Seq<PageChunk>, start: u64, len: usize, page_size: u64, o: int)
    requires
        chunks_wf(r, start, len, page_size),
        0 <= o < len,
    ensures
        exists|j: int|
            0 <= j < r.len() && (#[trigger] r[j]).offset <= o < r[j].offset + r[j].len,
{
    lemma_chunks_cover_from(r, start, len, page_size, o, 0);
}

/// Every address inside a chunk aligns down to the chunk's page.
pub proof fn lemma_chunk_page(r: Seq<PageChunk>, start: u64, len: usize, page_size: u64, j: int, y: u64)
    requires
        page_size > 0,
        start + len <= u64::MAX,
        chunks_wf(r, start, len, page_size),
        0 <= j < r.len(),
        r[j].addr <= y,
        y < r[j].addr + r[j].len,
    ensures
        spec_align_down(y, page_size) == spec_align_down(r[j].addr, page_size),
{
    let a = r[j].addr;
    let last = (a + r[j].len - 1) as u64;
    assert(a + r[j].len - 1 <= u64::MAX);
    crate::types::lemma_align_down(a, page_size);
    crate::types::lemma_align_down(last, page_size);
    crate::types::lemma_align_down_monotonic(a, y, page_size);
    crate::types::lemma_align_down_monotonic(y, last, page_size);
}

/// The chunks of the span `[start + offset, start + offset + rem)`,
/// continuing a split whose earlier chunks already cover `offset` bytes:
/// the mathematical value `chunk_ranges` computes.
pub open spec fn spec_chunks_from(start: u64, offset: int, rem: int, ps: u64) -> Seq<PageChunk>
    decreases rem,
{
    if rem <= 0 || ps == 0 {
        Seq::empty()
    } else {
        let page_rem = (ps as int) - ((start as int) % (ps as int));
        let step = if rem < page_rem {
            rem
        } else {
            page_rem
        };
        if step <= 0 {
            Seq::empty()
        } else {
            seq![PageChunk { addr: start, offset: offset as usize, len: step as usize }]
                + spec_chunks_from((start + step) as u64, offset + step, rem - step, ps)
        }
    }
}

/// The per-page chunks of the span `[start, start + len)`.
pub open spec fn spec_chunks(start: u64, len: int, ps: u64) -> Seq<PageChunk> {
    spec_chunks_from(start, 0, len, ps)
}

/// One step of the mathematical split: the first chunk reaches the page
/// boundary or the end of the span, and the rest continues behind it.
proof fn lemma_chunks_from_step(start: u64, offset: int, rem: int, ps: u64, step: int)
    requires
        ps > 0,
        0 < rem,
        start + rem <= u64::MAX,
        step == if rem < (ps as int) - ((start as int) % (ps as int)) {
            rem
        } else {
            (ps as int) - ((start as int) % (ps as int))
        },
    ensures
        0 < step <= rem,
        spec_chunks_from(start, offset, rem, ps) == seq![
            PageChunk { addr: start, offset: offset as usize, len: step as usize },
        ] + spec_chunks_from((start + step) as u64, offset + step, rem - step, ps),
{
    lemma_mod_division_less_than_divisor(start as int, ps as int);
}

/// Splits the span `[start, start + len)` into per-page chunks: exactly
/// the chunks of `spec_chunks`.
///
/// The chunks partition the buffer `[0, len)` in order without gaps or
/// overlaps, each chunk lies within one page, and chunk addresses strictly
/// increase.
#[verifier::rlimit(100)]
#[verifier::spinoff_prover]
pub fn chunk_ranges(start: u64, len: usize, page_size: u64) -> (r: Vec<PageChunk>)
    requires
        page_size > 0,
        start + len <= u64::MAX,
    ensures
        chunks_wf(r@, start, len, page_size),
        r@ == spec_chunks(start, len as int, page_size),
{
    let mut r: Vec<PageChunk> = Vec::new();
    let mut offset: usize = 0;
    while offset < len
        invariant
            page_size > 0,
            start + len <= u64::MAX,
            offset <= len,
            forall|i: int|
                0 <= i < r@.len() ==> {
                    &&& (#[trigger] r@[i]).len > 0
                    &&& r@[i].addr == start + r@[i].offset
                    &&& r@[i].offset + r@[i].len <= len
                    &&& spec_align_down(r@[i].addr, page_size) == spec_align_down(
                        (r@[i].addr + r@[i].len - 1) as u64,
                        page_size,
                    )
                },
            forall|i: int|
                0 < i < r@.len() ==> (#[trigger] r@[i]).offset == r@[i - 1].offset + r@[i
                    - 1].len,
            forall|i: int|
                0 < i < r@.len() ==> (#[trigger] r@[i]).addr as int % page_size as int == 0,
            forall|i: int|
                0 <= i < r@.len() - 1 ==> ((#[trigger] r@[i]).addr + r@[i].len) as int
                    % page_size as int == 0,
            r@.len() == 0 ==> offset == 0,
            r@.len() > 0 ==> r@[0].offset == 0,
            r@.len() > 0 ==> r@[r@.len() - 1].offset + r@[r@.len() - 1].len == offset,
            r@.len() > 0 ==> offset > 0,
            r@.len() > 0 ==> ((start + offset) as int % page_size as int == 0 || offset == len),
            spec_chunks(start, len as int, page_size) == r@ + spec_chunks_from(
                (start + offset) as u64,
                offset as int,
                len - offset,
                page_size,
            ),
        decreases len - offset,
    {
        let addr: u64 = start + offset as u64;
        proof {
            lemma_mod_division_less_than_divisor(addr as int, page_size as int);
        }
        let page_rem: u64 = page_size - addr % page_size;
        let rest: u64 = (len - offset) as u64;
        let step_u64: u64 = if rest < page_rem {
            rest
        } else {
            page_rem
        };
        let step: usize = step_u64 as usize;
        proof {
            lemma_align_same_page(addr, (addr + step - 1) as u64, page_size);
            if step_u64 == page_rem {
                lemma_page_start_divides(addr as int, page_size as int);
            }
            // The loop takes exactly the step the mathematical split
            // takes.
            lemma_chunks_from_step(addr, offset as int, len - offset, page_size, step as int);
            assert((r@ + seq![PageChunk { addr, offset, len: step }]) + spec_chunks_from(
                (addr + step) as u64,
                offset + step,
                len - (offset + step),
                page_size,
            ) =~= r@ + (seq![PageChunk { addr, offset, len: step }] + spec_chunks_from(
                (addr + step) as u64,
                offset + step,
                len - (offset + step),
                page_size,
            )));
        }
        r.push(PageChunk { addr, offset, len: step });
        offset = offset + step;
    }
    proof {
        assert(r@ + spec_chunks_from((start + offset) as u64, offset as int, 0, page_size)
            =~= r@);
    }
    r
}

} // verus!
