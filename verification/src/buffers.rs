//! Sizes of GPU buffers and where each entity's instances sit in them.

use vstd::prelude::*;

verus! {

/// `n` rounded up to a multiple of `align`.
pub fn align_up(n: u64, align: u64) -> (r: u64)
    requires
        align > 0,
        (n + align - 1) / (align as int) * align <= u64::MAX,
    ensures
        r == (n + align - 1) / (align as int) * align,
        r >= n,
        r % align == 0,
        r < n + align,
{
    let q = n / align;
    let rem = n % align;
    assert(rem != 0 ==> q < u64::MAX) by (nonlinear_arith)
        requires
            align > 0,
            q == n / align,
            rem == n % align,
    ;
    let c = if rem == 0 {
        q
    } else {
        q + 1
    };
    proof {
        assert(c == (n + align - 1) / (align as int)) by (nonlinear_arith)
            requires
                align > 0,
                q == n / align,
                rem == n % align,
                rem == 0 ==> c == q,
                rem != 0 ==> c == q + 1,
        ;
        assert(c * align >= n && c * align < n + align && (c * align) % (align as int) == 0) by (nonlinear_arith)
            requires
                align > 0,
                q == n / align,
                rem == n % align,
                rem == 0 ==> c == q,
                rem != 0 ==> c == q + 1,
        ;
    }
    c * align
}

/// `2^k`.
pub open spec fn two_pow(k: nat) -> nat
    decreases k,
{
    if k == 0 {
        1
    } else {
        2 * two_pow((k - 1) as nat)
    }
}

/// `p` is the smallest power of two that is at least `x`.
pub open spec fn least_pow2_at_least(p: int, x: int) -> bool {
    exists|k: nat| p == #[trigger] two_pow(k) && p >= x && (k == 0 || two_pow((k - 1) as nat) < x)
}

/// The capacity of a GPU buffer that must hold `needed` items: unchanged
/// while it suffices; otherwise the smallest power of two that holds twice
/// as many, but at least `floor`.
pub open spec fn grown_capacity_spec(capacity: int, needed: int, floor: int, grown: int) -> bool {
    if needed <= capacity {
        grown == capacity
    } else {
        exists|p: int| #[trigger] least_pow2_at_least(p, 2 * needed) && grown == (if p < floor {
            floor
        } else {
            p
        })
    }
}

/// The new capacity of a buffer (see `grown_capacity_spec`).
pub fn grown_capacity(capacity: usize, needed: usize, floor: usize) -> (r: usize)
    requires
        4 * needed <= usize::MAX,
    ensures
        grown_capacity_spec(capacity as int, needed as int, floor as int, r as int),
        r >= needed,
{
    if needed <= capacity {
        return capacity;
    }
    let target = 2 * needed;
    let mut p: usize = 1;
    let ghost mut k: nat = 0;
    while p < target
        invariant
            4 * needed <= usize::MAX,
            target == 2 * needed,
            p == two_pow(k),
            p >= 1,
            k == 0 || two_pow((k - 1) as nat) < target,
            p <= 2 * target,
        decreases 2 * target - p,
    {
        p = 2 * p;
        proof {
            k = k + 1;
        }
    }
    proof {
        assert(least_pow2_at_least(p as int, target as int));
    }
    if p < floor {
        floor
    } else {
        p
    }
}

/// Where one entity's instances sit in a pass's instance buffer, and the
/// dynamic offset of its transform slot.
#[derive(Clone, Copy, Debug, PartialEq, Eq, Structural)]
pub struct DrawSlice {
    pub instance_offset: u32,
    pub instance_count: u32,
    pub transform_dyn_offset: u32,
}

/// The sum of `counts[0..n]`.
pub open spec fn prefix_sum(counts: Seq<u32>, n: int) -> int
    decreases n,
{
    if n <= 0 {
        0
    } else {
        prefix_sum(counts, n - 1) + counts[n - 1]
    }
}

proof fn lemma_prefix_sum_mono(counts: Seq<u32>, a: int, b: int)
    requires
        0 <= a <= b <= counts.len(),
    ensures
        prefix_sum(counts, a) <= prefix_sum(counts, b),
    decreases b - a,
{
    if a < b {
        lemma_prefix_sum_mono(counts, a, b - 1);
    }
}

/// Lay out the draws of a pass: entity `i` (of `counts[i]` instances) gets
/// the instances after those of the entities before it, and transform slot
/// `i` of `slot_size` bytes.
pub fn plan_draw_slices(counts: &Vec<u32>, slot_size: u32) -> (r: Vec<DrawSlice>)
    requires
        prefix_sum(counts@, counts@.len() as int) <= u32::MAX,
        counts@.len() * slot_size <= u32::MAX,
    ensures
        r@.len() == counts@.len(),
        forall|i: int|
            0 <= i < counts@.len() ==> {
                &&& (#[trigger] r@[i]).instance_offset == prefix_sum(counts@, i)
                &&& r@[i].instance_count == counts@[i]
                &&& r@[i].transform_dyn_offset == i * slot_size
            },
{
    let mut out: Vec<DrawSlice> = Vec::new();
    let mut offset: u32 = 0;
    let mut i: usize = 0;
    while i < counts.len()
        invariant
            i <= counts@.len(),
            prefix_sum(counts@, counts@.len() as int) <= u32::MAX,
            counts@.len() * slot_size <= u32::MAX,
            offset == prefix_sum(counts@, i as int),
            out@.len() == i,
            forall|j: int|
                0 <= j < i ==> {
                    &&& (#[trigger] out@[j]).instance_offset == prefix_sum(counts@, j)
                    &&& out@[j].instance_count == counts@[j]
                    &&& out@[j].transform_dyn_offset == j * slot_size
                },
        decreases counts@.len() - i,
    {
        proof {
            lemma_prefix_sum_mono(counts@, i + 1, counts@.len() as int);
            assert(i * slot_size <= counts@.len() * slot_size) by (nonlinear_arith)
                requires
                    i < counts@.len(),
            ;
        }
        let dyn_offset = ((i as u64) * (slot_size as u64)) as u32;
        out.push(DrawSlice { instance_offset: offset, instance_count: counts[i], transform_dyn_offset: dyn_offset });
        offset = offset + counts[i];
        i = i + 1;
    }
    out
}

} // verus!
