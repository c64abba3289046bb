use vstd::prelude::*;
use vstd::arithmetic::power2::{pow2, lemma_pow2_pos, lemma_pow2_adds, lemma2_to64};
use vstd::arithmetic::div_mod::{
    lemma_div_is_ordered, lemma_multiply_divide_lt, lemma_fundamental_div_mod_converse_div,
};
use vstd::bits::lemma_u32_shl_is_mul;
use crate::sample::Sample;

verus! {

/// Number of entries of the lookup table that an integer plane is mapped
/// through: one per value of the top eight bits of a sample.
pub const LUT_SIZE: usize = 256;

/// The lookup-table slot of a sample of `depth` bits: its value shifted right
/// by `depth - 8` bits, that is, the value of its top eight bits.
pub open spec fn lut_slot(value: nat, depth: nat) -> nat {
    value / pow2((depth - 8) as nat)
}

/// The largest sample value of `depth` bits.
pub open spec fn max_value_of_depth(depth: nat) -> int {
    pow2(depth) - 1
}

/// Every sample among the first `n` of `src` has a slot below `lut_len`.
pub open spec fn slots_fit<T: Sample>(n: nat, src: Seq<T>, lut_len: nat, depth: nat) -> bool {
    forall|i: int|
        0 <= i < n && i < src.len() ==> #[trigger] lut_slot(src[i].value(), depth) < lut_len
}

/// The number of samples that a row pass touches: a destination row and a
/// source row are walked side by side until either ends.
pub open spec fn row_span(dst_len: nat, src_len: nat) -> nat {
    if dst_len < src_len {
        dst_len
    } else {
        src_len
    }
}

/// `dst` after a row pass: each of its samples that has a source sample
/// beside it becomes the table entry at that source sample's slot; the rest
/// stay as they were.
pub open spec fn mapped_row<T: Sample>(dst: Seq<T>, src: Seq<T>, lut: Seq<T>, depth: nat) -> Seq<T> {
    Seq::new(
        dst.len(),
        |i: int|
            if i < src.len() {
                lut[lut_slot(src[i].value(), depth) as int]
            } else {
                dst[i]
            },
    )
}

/// Maps one row of an integer plane through `lut`: for every position that
/// both rows have, the destination sample becomes
/// `lut[src >> (depth - 8)]`.
pub fn apply_lut_row<T: Sample>(dst: &mut [T], src: &[T], lut: &[T], depth: u8)
    requires
        8 <= depth,
        depth - 8 < T::width(),
        slots_fit(old(dst)@.len(), src@, lut@.len(), depth as nat),
    ensures
        final(dst)@ == mapped_row(old(dst)@, src@, lut@, depth as nat),
        final(dst)@.len() == old(dst)@.len(),
        forall|i: int|
            0 <= i < old(dst)@.len() && i < src@.len() ==> #[trigger] final(dst)@[i] == lut@[(
            src@[i].value() / pow2((depth - 8) as nat)) as int],
        forall|i: int|
            src@.len() <= i < old(dst)@.len() ==> #[trigger] final(dst)@[i] == old(dst)@[i],
{
    let shift: u8 = depth - 8;
    let n: usize = if dst.len() < src.len() {
        dst.len()
    } else {
        src.len()
    };
    let mut i: usize = 0;
    while i < n
        invariant
            n == row_span(old(dst)@.len(), src@.len()),
            i <= n,
            shift == depth - 8,
            shift < T::width(),
            dst@.len() == old(dst)@.len(),
            slots_fit(old(dst)@.len(), src@, lut@.len(), depth as nat),
            forall|j: int|
                0 <= j < i ==> #[trigger] dst@[j] == lut@[lut_slot(src@[j].value(), depth as nat) as int],
            forall|j: int| i <= j < dst@.len() ==> #[trigger] dst@[j] == old(dst)@[j],
        decreases n - i,
    {
        let k: usize = src[i].shifted_index(shift);
        assert(lut_slot(src@[i as int].value(), depth as nat) < lut@.len());
        dst[i] = lut[k];
        i = i + 1;
    }
    assert(dst@ =~= mapped_row(old(dst)@, src@, lut@, depth as nat));
}


/// Why a row pass cannot run: the first of these that the pass would meet.
#[derive(Debug, Clone, Copy, PartialEq, Eq, Structural)]
pub enum RowFault {
    /// The depth is below eight bits, so `depth - 8` has no value.
    DepthBelowEight,
    /// `depth - 8` is not a valid shift amount for the sample type.
    ShiftTooWide,
    /// The sample at this position has a slot past the end of the table.
    SlotOutOfRange(usize),
}

/// The first position among the first `n` of `src` whose slot is not below
/// `lut_len`, if there is one.
pub fn first_slot_out_of_range<T: Sample>(n: usize, src: &[T], lut_len: usize, depth: u8) -> (r:
    Option<usize>)
    requires
        8 <= depth,
        depth - 8 < T::width(),
    ensures
        r is None <==> slots_fit(n as nat, src@, lut_len as nat, depth as nat),
        r is None <==> forall|i: int|
            0 <= i < n && i < src@.len() ==> #[trigger] (src@[i].value() / pow2(
                (depth - 8) as nat)) < lut_len,
        r matches Some(i) ==> src@[i as int].value() / pow2((depth - 8) as nat) >= lut_len,
        r matches Some(i) ==> {
            &&& i < n
            &&& i < src@.len()
            &&& lut_slot(src@[i as int].value(), depth as nat) >= lut_len
            &&& slots_fit(i as nat, src@, lut_len as nat, depth as nat)
        },
{
    let shift: u8 = depth - 8;
    let m: usize = if n < src.len() {
        n
    } else {
        src.len()
    };
    let mut i: usize = 0;
    while i < m
        invariant
            m as nat == row_span(n as nat, src@.len()),
            i <= m,
            shift == depth - 8,
            shift < T::width(),
            slots_fit(i as nat, src@, lut_len as nat, depth as nat),
        decreases m - i,
    {
        let k: usize = src[i].shifted_index(shift);
        if k >= lut_len {
            assert(!slots_fit(n as nat, src@, lut_len as nat, depth as nat)) by {
                assert(lut_slot(src@[i as int].value(), depth as nat) >= lut_len);
            }
            assert(src@[i as int].value() / pow2((depth - 8) as nat) >= lut_len);
            return Some(i);
        }
        i = i + 1;
    }
    assert forall|j: int| 0 <= j < n && j < src@.len() implies #[trigger] (src@[j].value() / pow2(
        (depth - 8) as nat)) < lut_len by {
        assert(lut_slot(src@[j].value(), depth as nat) < lut_len);
    }
    None
}

/// A row pass that tests first what [`apply_lut_row`] requires, and on
/// success maps the row as it does. On a fault the destination row is left
/// unchanged and the fault that the pass would meet first is returned. A
/// pass over an empty span touches nothing and cannot fault.
pub fn try_apply_lut_row<T: Sample>(dst: &mut [T], src: &[T], lut: &[T], depth: u8) -> (r: Result<
    (),
    RowFault,
>)
    ensures
        ({
            let n = row_span(old(dst)@.len(), src@.len());
            &&& r is Ok <==> (n == 0 || (8 <= depth && depth - 8 < T::width() && slots_fit(
                old(dst)@.len(),
                src@,
                lut@.len(),
                depth as nat,
            )))
            &&& r is Ok ==> final(dst)@ == mapped_row(old(dst)@, src@, lut@, depth as nat)
            &&& r is Err ==> final(dst)@ == old(dst)@
            &&& final(dst)@.len() == old(dst)@.len()
            &&& r is Ok ==> forall|i: int|
                0 <= i < old(dst)@.len() && i < src@.len() ==> #[trigger] final(dst)@[i] == lut@[(
                src@[i].value() / pow2((depth - 8) as nat)) as int]
            &&& r is Ok ==> forall|i: int|
                src@.len() <= i < old(dst)@.len() ==> #[trigger] final(dst)@[i] == old(dst)@[i]
            &&& r is Ok <==> (n == 0 || (8 <= depth && depth - 8 < T::width() && forall|i: int|
                0 <= i < old(dst)@.len() && i < src@.len() ==> #[trigger] (src@[i].value() / pow2(
                    (depth - 8) as nat)) < lut@.len()))
            &&& r == Err::<(), RowFault>(RowFault::DepthBelowEight) <==> (n > 0 && depth < 8)
            &&& r == Err::<(), RowFault>(RowFault::ShiftTooWide) <==> (n > 0 && 8 <= depth && depth
                - 8 >= T::width())
            &&& forall|i: usize|
                r == Err::<(), RowFault>(RowFault::SlotOutOfRange(i)) <==> {
                    &&& 8 <= depth
                    &&& depth - 8 < T::width()
                    &&& i < n
                    &&& lut_slot(src@[i as int].value(), depth as nat) >= lut@.len()
                    &&& slots_fit(i as nat, src@, lut@.len(), depth as nat)
                }
        }),
{
    let n: usize = if dst.len() < src.len() {
        dst.len()
    } else {
        src.len()
    };
    if n == 0 {
        proof {
            assert(dst@ =~= mapped_row(dst@, src@, lut@, depth as nat));
        }
        return Ok(());
    }
    if depth < 8 {
        return Err(RowFault::DepthBelowEight);
    }
    if depth - 8 >= T::bit_width() {
        return Err(RowFault::ShiftTooWide);
    }
    match first_slot_out_of_range(dst.len(), src, lut.len(), depth) {
        Some(i) => {
            proof {
                assert forall|j: usize|
                    j < n && lut_slot(src@[j as int].value(), depth as nat) >= lut@.len()
                        && slots_fit(j as nat, src@, lut@.len(), depth as nat) implies j == i by {
                    if j < i {
                        assert(lut_slot(src@[j as int].value(), depth as nat) < lut@.len());
                    } else if j > i {
                        assert(lut_slot(src@[i as int].value(), depth as nat) < lut@.len());
                    }
                }
            }
            Err(RowFault::SlotOutOfRange(i))
        },
        None => {
            apply_lut_row(dst, src, lut, depth);
            Ok(())
        },
    }
}

/// The largest sample value of `depth` bits, the scale of the table entries,
/// as `(1 << depth) - 1` computes it in `i32`; `None` where that arithmetic
/// overflows, from 31 bits up.
pub fn max_sample_value(depth: u8) -> (r: Option<i32>)
    ensures
        r is None <==> depth >= 31,
        r matches Some(v) ==> v == max_value_of_depth(depth as nat),
        r matches Some(v) ==> v + 1 == pow2(depth as nat),
{
    if depth >= 31 {
        return None;
    }
    let d: u32 = depth as u32;
    proof {
        lemma2_to64();
        if d < 30 {
            vstd::arithmetic::power2::lemma_pow2_strictly_increases(d as nat, 30);
        }
        lemma_u32_shl_is_mul(1, d);
    }
    let full: u32 = 1u32 << d;
    Some((full - 1) as i32)
}

/// The slot of a sample is its value shifted right by `depth - 8` bits: the
/// quotient by `2^(depth - 8)`, so the slot's block of values holds the
/// sample.
pub proof fn lemma_slot_is_shift(value: nat, depth: nat)
    requires
        8 <= depth,
    ensures
        lut_slot(value, depth) == value / pow2((depth - 8) as nat),
        lut_slot(value, depth) * pow2((depth - 8) as nat) <= value,
        value < (lut_slot(value, depth) + 1) * pow2((depth - 8) as nat),
{
    let p: int = pow2((depth - 8) as nat) as int;
    lemma_pow2_pos((depth - 8) as nat);
    vstd::arithmetic::div_mod::lemma_fundamental_div_mod(value as int, p);
    vstd::arithmetic::div_mod::lemma_mod_pos_bound(value as int, p);
    vstd::arithmetic::mul::lemma_mul_is_commutative(p, value as int / p);
    vstd::arithmetic::mul::lemma_mul_is_distributive_add_other_way(p, value as int / p, 1);
}

/// The largest sample value of a depth is one below two to the depth.
pub proof fn lemma_max_value_of_depth(depth: nat)
    ensures
        max_value_of_depth(depth) + 1 == pow2(depth),
{
}

/// A row pass over `dst` and `src` keeps the length of `dst`, writes at each
/// position that both rows have the table entry at the source sample shifted
/// right by `depth - 8`, and leaves the other positions alone; only the first
/// `min(len dst, len src)` positions are touched.
pub proof fn lemma_mapped_row_is_shifted_lookup<T: Sample>(
    dst: Seq<T>,
    src: Seq<T>,
    lut: Seq<T>,
    depth: nat,
)
    ensures
        mapped_row(dst, src, lut, depth).len() == dst.len(),
        forall|i: int|
            0 <= i < dst.len() && i < src.len() ==> #[trigger] mapped_row(dst, src, lut, depth)[i]
                == lut[(src[i].value() / pow2((depth - 8) as nat)) as int],
        forall|i: int|
            src.len() <= i < dst.len() ==> #[trigger] mapped_row(dst, src, lut, depth)[i]
                == dst[i],
        row_span(dst.len(), src.len()) == if dst.len() < src.len() {
            dst.len()
        } else {
            src.len()
        },
        slots_fit(dst.len(), src, lut.len(), depth) <==> forall|i: int|
            0 <= i < dst.len() && i < src.len() ==> #[trigger] (src[i].value() / pow2(
                (depth - 8) as nat)) < lut.len(),
{
    if slots_fit(dst.len(), src, lut.len(), depth) {
        assert forall|i: int| 0 <= i < dst.len() && i < src.len() implies #[trigger] (
        src[i].value() / pow2((depth - 8) as nat)) < lut.len() by {
            assert(lut_slot(src[i].value(), depth) < lut.len());
        }
    }
}

/// A sample that fits in `depth` bits has a slot inside a table of
/// [`LUT_SIZE`] entries.
pub proof fn lemma_slot_below_lut_size(value: nat, depth: nat)
    requires
        8 <= depth,
        value < pow2(depth),
    ensures
        lut_slot(value, depth) < LUT_SIZE,
{
    let s: nat = (depth - 8) as nat;
    lemma_pow2_adds(s, 8);
    lemma2_to64();
    lemma_pow2_pos(s);
    assert(pow2(depth) == pow2(s) * 256);
    lemma_multiply_divide_lt(value as int, pow2(s) as int, 256);
}

/// When every sample of a row fits in `depth` bits, a full table of
/// [`LUT_SIZE`] entries covers the whole row: a row pass never indexes past
/// its end.
pub proof fn lemma_depth_samples_fit_full_lut<T: Sample>(n: nat, src: Seq<T>, depth: nat)
    requires
        8 <= depth,
        forall|i: int| 0 <= i < src.len() ==> #[trigger] src[i].value() < pow2(depth),
    ensures
        slots_fit(n, src, LUT_SIZE as nat, depth),
{
    assert forall|i: int| 0 <= i < n && i < src.len() implies #[trigger] lut_slot(
        src[i].value(),
        depth,
    ) < LUT_SIZE by {
        lemma_slot_below_lut_size(src[i].value(), depth);
    }
}

/// A brighter sample never has a lower slot.
pub proof fn lemma_slot_monotone(a: nat, b: nat, depth: nat)
    requires
        a <= b,
    ensures
        lut_slot(a, depth) <= lut_slot(b, depth),
{
    lemma_pow2_pos((depth - 8) as nat);
    lemma_div_is_ordered(a as int, b as int, pow2((depth - 8) as nat) as int);
}

/// At eight bits a sample is its own slot.
pub proof fn lemma_slot_at_eight_bits(value: nat)
    ensures
        lut_slot(value, 8) == value,
{
    lemma2_to64();
    assert(((8 - 8) as nat) == 0nat);
    assert(pow2(0) == 1);
    assert(value as int / 1 == value);
}

/// Black has the first slot and the largest value of the depth has the last.
pub proof fn lemma_slot_extremes(depth: nat)
    requires
        8 <= depth,
    ensures
        lut_slot(0, depth) == 0,
        lut_slot(max_value_of_depth(depth) as nat, depth) == LUT_SIZE - 1,
{
    let s: nat = (depth - 8) as nat;
    let p: int = pow2(s) as int;
    lemma_pow2_adds(s, 8);
    lemma2_to64();
    lemma_pow2_pos(s);
    assert(pow2(depth) == p * 256);
    assert(0int / p == 0);
    lemma_fundamental_div_mod_converse_div(pow2(depth) - 1, p, 255, p - 1);
}

/// A table that does not increase with its index gives a row pass that does
/// not increase with the source samples: of two positions in the span, the
/// one with the brighter source sample gets the dimmer or equal output.
pub proof fn lemma_mapped_row_antitone<T: Sample>(
    dst: Seq<T>,
    src: Seq<T>,
    lut: Seq<T>,
    depth: nat,
    i: int,
    j: int,
)
    requires
        0 <= i < row_span(dst.len(), src.len()),
        0 <= j < row_span(dst.len(), src.len()),
        src[i].value() <= src[j].value(),
        slots_fit(dst.len(), src, lut.len(), depth),
        forall|a: int, b: int|
            0 <= a <= b < lut.len() ==> #[trigger] lut[b].value() <= #[trigger] lut[a].value(),
    ensures
        mapped_row(dst, src, lut, depth)[j].value() <= mapped_row(dst, src, lut, depth)[i].value(),
{
    lemma_slot_monotone(src[i].value(), src[j].value(), depth);
    assert(lut_slot(src[i].value(), depth) < lut.len());
    assert(lut_slot(src[j].value(), depth) < lut.len());
    let a: int = lut_slot(src[i].value(), depth) as int;
    let b: int = lut_slot(src[j].value(), depth) as int;
    assert(lut[b].value() <= lut[a].value());
}

/// When every table entry is at most `bound`, every sample that a row pass
/// writes is at most `bound` too: a table scaled to the depth keeps the mask
/// inside the depth.
pub proof fn lemma_mapped_row_bounded<T: Sample>(
    dst: Seq<T>,
    src: Seq<T>,
    lut: Seq<T>,
    depth: nat,
    bound: nat,
)
    requires
        slots_fit(dst.len(), src, lut.len(), depth),
        forall|k: int| 0 <= k < lut.len() ==> #[trigger] lut[k].value() <= bound,
    ensures
        forall|i: int|
            0 <= i < row_span(dst.len(), src.len()) ==> #[trigger] mapped_row(
                dst,
                src,
                lut,
                depth,
            )[i].value() <= bound,
{
    assert forall|i: int| 0 <= i < row_span(dst.len(), src.len()) implies #[trigger] mapped_row(
        dst,
        src,
        lut,
        depth,
    )[i].value() <= bound by {
        assert(lut_slot(src[i].value(), depth) < lut.len());
    }
}

/// Two source samples with the same top eight bits get the same output.
pub proof fn lemma_mapped_row_same_slot<T: Sample>(
    dst: Seq<T>,
    src: Seq<T>,
    lut: Seq<T>,
    depth: nat,
    i: int,
    j: int,
)
    requires
        0 <= i < row_span(dst.len(), src.len()),
        0 <= j < row_span(dst.len(), src.len()),
        lut_slot(src[i].value(), depth) == lut_slot(src[j].value(), depth),
    ensures
        mapped_row(dst, src, lut, depth)[i] == mapped_row(dst, src, lut, depth)[j],
{
}

} // verus!
