//! Index arithmetic on the flat layout of an append-only binary hash tree.
//!
//! Nodes are numbered from zero; a node's height is the number of trailing
//! one-bits of its index.

use vstd::prelude::*;
use vstd::arithmetic::power2::{pow2, lemma_pow2_pos, lemma_pow2_unfold, lemma_pow2_strictly_increases, lemma2_to64, lemma2_to64_rest};
use vstd::bits::lemma_u64_shl_is_mul;
use vstd::bits::lemma_u64_pow2_no_overflow;

verus! {

/// A position in the flat layout, with the digest and the size stored there.
#[derive(Clone, Debug)]
pub struct Node {
    pub index: u64,
    pub hash: [u8; 32],
    pub size: u64,
}

/// The number of one-bits at the low end of `n`.
pub open spec fn trailing_ones(n: nat) -> nat
    decreases n,
{
    if n % 2 == 1 {
        1 + trailing_ones(n / 2)
    } else {
        0
    }
}

/// The margin kept free to the right of a node at `height`: the sum of
/// `2^i` for `i` below `height`.
pub open spec fn furthest_leaf(height: nat) -> int {
    if height == 0 {
        0
    } else {
        pow2(height) - 1
    }
}

/// The rightmost index at `height` in a tree bounded by `max_index`.
///
/// At height 0 it is the bound itself. Above, candidates start at
/// `2^height - 1` and lie `2^(height+1)` apart; the first one is taken as
/// soon as the bound lies beyond it, each later one only if the margin
/// `furthest_leaf(height)` still fits under the bound.
pub open spec fn top_index(height: nat, max_index: nat) -> Option<int> {
    let offset = pow2(height) - 1;
    let interval = pow2(height + 1) as int;
    if height == 0 {
        Some(max_index as int)
    } else if max_index <= offset {
        None
    } else if max_index < 2 * offset {
        Some(offset)
    } else {
        Some(offset + interval * ((max_index - 2 * offset) / interval))
    }
}

/// Whether `top_index_at_height` can be computed in 64 bits: the interval
/// is representable, and the last candidate that is examined, moved on by
/// one interval and the margin, is too.
pub open spec fn index_fits(height: nat, max_index: nat) -> bool {
    &&& height < 63
    &&& max_index > pow2(height) - 1 ==> top_index(height, max_index).unwrap() + pow2(height + 1)
        + furthest_leaf(height) <= u64::MAX
}

/// Whether `height` is the greatest one at which a tree bounded by
/// `max_index` can have a peak: `2^(height+1) - 2 <= max_index`, and the
/// next height fails this.
pub open spec fn is_highest_peak(height: nat, max_index: nat) -> bool {
    pow2(height + 1) <= max_index + 2 < pow2(height + 2)
}

/// The greatest height at which a tree bounded by `max_index` can have a peak.
pub open spec fn highest_peak(max_index: nat) -> nat {
    choose|height: nat| is_highest_peak(height, max_index)
}

/// The peaks at the heights below `heights`, lowest first: a height
/// contributes its top index where that exists and is even.
pub open spec fn peaks_below(heights: nat, max_index: nat) -> Seq<u64>
    decreases heights,
{
    if heights == 0 {
        Seq::empty()
    } else {
        let lower = peaks_below((heights - 1) as nat, max_index);
        match top_index((heights - 1) as nat, max_index) {
            Some(index) => if index % 2 == 0 {
                lower.push(index as u64)
            } else {
                lower
            },
            None => lower,
        }
    }
}

/// The indices whose hashes are combined into the root of a tree bounded
/// by `max_index`.
pub open spec fn peak_indices(max_index: nat) -> Seq<u64> {
    peaks_below(highest_peak(max_index) + 1, max_index)
}

/// Whether every height up to the highest peak can be examined in 64 bits.
pub open spec fn peaks_fit(max_index: nat) -> bool {
    forall|height: nat| height <= highest_peak(max_index) ==> index_fits(height, max_index)
}

/// No two heights are the highest peak of one bound.
pub proof fn lemma_highest_peak_unique(first: nat, second: nat, max_index: nat)
    requires
        is_highest_peak(first, max_index),
        is_highest_peak(second, max_index),
    ensures
        first == second,
        highest_peak(max_index) == first,
{
    if first < second {
        if first + 2 < second + 1 {
            lemma_pow2_strictly_increases(first + 2, second + 1);
        }
    }
    if second < first {
        if second + 2 < first + 1 {
            lemma_pow2_strictly_increases(second + 2, first + 1);
        }
    }
    let chosen = highest_peak(max_index);
    if chosen < first {
        if chosen + 2 < first + 1 {
            lemma_pow2_strictly_increases(chosen + 2, first + 1);
        }
    }
    if first < chosen {
        if first + 2 < chosen + 1 {
            lemma_pow2_strictly_increases(first + 2, chosen + 1);
        }
    }
}

/// Every bound has a highest peak.
pub proof fn lemma_highest_peak_exists(max_index: nat)
    ensures
        is_highest_peak(highest_peak(max_index), max_index),
{
    lemma2_to64();
    lemma_peak_exists_from(0, max_index);
}

proof fn lemma_peak_exists_from(height: nat, max_index: nat)
    requires
        pow2(height + 1) <= max_index + 2,
    ensures
        exists|found: nat| is_highest_peak(found, max_index),
    decreases max_index + 2 - pow2(height + 1),
{
    if max_index + 2 < pow2(height + 2) {
        assert(is_highest_peak(height, max_index));
    } else {
        lemma_pow2_strictly_increases(height + 1, height + 2);
        lemma_peak_exists_from(height + 1, max_index);
    }
}

/// A top index does not lie beyond the bound.
pub proof fn lemma_top_index_within_bound(height: nat, max_index: nat)
    ensures
        match top_index(height, max_index) {
            Some(index) => 0 <= index <= max_index,
            None => true,
        },
{
    lemma_pow2_pos(height);
    lemma_pow2_pos(height + 1);
    let offset = pow2(height) - 1;
    if height > 0 && max_index >= 2 * offset {
        lemma_quotient_bounds(max_index - 2 * offset, pow2(height + 1) as int);
    }
}

/// The peaks of a tree whose greatest index is below `2^62` can be
/// computed in 64 bits.
pub proof fn lemma_peaks_fit(max_index: u64)
    requires
        max_index < 0x4000_0000_0000_0000,
    ensures
        peaks_fit(max_index as nat),
{
    let highest = highest_peak(max_index as nat);
    lemma_highest_peak_exists(max_index as nat);
    lemma2_to64();
    lemma2_to64_rest();
    assert forall|height: nat| height <= highest implies index_fits(height, max_index as nat) by {
        if height < highest {
            lemma_pow2_strictly_increases(height + 1, highest + 1);
        }
        if height + 1 > 62 {
            lemma_pow2_strictly_increases(62, height + 1);
        }
        lemma_pow2_unfold(height + 1);
        lemma_top_index_within_bound(height, max_index as nat);
    }
}

/// `2^exponent`, by a shift.
fn power_of_two(exponent: u64) -> (power: u64)
    requires
        exponent < 64,
    ensures
        power == pow2(exponent as nat),
        power >= 1,
{
    proof {
        lemma_u64_pow2_no_overflow(exponent as nat);
        lemma_u64_shl_is_mul(1u64, exponent);
        lemma_pow2_pos(exponent as nat);
    }
    1u64 << exponent
}

impl Node {
    /// The layer of this node in the tree.
    pub fn height(&self) -> (height: u64)
        ensures
            height == trailing_ones(self.index as nat),
            height <= 64,
    {
        Self::get_height(self.index)
    }

    /// The number of trailing one-bits of `index`.
    pub fn get_height(index: u64) -> (height: u64)
        ensures
            height == trailing_ones(index as nat),
            height <= 64,
    {
        let mut rest: u64 = index;
        let mut cur_height: u64 = 0;
        proof {
            lemma2_to64();
        }
        while rest % 2 == 1
            invariant
                cur_height <= 64,
                rest < pow2((64 - cur_height) as nat),
                trailing_ones(index as nat) == cur_height + trailing_ones(rest as nat),
            decreases rest,
        {
            proof {
                if cur_height == 64 {
                    lemma2_to64();
                } else {
                    lemma_pow2_unfold((64 - cur_height) as nat);
                }
            }
            cur_height += 1;
            rest = rest / 2;
        }
        cur_height
    }

    /// The node's position among the nodes of its own height.
    pub fn relative_index(&self) -> (position: u64)
        requires
            self.index < u64::MAX,
        ensures
            position == self.index as nat / pow2(trailing_ones(self.index as nat)),
    {
        let height = self.height();
        proof {
            lemma_max_has_full_height(self.index);
        }
        Self::index_at_height(self.index, height)
    }

    /// `index` counted in units of `2^height`.
    pub fn index_at_height(index: u64, height: u64) -> (position: u64)
        requires
            height < 64,
        ensures
            position == index as nat / pow2(height as nat),
    {
        index / power_of_two(height)
    }

    /// The last index at `height`, given the greatest index of the tree.
    pub fn top_index_at_height(height: u64, max_index: u64) -> (result: Option<u64>)
        requires
            index_fits(height as nat, max_index as nat),
        ensures
            match result {
                Some(index) => top_index(height as nat, max_index as nat) == Some(index as int),
                None => top_index(height as nat, max_index as nat) is None,
            },
    {
        let offset = power_of_two(height) - 1;
        let interval = power_of_two(height + 1);
        let mut furthest_leaf: u64 = 0;
        let mut result: Option<u64> = None;
        proof {
            lemma_pow2_unfold((height + 1) as nat);
            lemma2_to64();
        }
        if height == 0 {
            result = Some(max_index);
        } else {
            let mut i: u64 = 0;
            while i < height
                invariant
                    i <= height < 63,
                    furthest_leaf == pow2(i as nat) - 1,
                decreases height - i,
            {
                proof {
                    lemma_pow2_unfold((i + 1) as nat);
                    lemma_pow2_strictly_increases((i + 1) as nat, 64);
                    lemma2_to64();
                }
                furthest_leaf += power_of_two(i);
                i += 1;
            }
        }
        if max_index > offset {
            let ghost top = top_index(height as nat, max_index as nat).unwrap();
            let ghost mut steps: int = 0;
            let mut next_result = true;
            proof {
                if height > 0 && max_index >= 2 * offset {
                    lemma_quotient_bounds(max_index - 2 * offset, interval as int);
                }
            }
            while next_result
                invariant
                    height < 63,
                    offset == pow2(height as nat) - 1,
                    interval == pow2((height + 1) as nat),
                    interval == 2 * offset + 2,
                    furthest_leaf == self::furthest_leaf(height as nat),
                    max_index > offset,
                    top == top_index(height as nat, max_index as nat).unwrap(),
                    top + interval + furthest_leaf <= u64::MAX,
                    height == 0 ==> result == Some(max_index),
                    height > 0 ==> (result is None && steps == 0) || (result == Some(
                        (offset + steps * interval) as u64,
                    ) && 0 <= steps && offset + steps * interval <= top && (steps > 0 ==> steps
                        * interval <= max_index - 2 * offset)),
                    !next_result ==> result is Some && result.unwrap() + interval + furthest_leaf
                        > max_index,
                decreases
                        (match result {
                            Some(index) => max_index - index + (if next_result {
                                1int
                            } else {
                                0int
                            }),
                            None => max_index + 2,
                        }),
            {
                match result {
                    Some(index) => {
                        if index + interval + furthest_leaf > max_index {
                            next_result = false;
                        } else {
                            proof {
                                if height > 0 {
                                    assert((steps + 1) * interval == steps * interval
                                        + interval) by (nonlinear_arith);
                                    lemma_step_within_top(
                                        steps + 1,
                                        max_index - 2 * offset,
                                        interval as int,
                                    );
                                    steps = steps + 1;
                                }
                            }
                            result = Some(index + interval);
                        }
                    },
                    None => {
                        proof {
                            assert(offset + 0 * interval == offset) by (nonlinear_arith);
                        }
                        result = Some(offset);
                    },
                }
            }
            proof {
                if height > 0 && max_index >= 2 * offset {
                    lemma_quotient_is(steps, max_index - 2 * offset, interval as int);
                    assert(interval * steps == steps * interval) by (nonlinear_arith);
                }
                if height > 0 && max_index < 2 * offset {
                    assert(steps > 0 ==> steps * interval > 0) by (nonlinear_arith)
                        requires
                            interval > 0,
                    ;
                }
            }
        }
        result
    }

    /// The greatest height at which the tree has a peak, given its greatest index.
    pub fn highest_at_index(max_index: u64) -> (height: u64)
        ensures
            is_highest_peak(height as nat, max_index as nat),
            height == highest_peak(max_index as nat),
            height <= 63,
    {
        let mut current_index: Option<u64> = Some(max_index);
        let mut current_height: u64 = 0;
        proof {
            lemma2_to64();
        }
        while current_index.unwrap_or(0) > power_of_two(current_height)
            invariant
                current_height <= 63,
                pow2((current_height + 1) as nat) <= max_index + 2,
                match current_index {
                    Some(index) => index == max_index + 2 - pow2((current_height + 1) as nat),
                    None => max_index + 2 < pow2((current_height + 2) as nat),
                },
            decreases
                    64 - current_height + (if current_index is Some {
                        1int
                    } else {
                        0int
                    }),
        {
            proof {
                lemma_pow2_unfold((current_height + 1) as nat);
                lemma_pow2_unfold((current_height + 2) as nat);
                if current_height == 63 {
                    lemma2_to64();
                }
            }
            current_index = current_index.unwrap_or(0).checked_sub(
                power_of_two(current_height + 1),
            );
            match current_index {
                Some(_) => current_height += 1,
                None => (),
            }
        }
        proof {
            lemma_pow2_unfold((current_height + 1) as nat);
            lemma_pow2_unfold((current_height + 2) as nat);
            lemma_highest_peak_unique(
                current_height as nat,
                current_height as nat,
                max_index as nat,
            );
        }
        current_height
    }
}

impl Node {
    /// The indices of the nodes whose hashes give the root, lowest height first.
    pub fn get_orphan_indeces(highest_index: u64) -> (indeces: Vec<u64>)
        requires
            peaks_fit(highest_index as nat),
        ensures
            indeces@ == peak_indices(highest_index as nat),
    {
        let mut indeces: Vec<u64> = Vec::new();
        let highest = Self::highest_at_index(highest_index);
        let mut i: u64 = 0;
        while i < highest + 1
            invariant
                highest == highest_peak(highest_index as nat),
                highest <= 63,
                i <= highest + 1,
                peaks_fit(highest_index as nat),
                indeces@ == peaks_below(i as nat, highest_index as nat),
            decreases highest + 1 - i,
        {
            match Self::top_index_at_height(i, highest_index) {
                Some(expr) => if expr % 2 == 0 {
                    indeces.push(expr);
                },
                None => (),
            }
            i += 1;
        }
        indeces
    }

    /// Whether this node is one of the peaks of a tree with the given greatest index.
    pub fn is_orphan(&self, highest_index: u64) -> (found: bool)
        requires
            peaks_fit(highest_index as nat),
        ensures
            found == peak_indices(highest_index as nat).contains(self.index),
    {
        let indeces = Self::get_orphan_indeces(highest_index);
        let mut i: usize = 0;
        while i < indeces.len()
            invariant
                i <= indeces.len(),
                indeces@ == peak_indices(highest_index as nat),
                forall|k: int| 0 <= k < i ==> indeces@[k] != self.index,
            decreases indeces.len() - i,
        {
            if indeces[i] == self.index {
                assert(indeces@[i as int] == self.index);
                return true;
            }
            i += 1;
        }
        false
    }
}

/// Above height 0 no top index is even, so the peaks of a tree are its
/// greatest index where that is even, and nothing else.
pub proof fn lemma_peak_indices_only_even_bound(max_index: u64)
    ensures
        peak_indices(max_index as nat) == if max_index % 2 == 0 {
            seq![max_index]
        } else {
            Seq::<u64>::empty()
        },
{
    lemma_peaks_below_only_even_bound(highest_peak(max_index as nat) + 1, max_index);
}

proof fn lemma_peaks_below_only_even_bound(heights: nat, max_index: u64)
    requires
        heights >= 1,
    ensures
        peaks_below(heights, max_index as nat) == if max_index % 2 == 0 {
            seq![max_index]
        } else {
            Seq::<u64>::empty()
        },
    decreases heights,
{
    if heights == 1 {
        assert(peaks_below(0, max_index as nat) == Seq::<u64>::empty());
        assert(Seq::<u64>::empty().push(max_index) == seq![max_index]);
    } else {
        lemma_peaks_below_only_even_bound((heights - 1) as nat, max_index);
        lemma_top_index_is_odd((heights - 1) as nat, max_index as nat);
    }
}

/// Above height 0 a top index is odd.
pub proof fn lemma_top_index_is_odd(height: nat, max_index: nat)
    requires
        height >= 1,
    ensures
        match top_index(height, max_index) {
            Some(index) => index % 2 == 1,
            None => true,
        },
{
    lemma_pow2_unfold(height);
    lemma_pow2_unfold(height + 1);
    let half = pow2((height - 1) as nat) as int;
    let offset = pow2(height) - 1;
    let interval = pow2(height + 1) as int;
    let quotient = (max_index - 2 * offset) / interval;
    let whole = half + 2 * half * quotient - 1;
    assert(2 * half - 1 + (2 * (2 * half)) * quotient == 2 * whole + 1) by (nonlinear_arith)
        requires
            whole == half + 2 * half * quotient - 1,
    ;
    assert((2 * whole + 1) % 2 == 1);
    lemma_pow2_pos((height - 1) as nat);
}

/// The quotient of a non-negative number stays within the number.
proof fn lemma_quotient_bounds(amount: int, interval: int)
    requires
        amount >= 0,
        interval > 0,
    ensures
        0 <= interval * (amount / interval) <= amount,
        amount < interval * (amount / interval) + interval,
{
    vstd::arithmetic::div_mod::lemma_fundamental_div_mod(amount, interval);
    vstd::arithmetic::div_mod::lemma_mod_bound(amount, interval);
}

/// A number of whole intervals that fit into an amount is at most the quotient.
proof fn lemma_step_within_top(steps: int, amount: int, interval: int)
    requires
        steps >= 0,
        interval > 0,
        steps * interval <= amount,
    ensures
        steps * interval <= interval * (amount / interval),
{
    lemma_quotient_bounds(amount, interval);
    assert(steps <= amount / interval) by (nonlinear_arith)
        requires
            steps * interval <= amount,
            amount < interval * (amount / interval) + interval,
            interval > 0,
    ;
    assert(steps * interval <= interval * (amount / interval)) by (nonlinear_arith)
        requires
            steps <= amount / interval,
            interval > 0,
    ;
}

/// The number of whole intervals after which one more no longer fits is the quotient.
proof fn lemma_quotient_is(steps: int, amount: int, interval: int)
    requires
        steps >= 0,
        interval > 0,
        steps * interval <= amount < steps * interval + interval,
    ensures
        amount / interval == steps,
{
    vstd::arithmetic::div_mod::lemma_fundamental_div_mod_converse(
        amount,
        interval,
        steps,
        amount - steps * interval,
    );
}

/// Only the index with all 64 bits set has height 64.
pub proof fn lemma_max_has_full_height(index: u64)
    ensures
        trailing_ones(index as nat) >= 64 ==> index == u64::MAX,
{
    if trailing_ones(index as nat) >= 64 {
        lemma_ones_bound(index as nat, 64);
        lemma2_to64();
    }
}

/// A number with at least `count` trailing one-bits is at least `2^count - 1`.
proof fn lemma_ones_bound(n: nat, count: nat)
    requires
        trailing_ones(n) >= count,
    ensures
        n >= pow2(count) - 1,
    decreases count,
{
    if count == 0 {
        lemma2_to64();
    } else {
        lemma_ones_bound(n / 2, (count - 1) as nat);
        lemma_pow2_unfold(count);
    }
}

} // verus!
