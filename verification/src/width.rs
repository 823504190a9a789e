use vstd::prelude::*;

use vstd::arithmetic::div_mod::lemma_fundamental_div_mod;
use vstd::arithmetic::power2::{
    lemma2_to64, lemma2_to64_rest, lemma_pow2_adds, lemma_pow2_unfold, pow2,
};

use crate::expr::{FlagError, ResolvedFlag};
use crate::model::Width;

verus! {

/// The position of the highest set bit of a value; 0 for the values 0 and 1.
pub open spec fn spec_highest_bit(v: u128) -> nat
    decreases v,
{
    if v < 2 {
        0
    } else {
        (spec_highest_bit(v / 2) + 1) as nat
    }
}

/// The largest value any flag of the list resolves to; 0 for an empty list.
pub open spec fn spec_max_value(rs: Seq<ResolvedFlag>) -> u128
    decreases rs.len(),
{
    if rs.len() == 0 {
        0
    } else {
        let rest = spec_max_value(rs.drop_last());
        if rs.last().value > rest {
            rs.last().value
        } else {
            rest
        }
    }
}

/// Every value in the list is at most the list's maximum.
pub proof fn lemma_max_value_bounds(rs: Seq<ResolvedFlag>)
    ensures
        forall|i: int| 0 <= i < rs.len() ==> rs[i].value <= spec_max_value(rs),
    decreases rs.len(),
{
    if rs.len() > 0 {
        lemma_max_value_bounds(rs.drop_last());
        assert forall|i: int| 0 <= i < rs.len() implies rs[i].value <= spec_max_value(rs) by {
            if i < rs.len() - 1 {
                assert(rs.drop_last()[i] == rs[i]);
            }
        }
    }
}

/// The smallest backing width able to represent the value.
pub open spec fn spec_width_for_value(m: u128) -> Width {
    if m <= 0xff {
        Width::W8
    } else if m <= 0xffff {
        Width::W16
    } else if m <= 0xffff_ffff {
        Width::W32
    } else if m <= 0xffff_ffff_ffff_ffff {
        Width::W64
    } else {
        Width::W128
    }
}

/// The smallest backing width with more bits than the given bit position;
/// a position of 128 or beyond exceeds every supported width.
pub open spec fn spec_width_for_bit(pos: nat) -> Option<Width> {
    if pos <= 7 {
        Option::Some(Width::W8)
    } else if pos <= 15 {
        Option::Some(Width::W16)
    } else if pos <= 31 {
        Option::Some(Width::W32)
    } else if pos <= 63 {
        Option::Some(Width::W64)
    } else if pos <= 127 {
        Option::Some(Width::W128)
    } else {
        Option::None
    }
}

/// The highest bit position of a value is below `k` exactly when the value
/// is below the `k`-th power of two.
pub proof fn lemma_highest_bit_lt(v: u128, k: nat)
    requires
        k >= 1,
    ensures
        spec_highest_bit(v) < k <==> (v as nat) < pow2(k),
    decreases v,
{
    lemma2_to64();
    if v < 2 {
        if k > 1 {
            vstd::arithmetic::power2::lemma_pow2_strictly_increases(1, k);
        }
    } else {
        lemma_fundamental_div_mod(v as int, 2);
        if k == 1 {
        } else {
            lemma_highest_bit_lt(v / 2, (k - 1) as nat);
            lemma_pow2_unfold(k);
        }
    }
}

/// No 128-bit value uses a bit position beyond 127.
pub proof fn lemma_highest_bit_le_127(v: u128)
    ensures
        spec_highest_bit(v) <= 127,
{
    lemma_highest_bit_lt(v, 128);
    lemma2_to64();
    lemma_pow2_adds(64, 64);
    assert((v as nat) < pow2(128));
}

/// Width selection by bit position agrees with width selection by value:
/// positions 0 through 7 give the 8-bit width, 8 through 15 the 16-bit
/// width, 16 through 31 the 32-bit width, 32 through 63 the 64-bit width,
/// and 64 through 127 the 128-bit width.
pub proof fn lemma_width_breakpoints(m: u128)
    ensures
        spec_width_for_bit(spec_highest_bit(m)) == Option::Some(spec_width_for_value(m)),
        spec_highest_bit(m) <= 7 <==> spec_width_for_value(m) == Width::W8,
        (8 <= spec_highest_bit(m) && spec_highest_bit(m) <= 15) <==> spec_width_for_value(m)
            == Width::W16,
        (16 <= spec_highest_bit(m) && spec_highest_bit(m) <= 31) <==> spec_width_for_value(m)
            == Width::W32,
        (32 <= spec_highest_bit(m) && spec_highest_bit(m) <= 63) <==> spec_width_for_value(m)
            == Width::W64,
        (64 <= spec_highest_bit(m) && spec_highest_bit(m) <= 127) <==> spec_width_for_value(m)
            == Width::W128,
{
    lemma_highest_bit_lt(m, 8);
    lemma_highest_bit_lt(m, 16);
    lemma_highest_bit_lt(m, 32);
    lemma_highest_bit_lt(m, 64);
    lemma_highest_bit_le_127(m);
    lemma2_to64();
    lemma2_to64_rest();
}

/// Computes the position of the highest set bit of a value.
#[verifier::loop_isolation(false)]
pub fn highest_bit(v: u128) -> (r: u32)
    ensures
        r == spec_highest_bit(v),
{
    proof {
        lemma_highest_bit_le_127(v);
    }
    let mut x: u128 = v;
    let mut p: u32 = 0;
    while x >= 2
        invariant
            p + spec_highest_bit(x) == spec_highest_bit(v),
        decreases x,
    {
        proof {
            lemma_fundamental_div_mod(x as int, 2);
            lemma_highest_bit_le_127(v);
        }
        x = x / 2;
        p = p + 1;
    }
    p
}

/// Computes the largest value any flag of the list resolves to.
#[verifier::loop_isolation(false)]
pub fn max_value(rs: &Vec<ResolvedFlag>) -> (r: u128)
    ensures
        r == spec_max_value(rs@),
{
    let mut m: u128 = 0;
    let mut j: usize = 0;
    while j < rs.len()
        invariant
            j <= rs@.len(),
            m == spec_max_value(rs@.take(j as int)),
        decreases rs@.len() - j,
    {
        proof {
            assert(rs@.take(j + 1).drop_last() =~= rs@.take(j as int));
            assert(rs@.take(j + 1).last() == rs@[j as int]);
        }
        if rs[j].value > m {
            m = rs[j].value;
        }
        j += 1;
    }
    proof {
        assert(rs@.take(rs@.len() as int) =~= rs@);
    }
    m
}

/// Selects the smallest backing width whose bit count exceeds the given
/// highest bit position, or fails with the oversized error, blaming
/// `name`, when the position exceeds the largest supported width.
pub fn width_for_bit(pos: u32, name: &String) -> (r: Result<Width, FlagError>)
    ensures
        match r {
            Ok(w) => spec_width_for_bit(pos as nat) == Option::Some(w),
            Err(e) => spec_width_for_bit(pos as nat) == Option::None::<Width> && e == (
            FlagError::OversizedFlagSet { name: *name }),
        },
{
    if pos <= 7 {
        Ok(Width::W8)
    } else if pos <= 15 {
        Ok(Width::W16)
    } else if pos <= 31 {
        Ok(Width::W32)
    } else if pos <= 63 {
        Ok(Width::W64)
    } else if pos <= 127 {
        Ok(Width::W128)
    } else {
        Err(FlagError::OversizedFlagSet { name: name.clone() })
    }
}

/// Selects the minimal backing width for a list of resolved flags from the
/// highest bit position any of their values uses. Values here are at most
/// 128 bits wide, so the largest supported width always suffices and no
/// oversized error can arise.
pub fn select_width(rs: &Vec<ResolvedFlag>) -> (w: Width)
    ensures
        w == spec_width_for_value(spec_max_value(rs@)),
{
    let m = max_value(rs);
    let pos = highest_bit(m);
    proof {
        lemma_width_breakpoints(m);
    }
    if pos <= 7 {
        Width::W8
    } else if pos <= 15 {
        Width::W16
    } else if pos <= 31 {
        Width::W32
    } else if pos <= 63 {
        Width::W64
    } else {
        Width::W128
    }
}

} // verus!
