use vstd::prelude::*;

verus! {

/// A backing width for a flag set: the number of bits of the unsigned
/// integer that stores a flag value.
#[derive(Clone, Copy, Debug, PartialEq, Eq, Structural)]
pub enum Width {
    W8,
    W16,
    W32,
    W64,
    W128,
}

impl Width {
    /// The number of bits of this width.
    pub open spec fn spec_bits(self) -> nat {
        match self {
            Width::W8 => 8,
            Width::W16 => 16,
            Width::W32 => 32,
            Width::W64 => 64,
            Width::W128 => 128,
        }
    }

    pub fn bit_count(self) -> (r: u32)
        ensures
            r == self.spec_bits(),
    {
        match self {
            Width::W8 => 8,
            Width::W16 => 16,
            Width::W32 => 32,
            Width::W64 => 64,
            Width::W128 => 128,
        }
    }

    /// The all-ones pattern of this width; a value is representable in this
    /// width exactly when it is at most this mask.
    pub open spec fn spec_all_ones(self) -> u128 {
        match self {
            Width::W8 => 0xff,
            Width::W16 => 0xffff,
            Width::W32 => 0xffff_ffff,
            Width::W64 => 0xffff_ffff_ffff_ffff,
            Width::W128 => 0xffff_ffff_ffff_ffff_ffff_ffff_ffff_ffff,
        }
    }

    pub fn all_ones(self) -> (r: u128)
        ensures
            r == self.spec_all_ones(),
    {
        match self {
            Width::W8 => 0xff,
            Width::W16 => 0xffff,
            Width::W32 => 0xffff_ffff,
            Width::W64 => 0xffff_ffff_ffff_ffff,
            Width::W128 => 0xffff_ffff_ffff_ffff_ffff_ffff_ffff_ffff,
        }
    }
}

/// A flag value: the bits of one member of a resolved flag set, together
/// with the backing width the set was given.
#[derive(Clone, Copy, Debug, PartialEq, Eq, Structural)]
pub struct FlagValue {
    pub width: Width,
    pub bits: u128,
}

impl FlagValue {
    /// Well-formed: the bits fit in the backing width.
    pub open spec fn wf(self) -> bool {
        self.bits <= self.width.spec_all_ones()
    }

    pub open spec fn spec_and(self, other: FlagValue) -> FlagValue {
        FlagValue { width: self.width, bits: self.bits & other.bits }
    }

    pub open spec fn spec_or(self, other: FlagValue) -> FlagValue {
        FlagValue { width: self.width, bits: self.bits | other.bits }
    }

    pub open spec fn spec_xor(self, other: FlagValue) -> FlagValue {
        FlagValue { width: self.width, bits: self.bits ^ other.bits }
    }

    /// Complement within the backing width: bits above the width stay clear.
    pub open spec fn spec_not(self) -> FlagValue {
        FlagValue { width: self.width, bits: !self.bits & self.width.spec_all_ones() }
    }

    /// Intersection test: some bit of `other` is also set in `self`.
    pub open spec fn spec_has_any_flag(self, other: FlagValue) -> bool {
        self.bits & other.bits != 0
    }

    /// Containment test: every bit of `other` is also set in `self`.
    pub open spec fn spec_has_all_flags(self, other: FlagValue) -> bool {
        self.bits & other.bits == other.bits
    }

    /// The backing-integer representation of this flag value.
    pub fn to_bits(self) -> (r: u128)
        ensures
            r == self.bits,
    {
        self.bits
    }

    pub fn and(self, other: FlagValue) -> (r: FlagValue)
        requires
            self.width == other.width,
            self.wf(),
            other.wf(),
        ensures
            r == self.spec_and(other),
            r.wf(),
    {
        proof {
            lemma_mask_ops(self.bits, other.bits, self.width.spec_all_ones());
        }
        FlagValue { width: self.width, bits: self.bits & other.bits }
    }

    pub fn or(self, other: FlagValue) -> (r: FlagValue)
        requires
            self.width == other.width,
            self.wf(),
            other.wf(),
        ensures
            r == self.spec_or(other),
            r.wf(),
    {
        proof {
            lemma_mask_ops(self.bits, other.bits, self.width.spec_all_ones());
        }
        FlagValue { width: self.width, bits: self.bits | other.bits }
    }

    pub fn xor(self, other: FlagValue) -> (r: FlagValue)
        requires
            self.width == other.width,
            self.wf(),
            other.wf(),
        ensures
            r == self.spec_xor(other),
            r.wf(),
    {
        proof {
            lemma_mask_ops(self.bits, other.bits, self.width.spec_all_ones());
        }
        FlagValue { width: self.width, bits: self.bits ^ other.bits }
    }

    pub fn not(self) -> (r: FlagValue)
        requires
            self.wf(),
        ensures
            r == self.spec_not(),
            r.wf(),
    {
        proof {
            lemma_mask_ops(self.bits, self.bits, self.width.spec_all_ones());
        }
        let mask: u128 = self.width.all_ones();
        FlagValue { width: self.width, bits: !self.bits & mask }
    }

    pub fn has_any_flag(self, other: FlagValue) -> (r: bool)
        ensures
            r == self.spec_has_any_flag(other),
    {
        self.bits & other.bits != 0
    }

    pub fn has_all_flags(self, other: FlagValue) -> (r: bool)
        ensures
            r == self.spec_has_all_flags(other),
    {
        self.bits & other.bits == other.bits
    }
}

/// A backing mask is an all-ones pattern, so bitwise combinations of values
/// under the mask stay under the mask, and complementing twice within the
/// mask gives the value back.
pub proof fn lemma_mask_ops(x: u128, y: u128, m: u128)
    requires
        x <= m,
        y <= m,
        m == 0xff || m == 0xffff || m == 0xffff_ffff || m == 0xffff_ffff_ffff_ffff || m
            == 0xffff_ffff_ffff_ffff_ffff_ffff_ffff_ffff,
    ensures
        x & y <= m,
        x | y <= m,
        x ^ y <= m,
        !x & m <= m,
        !(!x & m) & m == x,
{
    assert((x <= m && y <= m && (m == 0xff || m == 0xffff || m == 0xffff_ffff || m
        == 0xffff_ffff_ffff_ffff || m == 0xffff_ffff_ffff_ffff_ffff_ffff_ffff_ffff)) ==> (x & y
        <= m && x | y <= m && x ^ y <= m && !x & m <= m && !(!x & m) & m == x)) by (bit_vector);
}

/// Bitwise closure: combining two well-formed flag values of one width with
/// AND, OR, XOR or NOT yields a value representable in that width, and
/// complementing twice gives the original value back.
pub proof fn lemma_bitwise_closure(x: FlagValue, y: FlagValue)
    requires
        x.wf(),
        y.wf(),
        x.width == y.width,
    ensures
        x.spec_and(y).wf(),
        x.spec_or(y).wf(),
        x.spec_xor(y).wf(),
        x.spec_not().wf(),
        x.spec_not().spec_not() == x,
{
    lemma_mask_ops(x.bits, y.bits, x.width.spec_all_ones());
    lemma_mask_ops(!x.bits & x.width.spec_all_ones(), y.bits, x.width.spec_all_ones());
}

/// Containment laws: every flag contains itself; no flag intersects the
/// empty flag, not even the empty flag itself; and every flag contains
/// the empty flag.
pub proof fn lemma_containment(x: FlagValue, none: FlagValue)
    requires
        none.bits == 0,
    ensures
        x.spec_has_all_flags(x),
        !x.spec_has_any_flag(none),
        !none.spec_has_any_flag(none),
        x.spec_has_all_flags(none),
{
    let xb = x.bits;
    let nb = none.bits;
    assert(xb & xb == xb) by (bit_vector);
    assert(xb & 0 == 0) by (bit_vector);
    assert(nb & nb == nb) by (bit_vector);
}

} // verus!
