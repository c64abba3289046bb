use vstd::prelude::*;
use vstd::arithmetic::power2::pow2;
use vstd::bits::{lemma_u16_shr_is_div, lemma_u32_shr_is_div, lemma_u8_shr_is_div};

verus! {

/// An unsigned integer component of an integer video plane.
pub trait Sample: Copy + Sized {
    /// The numeric value of the sample.
    spec fn value(self) -> nat;

    /// The width of the component type in bits.
    spec fn width() -> nat;

    /// The width of the component type in bits.
    fn bit_width() -> (r: u8)
        ensures
            r == Self::width(),
    ;

    /// The sample shifted right by `shift` bits, as an index.
    fn shifted_index(self, shift: u8) -> (r: usize)
        requires
            shift < Self::width(),
        ensures
            r == self.value() / pow2(shift as nat),
    ;
}

impl Sample for u8 {
    open spec fn value(self) -> nat {
        self as nat
    }

    open spec fn width() -> nat {
        8
    }

    fn bit_width() -> (r: u8) {
        8
    }

    fn shifted_index(self, shift: u8) -> (r: usize) {
        proof {
            lemma_u8_shr_is_div(self, shift);
        }
        (self >> shift) as usize
    }
}

impl Sample for u16 {
    open spec fn value(self) -> nat {
        self as nat
    }

    open spec fn width() -> nat {
        16
    }

    fn bit_width() -> (r: u8) {
        16
    }

    fn shifted_index(self, shift: u8) -> (r: usize) {
        let s: u16 = shift as u16;
        proof {
            lemma_u16_shr_is_div(self, s);
        }
        (self >> s) as usize
    }
}

impl Sample for u32 {
    open spec fn value(self) -> nat {
        self as nat
    }

    open spec fn width() -> nat {
        32
    }

    fn bit_width() -> (r: u8) {
        32
    }

    fn shifted_index(self, shift: u8) -> (r: usize) {
        let s: u32 = shift as u32;
        proof {
            lemma_u32_shr_is_div(self, s);
        }
        (self >> s) as usize
    }
}

/// The samples are the plain unsigned values of their types, of widths 8, 16
/// and 32 bits.
pub proof fn lemma_sample_values(a: u8, b: u16, c: u32)
    ensures
        a.value() == a as nat,
        b.value() == b as nat,
        c.value() == c as nat,
        <u8 as Sample>::width() == 8,
        <u16 as Sample>::width() == 16,
        <u32 as Sample>::width() == 32,
{
}

} // verus!
