use vstd::prelude::*;
use vstd::arithmetic::power2::{pow2, lemma_pow2_unfold, lemma2_to64, lemma2_to64_rest};

use crate::error::Error;

verus! {

/// Settings shared by every pass over one compilation unit: the width of the
/// language's single integer type, and the masks derived from it.
pub struct MainData {
    /// Width in bits of the uniform, pointer-sized integer type.
    pub int_bit_width: u8,
    /// Largest unsigned value of the uniform integer type (all bits set).
    pub int_max_value: u64,
    /// The top bit of the uniform integer type.
    pub sign_bit_mask: u64,
}

impl MainData {
    /// The masks agree with the declared width.
    pub open spec fn wf(&self) -> bool {
        &&& 1 <= self.int_bit_width <= 64
        &&& self.int_max_value as int == pow2(self.int_bit_width as nat) - 1
        &&& self.sign_bit_mask as int == pow2((self.int_bit_width - 1) as nat)
    }

    /// Settings for an integer type of `int_bit_width` bits; only widths of 1 to 64
    /// bits are supported.
    pub fn new(int_bit_width: u128) -> (r: Result<MainData, Error>)
        ensures
            (1 <= int_bit_width <= 64) <==> r is Ok,
            r matches Ok(d) ==> d.wf() && d.int_bit_width == int_bit_width,
            r matches Err(e) ==> e == Error::InvalidArchitectureBitWidth(int_bit_width),
    {
        if int_bit_width == 0 || int_bit_width > 64 {
            return Err(Error::InvalidArchitectureBitWidth(int_bit_width));
        }
        let width: u8 = int_bit_width as u8;
        let mut sign: u64 = 1;
        let mut i: u8 = 1;
        proof {
            lemma2_to64();
            lemma2_to64_rest();
        }
        while i < width
            invariant
                1 <= i <= width <= 64,
                sign as int == pow2((i - 1) as nat),
                pow2(63) == 0x8000_0000_0000_0000,
            decreases width - i,
        {
            proof {
                lemma_pow2_unfold(i as nat);
                vstd::arithmetic::power2::lemma_pow2_strictly_increases((i - 1) as nat, 63);
            }
            sign = sign * 2;
            i = i + 1;
        }
        proof {
            lemma2_to64();
            lemma_pow2_unfold(width as nat);
            if width < 64 {
                vstd::arithmetic::power2::lemma_pow2_strictly_increases(width as nat, 64);
            }
        }
        let max: u64 = (sign - 1) + sign;
        Ok(MainData { int_bit_width: width, int_max_value: max, sign_bit_mask: sign })
    }
}

} // verus!
