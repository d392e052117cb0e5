use vstd::prelude::*;
use crate::outside::os_rng_gen_ratio;

verus! {

/// Throws dice for simulated failures: a die with `denominator` sides, or
/// no die at all when it is zero.
#[derive(Debug)]
pub struct Randomizer {
    pub denominator: u32,
}

impl Randomizer {
    /// A randomizer that never fails.
    pub fn new() -> (r: Randomizer)
        ensures
            r.denominator == 0,
    {
        Randomizer { denominator: 0 }
    }

    /// Throw the die: true when 1 comes up; always false when the
    /// denominator is zero, always true when it is one.
    pub fn throw_die(&mut self) -> (r: bool)
        ensures
            *final(self) == *old(self),
            old(self).denominator == 0 ==> !r,
            old(self).denominator == 1 ==> r,
    {
        if self.denominator == 0 {
            false
        } else {
            os_rng_gen_ratio(1, self.denominator)
        }
    }

    /// Set the number of sides of the die.
    pub fn set_probability(&mut self, denominator: u32) -> (r: &mut Self)
        ensures
            r.denominator == denominator,
            *final(self) == *final(r),
    {
        self.denominator = denominator;
        self
    }
}

} // verus!
