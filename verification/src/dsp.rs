//! The parts of the DSP node library that carry no sample arithmetic: the band
//! kinds of the parametric EQ and the pass-through node.
use vstd::prelude::*;

verus! {

/// The filter shape of one EQ band.
#[derive(Debug, Clone, Copy, PartialEq)]
pub enum EqBandKind {
    Peak,
    LowPass,
    HighPass,
    LowShelf,
    HighShelf,
    Notch,
    BandPass,
}

/// A pass-through node (useful for testing / bypass).
#[derive(Debug, Clone, Copy)]
pub struct BypassNode;

impl BypassNode {
    /// Copy the input block to the output block unchanged.
    pub fn pass_through<T: Copy>(&self, input: &[T], output: &mut [T])
        requires
            input@.len() == old(output)@.len(),
        ensures
            final(output)@ == input@,
    {
        let n = input.len();
        let mut i: usize = 0;
        while i < n
            invariant
                i <= n,
                n == input@.len(),
                output@.len() == n,
                forall|j: int| 0 <= j < i ==> output@[j] == input@[j],
            decreases n - i,
        {
            output[i] = input[i];
            i = i + 1;
        }
        assert(output@ =~= input@);
    }

    pub fn name(&self) -> (n: &'static str)
        ensures
            n@ == "bypass"@,
    {
        "bypass"
    }
}

} // verus!
