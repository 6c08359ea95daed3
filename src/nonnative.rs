use vstd::prelude::*;

verus! {

/// Parameters of a simulated (non-native) field.
#[derive(Clone, Copy, Debug, PartialEq, Eq, Structural)]
pub struct NonNativeFieldParams {
    /// The number of limbs of the constraint field that make up one element of the
    /// simulated field, highest limb first.
    pub num_limbs: usize,
    /// The number of bits in a limb.
    pub bits_per_limb: usize,
}

} // verus!
