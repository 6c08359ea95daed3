use vstd::prelude::*;

verus! {

/// Marks the parameters of a sponge with the given rate and capacity.
pub trait SpongeParameters<const RATE: usize, const CAPACITY: usize> {

}

/// A cryptographic sponge over elements `F`: it absorbs inputs and later squeezes
/// outputs that depend on everything absorbed and squeezed before.
pub trait AlgebraicSponge<F, const RATE: usize, const CAPACITY: usize>: Sized {
    /// The parameters the sponge is built from.
    type Parameters: SpongeParameters<RATE, CAPACITY>;

    /// A new sponge with the given parameters.
    fn with_parameters(params: &Self::Parameters) -> Self;

    /// Absorbs `input` into the sponge.
    fn absorb(&mut self, input: &[F]);

    /// Squeezes `num_elements` elements out of the sponge.
    fn squeeze_field_elements(&mut self, num_elements: usize) -> Vec<F>;
}

/// A sponge of capacity one whose parameters can be sampled.
pub trait DefaultCapacityAlgebraicSponge<F, const RATE: usize>: AlgebraicSponge<F, RATE, 1> {
    fn sample_parameters() -> Self::Parameters;

    /// A new sponge with sampled parameters.
    fn with_default_parameters() -> Self {
        Self::with_parameters(&Self::sample_parameters())
    }
}

/// The mode of a duplex sponge.
#[derive(PartialEq, Eq, Structural, Clone, Copy, Debug)]
pub enum DuplexSpongeMode {
    /// The sponge is absorbing data.
    Absorbing {
        /// Next position of the state to be XOR-ed when absorbing.
        next_absorb_index: usize,
    },
    /// The sponge is squeezing data out.
    Squeezing {
        /// Next position of the state to be output when squeezing.
        next_squeeze_index: usize,
    },
}

} // verus!
