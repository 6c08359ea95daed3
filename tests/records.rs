use bw6_pairing::dpc::{AleoAmount, Digest, InnerPublicVariables, NetworkParameters, Output, Payload};
use bw6_pairing::nonnative::NonNativeFieldParams;
use bw6_pairing::sponge::{AlgebraicSponge, DefaultCapacityAlgebraicSponge, DuplexSpongeMode, SpongeParameters};

fn network() -> NetworkParameters {
    NetworkParameters { noop_program_id: Digest(9, 9, 9, 9) }
}

#[test]
fn output_without_program_is_noop() {
    let net = network();
    let out = Output::new(Digest(1, 2, 3, 4), AleoAmount::from_i64(10), Payload { bytes: vec![5, 6] }, None, &net);
    assert!(out.is_noop(&net));
    assert_eq!(out.program_id(), Digest(9, 9, 9, 9));
    assert_eq!(out.address(), Digest(1, 2, 3, 4));
    assert_eq!(out.value(), AleoAmount(10));
    assert_eq!(out.payload().bytes, vec![5, 6]);
}

#[test]
fn output_with_program_keeps_it() {
    let net = network();
    let out = Output::new(Digest(1, 2, 3, 4), AleoAmount::from_i64(-3), Payload { bytes: vec![] }, Some(Digest(7, 0, 0, 0)), &net);
    assert!(!out.is_noop(&net));
    assert_eq!(out.program_id(), Digest(7, 0, 0, 0));
    assert_eq!(out.value(), AleoAmount(-3));
}

#[test]
fn inner_public_variables_blank_and_new() {
    let blank = InnerPublicVariables::blank();
    assert_eq!(blank.transition_id(), Digest(0, 0, 0, 0));
    assert_eq!(blank.value_balance(), AleoAmount(0));
    assert_eq!(blank.ledger_root(), Digest(0, 0, 0, 0));
    assert_eq!(blank.local_transitions_root(), Digest(0, 0, 0, 0));
    assert_eq!(blank.program_id(), Some(Digest(0, 0, 0, 0)));

    let v = InnerPublicVariables::new(Digest(1, 0, 0, 0), AleoAmount(5), Digest(2, 0, 0, 0), Digest(3, 0, 0, 0), None);
    assert_eq!(v.transition_id(), Digest(1, 0, 0, 0));
    assert_eq!(v.value_balance(), AleoAmount(5));
    assert_eq!(v.ledger_root(), Digest(2, 0, 0, 0));
    assert_eq!(v.local_transitions_root(), Digest(3, 0, 0, 0));
    assert_eq!(v.program_id(), None);
}

#[test]
fn sponge_modes_compare_by_variant_and_index() {
    let a = DuplexSpongeMode::Absorbing { next_absorb_index: 0 };
    assert_eq!(a, DuplexSpongeMode::Absorbing { next_absorb_index: 0 });
    assert_ne!(a, DuplexSpongeMode::Absorbing { next_absorb_index: 1 });
    assert_ne!(a, DuplexSpongeMode::Squeezing { next_squeeze_index: 0 });
    let p = NonNativeFieldParams { num_limbs: 5, bits_per_limb: 56 };
    assert_eq!(p.clone().num_limbs * p.bits_per_limb, 280);
}

struct SumParameters {
    start: u64,
}

impl SpongeParameters<2, 1> for SumParameters {}

struct SumSponge {
    state: u64,
}

impl AlgebraicSponge<u64, 2, 1> for SumSponge {
    type Parameters = SumParameters;

    fn with_parameters(params: &SumParameters) -> Self {
        SumSponge { state: params.start }
    }

    fn absorb(&mut self, input: &[u64]) {
        for x in input {
            self.state = self.state.wrapping_add(*x);
        }
    }

    fn squeeze_field_elements(&mut self, num_elements: usize) -> Vec<u64> {
        let mut out = Vec::new();
        for _ in 0..num_elements {
            self.state = self.state.wrapping_mul(3);
            out.push(self.state);
        }
        out
    }
}

impl DefaultCapacityAlgebraicSponge<u64, 2> for SumSponge {
    fn sample_parameters() -> SumParameters {
        SumParameters { start: 4 }
    }
}

#[test]
fn default_parameters_build_the_sponge() {
    let mut sponge = SumSponge::with_default_parameters();
    assert_eq!(sponge.state, 4);
    sponge.absorb(&[1, 2]);
    assert_eq!(sponge.squeeze_field_elements(2), vec![21, 63]);
}
