use vstd::prelude::*;

pub mod bw6;
pub mod codec;
pub mod dpc;
pub mod field;
pub mod nonnative;
pub mod sponge;

verus! {

} // verus!
