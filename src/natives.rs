//! Gas parameters of the type-name natives.
use vstd::prelude::*;

verus! {

/// What `type_name::get` costs: a base charge and a charge per byte of the
/// name it returns.
#[derive(Clone, Copy, Debug, PartialEq, Eq, Structural)]
pub struct GetGasParameters {
    pub base: u64,
    pub per_byte: u64,
}

/// The gas parameters of all type-name natives.
#[derive(Clone, Copy, Debug, PartialEq, Eq, Structural)]
pub struct GasParameters {
    pub get: GetGasParameters,
}

} // verus!
