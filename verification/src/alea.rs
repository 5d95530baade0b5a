//! Source of randomness for the maze generator.
//!
//! The generator is deterministic for a fixed seed: every random draw goes
//! through a seeded [`rand::rngs::StdRng`] handed in by the caller.

use vstd::prelude::*;

verus! {

#[verifier::external_type_specification]
#[verifier::external_body]
pub struct ExStdRng(rand::rngs::StdRng);

/// Relies on `rand::SeedableRng::seed_from_u64`: builds a generator whose
/// draws depend only on the seed.
#[verifier::external_body]
pub fn generateur_depuis_graine(graine: u64) -> rand::rngs::StdRng {
    <rand::rngs::StdRng as rand::SeedableRng>::seed_from_u64(graine)
}

/// Relies on `rand::RngExt::random_range`: a draw over `0..nombre` lies in
/// that range; the range is non-empty, so the call does not panic.
#[verifier::external_body]
pub fn tirer_indice(generateur: &mut rand::rngs::StdRng, nombre: usize) -> (r: usize)
    requires
        nombre > 0,
    ensures
        r < nombre,
{
    rand::RngExt::random_range(generateur, 0..nombre)
}

} // verus!
