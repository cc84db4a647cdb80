//! Pool of 64-bit identifiers drawn from cryptographically seeded generators.
//!
//! Identifiers are random: statistical uniqueness is all the pool itself
//! offers. Callers that need a fresh identifier draw repeatedly and filter
//! against the tables they maintain; see the allocation functions of the IPC
//! core.

use vstd::prelude::*;

verus! {

/// Declares `rand_chacha`'s generator so that it can be stored in a field.
#[verifier::external_type_specification]
#[verifier::external_body]
pub struct ExChaCha20Rng(rand_chacha::ChaCha20Rng);

/// Declares `rand_hc`'s generator so that it can be stored in a field.
#[verifier::external_type_specification]
#[verifier::external_body]
pub struct ExHc128Rng(rand_hc::Hc128Rng);

/// Relies on rand_hc::Hc128Rng::from_seed: builds a generator from a 32-byte
/// seed. Nothing is assumed of the stream it produces.
#[verifier::external_body]
fn hc128_from_seed(seed: [u8; 32]) -> rand_hc::Hc128Rng {
    <rand_hc::Hc128Rng as rand_core::SeedableRng>::from_seed(seed)
}

/// Relies on rand_core::RngCore::fill_bytes on rand_hc::Hc128Rng: fills a
/// buffer from the generator. Nothing is assumed of the bytes produced.
#[verifier::external_body]
fn hc128_fill_seed(master: &mut rand_hc::Hc128Rng) -> [u8; 32] {
    let mut seed = [0u8; 32];
    rand_core::RngCore::fill_bytes(master, &mut seed);
    seed
}

/// Relies on rand_chacha::ChaCha20Rng::from_seed: builds a generator from a
/// 32-byte seed. Nothing is assumed of the stream it produces.
#[verifier::external_body]
fn chacha_from_seed(seed: [u8; 32]) -> rand_chacha::ChaCha20Rng {
    <rand_chacha::ChaCha20Rng as rand_core::SeedableRng>::from_seed(seed)
}

/// Relies on rand_core::RngCore::next_u64 on rand_chacha::ChaCha20Rng: draws
/// a 64-bit value. The value is random; nothing is assumed of it.
#[verifier::external_body]
fn chacha_next_u64(rng: &mut rand_chacha::ChaCha20Rng) -> u64 {
    rand_core::RngCore::next_u64(rng)
}

/// Pool of identifier generators. Drawer states are checked out of `rngs` and
/// pushed back after use; when none is available a fresh state is derived
/// from the shared seeding generator.
pub struct IdPool {
    /// Sources of randomness, checked out one draw at a time.
    rngs: Vec<rand_chacha::ChaCha20Rng>,
    /// Generator used to seed the other generators.
    master_rng: rand_hc::Hc128Rng,
}

impl IdPool {
    /// Initializes a new pool.
    pub fn new() -> IdPool {
        IdPool { rngs: Vec::new(), master_rng: hc128_from_seed([0u8; 32]) }
    }

    /// Draws a raw 64-bit value. The result is random and may even be one of
    /// the reserved sentinels `0` and `1`: every caller filters the draw and
    /// re-draws as needed, as the allocation functions of the IPC core do
    /// (each of them returns an identifier that is at least `2` and not in
    /// use).
    pub fn assign(&mut self) -> u64 {
        let mut rng = match self.rngs.pop() {
            Some(r) => r,
            None => {
                let seed = hc128_fill_seed(&mut self.master_rng);
                chacha_from_seed(seed)
            },
        };
        let id = chacha_next_u64(&mut rng);
        self.rngs.push(rng);
        id
    }
}

} // verus!
