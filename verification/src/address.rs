use vstd::bytes::{spec_u64_to_le_bytes, u64_to_le_bytes};
use vstd::prelude::*;
use vstd::slice::slice_to_vec;

use anchor_lang::prelude::Pubkey;

verus! {

// The address deriver: a pure, deterministic mapping from semantic keys to
// storage addresses. Every operation that claims to act on a given key must
// locate its records at these addresses; the host verifies the addresses a
// caller supplies against this same formula.

/// Seeds for a poll record address: the little-endian bytes of `poll_id`.
pub open spec fn spec_poll_seeds(poll_id: u64) -> Seq<Seq<u8>> {
    seq![spec_u64_to_le_bytes(poll_id)]
}

/// Seeds for a candidate record address: the name bytes, then the
/// little-endian bytes of `poll_id`.
pub open spec fn spec_candidate_seeds(candidate_name: Seq<u8>, poll_id: u64) -> Seq<Seq<u8>> {
    seq![candidate_name, spec_u64_to_le_bytes(poll_id)]
}

/// The storage address the host derives from `seeds` in the namespace of
/// `program_id`. Identical inputs always yield identical addresses.
pub uninterp spec fn derived_address(seeds: Seq<Seq<u8>>, program_id: Seq<u8>) -> Seq<u8>;

/// Whether the host can derive an address from `seeds` in the namespace of
/// `program_id`: false only when a seed exceeds the host's seed limits or
/// the bump-seed search is exhausted, both fixed functions of the inputs.
pub uninterp spec fn derivable(seeds: Seq<Seq<u8>>, program_id: Seq<u8>) -> bool;

/// Relies on `Pubkey::try_find_program_address`: the address is computed by
/// hashing the seeds, a bump seed and the program id, and nothing else, so
/// both the outcome and a successful result are fixed functions of the
/// arguments. `None` comes only in the statistically improbable event that
/// no bump seed yields a valid address, or when a seed exceeds the host's
/// seed limits; the function does not panic on this path.
#[verifier::external_body]
fn try_derive(seeds: &Vec<Vec<u8>>, program_id: &[u8; 32]) -> (r: Option<[u8; 32]>)
    ensures
        r is Some <==> derivable(seeds@.map_values(|s: Vec<u8>| s@), program_id@),
        r matches Some(a) ==> a@ == derived_address(
            seeds@.map_values(|s: Vec<u8>| s@),
            program_id@,
        ),
{
    let seed_slices: Vec<&[u8]> = seeds.iter().map(|s| s.as_slice()).collect();
    let pid = Pubkey::new_from_array(*program_id);
    Pubkey::try_find_program_address(&seed_slices, &pid).map(|(a, _bump)| a.to_bytes())
}

/// The storage address of the poll record for `poll_id`.
pub fn derive_poll_address(program_id: &[u8; 32], poll_id: u64) -> (r: Option<[u8; 32]>)
    ensures
        r is Some <==> derivable(spec_poll_seeds(poll_id), program_id@),
        r matches Some(a) ==> a@ == derived_address(spec_poll_seeds(poll_id), program_id@),
{
    let mut seeds: Vec<Vec<u8>> = Vec::new();
    seeds.push(u64_to_le_bytes(poll_id));
    let r = try_derive(&seeds, program_id);
    proof {
        assert(seeds@.map_values(|s: Vec<u8>| s@) =~= spec_poll_seeds(poll_id));
    }
    r
}

/// The storage address of the candidate record for the pair
/// (`candidate_name`, `poll_id`).
pub fn derive_candidate_address(program_id: &[u8; 32], candidate_name: &Vec<u8>, poll_id: u64) -> (r:
    Option<[u8; 32]>)
    ensures
        r is Some <==> derivable(spec_candidate_seeds(candidate_name@, poll_id), program_id@),
        r matches Some(a) ==> a@ == derived_address(
            spec_candidate_seeds(candidate_name@, poll_id),
            program_id@,
        ),
{
    let mut seeds: Vec<Vec<u8>> = Vec::new();
    seeds.push(slice_to_vec(candidate_name.as_slice()));
    seeds.push(u64_to_le_bytes(poll_id));
    let r = try_derive(&seeds, program_id);
    proof {
        assert(seeds@.map_values(|s: Vec<u8>| s@) =~= spec_candidate_seeds(
            candidate_name@,
            poll_id,
        ));
    }
    r
}

} // verus!
