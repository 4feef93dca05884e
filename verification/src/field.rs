//! The noise field: seeded cellular noise over cell addresses, computed by
//! the `noise` crate.

use crate::address::MapAddress;
use crate::sample::NoiseSample;
use noise::permutationtable::PermutationTable;
use vstd::prelude::*;

verus! {

/// The seed of the noise field.
pub const SPAWN_SEED: u32 = 69;

/// `noise::permutationtable::PermutationTable`, held as an opaque value.
#[verifier::external_type_specification]
#[verifier::external_body]
pub struct ExPermutationTable(PermutationTable);

/// The entries of the permutation table that `PermutationTable::new` builds
/// from a seed.
pub uninterp spec fn seeded_permutation(seed: u32) -> Seq<u8>;

/// The entries that a permutation table holds.
pub uninterp spec fn permutation_values(table: PermutationTable) -> Seq<u8>;

/// The bit pattern of the cellular noise value that `worley_3d` computes at
/// the whole-number point `(x, y, z)` from a table with the entries `values`,
/// with the Euclidean distance and the value of the nearest seed cell.
pub uninterp spec fn worley_value(values: Seq<u8>, x: int, y: int, z: int) -> u64;

/// Calls `PermutationTable::new`. Trusted, not proved: the table's entries
/// are determined by the seed alone.
#[verifier::external_body]
fn permutation_table(seed: u32) -> (table: PermutationTable)
    ensures
        permutation_values(table) == seeded_permutation(seed),
{
    PermutationTable::new(seed)
}

/// Calls `worley_3d` at a whole-number point, with `euclidean` and
/// `ReturnType::Value`, and hands the double back as its bit pattern.
/// Trusted, not proved: the result is determined by the table's entries and
/// the point alone.
#[verifier::external_body]
fn worley_value_bits(table: &PermutationTable, x: i32, y: i32, z: i32) -> (bits: u64)
    ensures
        bits == worley_value(permutation_values(*table), x as int, y as int, z as int),
{
    noise::core::worley::worley_3d(
        table,
        noise::core::worley::distance_functions::euclidean,
        noise::core::worley::ReturnType::Value,
        [x.into(), y.into(), z.into()],
    ).to_bits()
}

/// The seeded permutation table behind the noise field. It is built once and
/// only read afterwards.
pub struct SpawnHashTable {
    table: PermutationTable,
}

impl SpawnHashTable {
    /// The entries of the table.
    pub closed spec fn values(&self) -> Seq<u8> {
        permutation_values(self.table)
    }

    /// The noise value of a cell, as a function of the table and the cell.
    pub open spec fn spec_evaluate_noise(&self, address: MapAddress) -> NoiseSample {
        noise_at(self.values(), address)
    }

    /// The table of `seed`.
    pub fn new(seed: u32) -> (table: SpawnHashTable)
        ensures
            table.values() == seeded_permutation(seed),
    {
        SpawnHashTable { table: permutation_table(seed) }
    }

    /// The noise value of the cell `address`.
    pub fn evaluate_noise(&self, address: &MapAddress) -> (sample: NoiseSample)
        ensures
            sample == self.spec_evaluate_noise(*address),
    {
        NoiseSample { bits: worley_value_bits(&self.table, address.x, address.y, address.z) }
    }
}

/// The noise value of a cell under a table with the entries `values`.
pub open spec fn noise_at(values: Seq<u8>, address: MapAddress) -> NoiseSample {
    NoiseSample { bits: worley_value(values, address.x as int, address.y as int, address.z as int) }
}

/// Whether a cell is occupied: its noise value exceeds the cutoff.
pub open spec fn occupied(values: Seq<u8>, address: MapAddress) -> bool {
    noise_at(values, address).spec_exceeds_cutoff()
}

/// The noise field is a pure function: tables with the same entries give the
/// same value and the same cutoff decision at the same cell, however often
/// they are asked.
pub proof fn lemma_noise_is_deterministic(
    first: &SpawnHashTable,
    second: &SpawnHashTable,
    address: MapAddress,
)
    requires
        first.values() == second.values(),
    ensures
        first.spec_evaluate_noise(address) == second.spec_evaluate_noise(address),
        first.spec_evaluate_noise(address).spec_exceeds_cutoff() == second.spec_evaluate_noise(
            address,
        ).spec_exceeds_cutoff(),
        first.spec_evaluate_noise(address).spec_size() == second.spec_evaluate_noise(
            address,
        ).spec_size(),
{
}

} // verus!
