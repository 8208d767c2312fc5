//! Fingerprinting: schema verification during encoding and decoding.
//!
//! A fingerprint is a 64-bit hash that validates that the encoder and decoder are using the same
//! schema and configuration. It covers the type (its name, and the fingerprints of the types it
//! is made of) and the settings of the configuration that change the bytes (endianness, integer
//! encoding, whether a limit is set, bit packing and bit ordering).
use crate::bytes::{endian_bytes, uint_to_bytes};
use crate::config::{BitOrdering, BitPacking, Config, Configuration, Endianness, IntEncoding};
use std::borrow::Cow;
use vstd::prelude::*;

verus! {

/// What `rapidhash::v3::rapidhash_v3_seeded` returns for the bytes `data` under the secrets that
/// `rapidhash::v3::RapidSecrets::seed_cpp(seed)` makes.
pub uninterp spec fn rapidhash_cpp(data: Seq<u8>, seed: u64) -> u64;

/// The rapidhash (version 3, C++-compatible seeding) of `data` with `seed`.
///
/// Trusted: calls `rapidhash::v3::rapidhash_v3_seeded(data, &RapidSecrets::seed_cpp(seed))`.
/// The contract claims only that the hash is a function of the bytes and the seed, which the
/// source shows (both are `const fn`s of their arguments); the hash itself is left unsaid.
#[verifier::external_body]
pub(crate) fn rapidhash_seeded(data: &[u8], seed: u64) -> (h: u64)
    ensures
        h == rapidhash_cpp(data@, seed),
{
    rapidhash::v3::rapidhash_v3_seeded(data, &rapidhash::v3::RapidSecrets::seed_cpp(seed))
}

/// The number of a byte order in the configuration hash.
pub open spec fn endian_code(e: Endianness) -> u8 {
    match e {
        Endianness::Little => 0,
        Endianness::Big => 1,
    }
}

/// The number of an integer encoding in the configuration hash.
pub open spec fn int_encoding_code(i: IntEncoding) -> u8 {
    match i {
        IntEncoding::Fixed => 0,
        IntEncoding::Variable => 1,
    }
}

/// The number of a bit packing choice in the configuration hash.
pub open spec fn bit_packing_code(b: BitPacking) -> u8 {
    match b {
        BitPacking::Enabled => 0,
        BitPacking::Disabled => 1,
    }
}

/// The number of a bit ordering in the configuration hash.
pub open spec fn bit_ordering_code(o: BitOrdering) -> u8 {
    match o {
        BitOrdering::Lsb => 0,
        BitOrdering::Msb => 1,
    }
}

/// The bytes that the configuration hash is taken of: the major version of the format, then the
/// byte order, the integer encoding, whether a limit is set, bit packing and bit ordering.
pub open spec fn config_hash_input(c: Configuration) -> Seq<u8> {
    seq![
        crate::BINCODE_MAJOR_VERSION as u8,
        endian_code(c.endian),
        int_encoding_code(c.int_encoding),
        if c.limit is Some { 1u8 } else { 0u8 },
        bit_packing_code(c.bit_packing),
        bit_ordering_code(c.bit_ordering),
    ]
}

/// The hash of the settings of a configuration that change the bytes.
pub open spec fn spec_config_hash(c: Configuration) -> u64 {
    rapidhash_cpp(config_hash_input(c), 0)
}

/// The hash of the settings of the configuration `c` that change the bytes.
pub fn config_hash(c: &Configuration) -> (h: u64)
    ensures
        h == spec_config_hash(*c),
{
    let endian: u8 = match c.endian {
        Endianness::Little => 0,
        Endianness::Big => 1,
    };
    let int_encoding: u8 = match c.int_encoding {
        IntEncoding::Fixed => 0,
        IntEncoding::Variable => 1,
    };
    let limit: u8 = match c.limit {
        Some(_) => 1,
        None => 0,
    };
    let bit_packing: u8 = match c.bit_packing {
        BitPacking::Enabled => 0,
        BitPacking::Disabled => 1,
    };
    let bit_ordering: u8 = match c.bit_ordering {
        BitOrdering::Lsb => 0,
        BitOrdering::Msb => 1,
    };
    let input: [u8; 6] = [
        crate::BINCODE_MAJOR_VERSION as u8,
        endian,
        int_encoding,
        limit,
        bit_packing,
        bit_ordering,
    ];
    proof {
        assert(input@ =~= config_hash_input(*c));
    }
    rapidhash_seeded(&input, 0)
}

/// The hash of a type that is known by its name alone, under the configuration `c`.
pub open spec fn named_hash(name: Seq<u8>, c: Configuration) -> u64 {
    rapidhash_cpp(name, spec_config_hash(c))
}

/// The hash of a type made of one other type: its name hashed with the other type's hash as seed.
pub open spec fn wrapped_hash(name: Seq<u8>, inner: u64) -> u64 {
    rapidhash_cpp(name, inner)
}

/// Fingerprint trait for types that can be hashed for schema verification.
///
/// The fingerprint covers:
/// - The type name
/// - For structs: field names, types, and their order
/// - For enums: variant names, field names, types, and their order
/// - Relevant configuration settings (endianness, integer encoding, etc.)
pub trait Fingerprint<C: Config> {
    /// The schema hash of this type under the settings `c`.
    spec fn spec_schema_hash(c: Configuration) -> u64;

    /// Unique 64-bit hash of the type's schema AND the Configuration used.
    fn schema_hash(config: &C) -> (h: u64)
        ensures
            h == Self::spec_schema_hash(config.settings()),
    ;
}

impl<C: Config> Fingerprint<C> for u8 {
    open spec fn spec_schema_hash(c: Configuration) -> u64 {
        named_hash(seq![0x75u8, 0x38u8], c)
    }

    fn schema_hash(config: &C) -> (h: u64) {
        let name: [u8; 2] = [0x75, 0x38];
        proof {
            assert(name@ =~= seq![0x75u8, 0x38u8]);
        }
        rapidhash_seeded(&name, config_hash(&config.configuration()))
    }
}

impl<C: Config> Fingerprint<C> for u16 {
    open spec fn spec_schema_hash(c: Configuration) -> u64 {
        named_hash(seq![0x75u8, 0x31u8, 0x36u8], c)
    }

    fn schema_hash(config: &C) -> (h: u64) {
        let name: [u8; 3] = [0x75, 0x31, 0x36];
        proof {
            assert(name@ =~= seq![0x75u8, 0x31u8, 0x36u8]);
        }
        rapidhash_seeded(&name, config_hash(&config.configuration()))
    }
}

impl<C: Config> Fingerprint<C> for u32 {
    open spec fn spec_schema_hash(c: Configuration) -> u64 {
        named_hash(seq![0x75u8, 0x33u8, 0x32u8], c)
    }

    fn schema_hash(config: &C) -> (h: u64) {
        let name: [u8; 3] = [0x75, 0x33, 0x32];
        proof {
            assert(name@ =~= seq![0x75u8, 0x33u8, 0x32u8]);
        }
        rapidhash_seeded(&name, config_hash(&config.configuration()))
    }
}

impl<C: Config> Fingerprint<C> for u64 {
    open spec fn spec_schema_hash(c: Configuration) -> u64 {
        named_hash(seq![0x75u8, 0x36u8, 0x34u8], c)
    }

    fn schema_hash(config: &C) -> (h: u64) {
        let name: [u8; 3] = [0x75, 0x36, 0x34];
        proof {
            assert(name@ =~= seq![0x75u8, 0x36u8, 0x34u8]);
        }
        rapidhash_seeded(&name, config_hash(&config.configuration()))
    }
}

impl<C: Config> Fingerprint<C> for u128 {
    open spec fn spec_schema_hash(c: Configuration) -> u64 {
        named_hash(seq![0x75u8, 0x31u8, 0x32u8, 0x38u8], c)
    }

    fn schema_hash(config: &C) -> (h: u64) {
        let name: [u8; 4] = [0x75, 0x31, 0x32, 0x38];
        proof {
            assert(name@ =~= seq![0x75u8, 0x31u8, 0x32u8, 0x38u8]);
        }
        rapidhash_seeded(&name, config_hash(&config.configuration()))
    }
}

impl<C: Config> Fingerprint<C> for usize {
    open spec fn spec_schema_hash(c: Configuration) -> u64 {
        named_hash(seq![0x75u8, 0x73u8, 0x69u8, 0x7au8, 0x65u8], c)
    }

    fn schema_hash(config: &C) -> (h: u64) {
        let name: [u8; 5] = [0x75, 0x73, 0x69, 0x7a, 0x65];
        proof {
            assert(name@ =~= seq![0x75u8, 0x73u8, 0x69u8, 0x7au8, 0x65u8]);
        }
        rapidhash_seeded(&name, config_hash(&config.configuration()))
    }
}

impl<C: Config> Fingerprint<C> for i8 {
    open spec fn spec_schema_hash(c: Configuration) -> u64 {
        named_hash(seq![0x69u8, 0x38u8], c)
    }

    fn schema_hash(config: &C) -> (h: u64) {
        let name: [u8; 2] = [0x69, 0x38];
        proof {
            assert(name@ =~= seq![0x69u8, 0x38u8]);
        }
        rapidhash_seeded(&name, config_hash(&config.configuration()))
    }
}

impl<C: Config> Fingerprint<C> for i16 {
    open spec fn spec_schema_hash(c: Configuration) -> u64 {
        named_hash(seq![0x69u8, 0x31u8, 0x36u8], c)
    }

    fn schema_hash(config: &C) -> (h: u64) {
        let name: [u8; 3] = [0x69, 0x31, 0x36];
        proof {
            assert(name@ =~= seq![0x69u8, 0x31u8, 0x36u8]);
        }
        rapidhash_seeded(&name, config_hash(&config.configuration()))
    }
}

impl<C: Config> Fingerprint<C> for i32 {
    open spec fn spec_schema_hash(c: Configuration) -> u64 {
        named_hash(seq![0x69u8, 0x33u8, 0x32u8], c)
    }

    fn schema_hash(config: &C) -> (h: u64) {
        let name: [u8; 3] = [0x69, 0x33, 0x32];
        proof {
            assert(name@ =~= seq![0x69u8, 0x33u8, 0x32u8]);
        }
        rapidhash_seeded(&name, config_hash(&config.configuration()))
    }
}

impl<C: Config> Fingerprint<C> for i64 {
    open spec fn spec_schema_hash(c: Configuration) -> u64 {
        named_hash(seq![0x69u8, 0x36u8, 0x34u8], c)
    }

    fn schema_hash(config: &C) -> (h: u64) {
        let name: [u8; 3] = [0x69, 0x36, 0x34];
        proof {
            assert(name@ =~= seq![0x69u8, 0x36u8, 0x34u8]);
        }
        rapidhash_seeded(&name, config_hash(&config.configuration()))
    }
}

impl<C: Config> Fingerprint<C> for i128 {
    open spec fn spec_schema_hash(c: Configuration) -> u64 {
        named_hash(seq![0x69u8, 0x31u8, 0x32u8, 0x38u8], c)
    }

    fn schema_hash(config: &C) -> (h: u64) {
        let name: [u8; 4] = [0x69, 0x31, 0x32, 0x38];
        proof {
            assert(name@ =~= seq![0x69u8, 0x31u8, 0x32u8, 0x38u8]);
        }
        rapidhash_seeded(&name, config_hash(&config.configuration()))
    }
}

impl<C: Config> Fingerprint<C> for isize {
    open spec fn spec_schema_hash(c: Configuration) -> u64 {
        named_hash(seq![0x69u8, 0x73u8, 0x69u8, 0x7au8, 0x65u8], c)
    }

    fn schema_hash(config: &C) -> (h: u64) {
        let name: [u8; 5] = [0x69, 0x73, 0x69, 0x7a, 0x65];
        proof {
            assert(name@ =~= seq![0x69u8, 0x73u8, 0x69u8, 0x7au8, 0x65u8]);
        }
        rapidhash_seeded(&name, config_hash(&config.configuration()))
    }
}

impl<C: Config> Fingerprint<C> for bool {
    open spec fn spec_schema_hash(c: Configuration) -> u64 {
        named_hash(seq![0x62u8, 0x6fu8, 0x6fu8, 0x6cu8], c)
    }

    fn schema_hash(config: &C) -> (h: u64) {
        let name: [u8; 4] = [0x62, 0x6f, 0x6f, 0x6c];
        proof {
            assert(name@ =~= seq![0x62u8, 0x6fu8, 0x6fu8, 0x6cu8]);
        }
        rapidhash_seeded(&name, config_hash(&config.configuration()))
    }
}

impl<C: Config> Fingerprint<C> for char {
    open spec fn spec_schema_hash(c: Configuration) -> u64 {
        named_hash(seq![0x63u8, 0x68u8, 0x61u8, 0x72u8], c)
    }

    fn schema_hash(config: &C) -> (h: u64) {
        let name: [u8; 4] = [0x63, 0x68, 0x61, 0x72];
        proof {
            assert(name@ =~= seq![0x63u8, 0x68u8, 0x61u8, 0x72u8]);
        }
        rapidhash_seeded(&name, config_hash(&config.configuration()))
    }
}

impl<C: Config> Fingerprint<C> for str {
    open spec fn spec_schema_hash(c: Configuration) -> u64 {
        named_hash(seq![0x73u8, 0x74u8, 0x72u8], c)
    }

    fn schema_hash(config: &C) -> (h: u64) {
        let name: [u8; 3] = [0x73, 0x74, 0x72];
        proof {
            assert(name@ =~= seq![0x73u8, 0x74u8, 0x72u8]);
        }
        rapidhash_seeded(&name, config_hash(&config.configuration()))
    }
}

impl<C: Config> Fingerprint<C> for String {
    open spec fn spec_schema_hash(c: Configuration) -> u64 {
        named_hash(seq![0x73u8, 0x74u8, 0x72u8], c)
    }

    fn schema_hash(config: &C) -> (h: u64) {
        let name: [u8; 3] = [0x73, 0x74, 0x72];
        proof {
            assert(name@ =~= seq![0x73u8, 0x74u8, 0x72u8]);
        }
        rapidhash_seeded(&name, config_hash(&config.configuration()))
    }
}

impl<C: Config> Fingerprint<C> for () {
    open spec fn spec_schema_hash(c: Configuration) -> u64 {
        named_hash(seq![0x28u8, 0x29u8], c)
    }

    fn schema_hash(config: &C) -> (h: u64) {
        let name: [u8; 2] = [0x28, 0x29];
        proof {
            assert(name@ =~= seq![0x28u8, 0x29u8]);
        }
        rapidhash_seeded(&name, config_hash(&config.configuration()))
    }
}

impl<C: Config, T: Fingerprint<C>> Fingerprint<C> for Option<T> {
    open spec fn spec_schema_hash(c: Configuration) -> u64 {
        wrapped_hash(seq![0x4fu8, 0x70u8, 0x74u8, 0x69u8, 0x6fu8, 0x6eu8], T::spec_schema_hash(c))
    }

    fn schema_hash(config: &C) -> (h: u64) {
        let name: [u8; 6] = [0x4f, 0x70, 0x74, 0x69, 0x6f, 0x6e];
        proof {
            assert(name@ =~= seq![0x4fu8, 0x70u8, 0x74u8, 0x69u8, 0x6fu8, 0x6eu8]);
        }
        rapidhash_seeded(&name, T::schema_hash(config))
    }
}

impl<C: Config, T: Fingerprint<C>> Fingerprint<C> for Vec<T> {
    open spec fn spec_schema_hash(c: Configuration) -> u64 {
        wrapped_hash(seq![0x56u8, 0x65u8, 0x63u8], T::spec_schema_hash(c))
    }

    fn schema_hash(config: &C) -> (h: u64) {
        let name: [u8; 3] = [0x56, 0x65, 0x63];
        proof {
            assert(name@ =~= seq![0x56u8, 0x65u8, 0x63u8]);
        }
        rapidhash_seeded(&name, T::schema_hash(config))
    }
}

impl<C: Config, T: Fingerprint<C> + ?Sized> Fingerprint<C> for &T {
    open spec fn spec_schema_hash(c: Configuration) -> u64 {
        T::spec_schema_hash(c)
    }

    fn schema_hash(config: &C) -> (h: u64) {
        T::schema_hash(config)
    }
}

impl<'a, C: Config> Fingerprint<C> for Cow<'a, str> {
    open spec fn spec_schema_hash(c: Configuration) -> u64 {
        <str as Fingerprint<C>>::spec_schema_hash(c)
    }

    fn schema_hash(config: &C) -> (h: u64) {
        <str as Fingerprint<C>>::schema_hash(config)
    }
}

impl<C: Config, T: Fingerprint<C>, E: Fingerprint<C>> Fingerprint<C> for Result<T, E> {
    open spec fn spec_schema_hash(c: Configuration) -> u64 {
        rapidhash_cpp(
            endian_bytes(Endianness::Little, E::spec_schema_hash(c) as nat, 8),
            wrapped_hash(seq![0x52u8, 0x65u8, 0x73u8, 0x75u8, 0x6cu8, 0x74u8], T::spec_schema_hash(c)),
        )
    }

    fn schema_hash(config: &C) -> (h: u64) {
        let name: [u8; 6] = [0x52, 0x65, 0x73, 0x75, 0x6c, 0x74];
        proof {
            assert(name@ =~= seq![0x52u8, 0x65u8, 0x73u8, 0x75u8, 0x6cu8, 0x74u8]);
        }
        let seed = rapidhash_seeded(&name, T::schema_hash(config));
        let tail = uint_to_bytes(Endianness::Little, E::schema_hash(config) as u128, 8);
        rapidhash_seeded(tail.as_slice(), seed)
    }
}

/// The schema hash of a type made of others is seeded with theirs, so that it changes with them:
/// a `Vec` hashes the bytes `Vec` with its item's hash as seed, an `Option` the bytes `Option`, a
/// `Result` the little-endian bytes of its error's hash with the hash of `Result` under its value's
/// hash as seed; a reference has the hash of what it refers to. A type known by its name alone
/// hashes its name with the hash of the configuration's settings as seed, and that hash is taken
/// of the settings' bytes with seed 0.
pub proof fn lemma_schema_hash_composition<C: Config, T: Fingerprint<C>, E: Fingerprint<C>>(c: Configuration)
    ensures
        <Vec<T> as Fingerprint<C>>::spec_schema_hash(c) == rapidhash_cpp(
            seq![0x56u8, 0x65u8, 0x63u8],
            T::spec_schema_hash(c),
        ),
        <Option<T> as Fingerprint<C>>::spec_schema_hash(c) == rapidhash_cpp(
            seq![0x4fu8, 0x70u8, 0x74u8, 0x69u8, 0x6fu8, 0x6eu8],
            T::spec_schema_hash(c),
        ),
        <Result<T, E> as Fingerprint<C>>::spec_schema_hash(c) == rapidhash_cpp(
            endian_bytes(Endianness::Little, E::spec_schema_hash(c) as nat, 8),
            rapidhash_cpp(seq![0x52u8, 0x65u8, 0x73u8, 0x75u8, 0x6cu8, 0x74u8], T::spec_schema_hash(c)),
        ),
        <&T as Fingerprint<C>>::spec_schema_hash(c) == T::spec_schema_hash(c),
        <u8 as Fingerprint<C>>::spec_schema_hash(c) == rapidhash_cpp(
            seq![0x75u8, 0x38u8],
            rapidhash_cpp(config_hash_input(c), 0),
        ),
        <u32 as Fingerprint<C>>::spec_schema_hash(c) == rapidhash_cpp(
            seq![0x75u8, 0x33u8, 0x32u8],
            rapidhash_cpp(config_hash_input(c), 0),
        ),
        <String as Fingerprint<C>>::spec_schema_hash(c) == <str as Fingerprint<C>>::spec_schema_hash(c),
        <str as Fingerprint<C>>::spec_schema_hash(c) == rapidhash_cpp(
            seq![0x73u8, 0x74u8, 0x72u8],
            rapidhash_cpp(config_hash_input(c), 0),
        ),
{
}

} // verus!
