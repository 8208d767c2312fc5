//! The config module is used to change the behavior of bincode's encoding and decoding logic.
//!
//! *Important* make sure you use the same config for encoding and decoding, or else bincode will not work properly.
//!
//! To use a config, first create a [Configuration] with [standard] or [legacy], then change it with its builder methods.
//! The last call to one of a pair of mutually exclusive methods decides the behavior.
use crate::bytes::{le_bytes, le_value, lemma_le_value_bound, lemma_pow256_values, uint_from_bytes, uint_to_bytes};
use crate::de::read::{short_read, Reader};
use crate::enc::write::{appended, Writer};
use crate::error::{DecodeError, EncodeError};
use crate::fingerprint::{config_hash, spec_config_hash, Fingerprint};
use core::marker::PhantomData;
use vstd::prelude::*;

verus! {

/// Endianness of a `Configuration`.
#[derive(Copy, Clone, Debug, PartialEq, Eq, Structural)]
pub enum Endianness {
    /// Little Endian encoding, see `LittleEndian`.
    Little,
    /// Big Endian encoding, see `BigEndian`.
    Big,
}

/// Integer Encoding of a `Configuration`.
#[derive(Copy, Clone, Debug, PartialEq, Eq, Structural)]
pub enum IntEncoding {
    /// Fixed Integer Encoding, see `Fixint`.
    Fixed,
    /// Variable Integer Encoding, see `Varint`.
    Variable,
}

/// Bit packing of a `Configuration`.
#[derive(Copy, Clone, Debug, PartialEq, Eq, Structural)]
pub enum BitPacking {
    /// Enable bit-packing.
    Enabled,
    /// Disable bit-packing.
    Disabled,
}

/// Bit ordering of a `Configuration`.
#[derive(Copy, Clone, Debug, PartialEq, Eq, Structural)]
pub enum BitOrdering {
    /// Least Significant Bit first.
    Lsb,
    /// Most Significant Bit first.
    Msb,
}

/// Fingerprint mode of a `Configuration`.
#[derive(Copy, Clone, Debug, PartialEq, Eq, Structural)]
pub enum FingerprintMode {
    /// Fingerprinting is disabled.
    Disabled,
    /// Fingerprinting is enabled with a seed.
    Enabled {
        /// The seed to use for hashing.
        seed: u64,
    },
    /// Legacy fingerprinting with an expected hash.
    Legacy {
        /// The hash that is expected to be present.
        expected: u64,
    },
}

/// Format of a `Configuration`.
#[derive(Copy, Clone, Debug, PartialEq, Eq, Structural)]
pub enum Format {
    /// Bincode (default).
    Bincode,
    /// Bincode with deterministic encoding.
    BincodeDeterministic,
    /// CBOR.
    Cbor,
    /// CBOR with deterministic encoding.
    CborDeterministic,
}

/// The modes for CBOR deterministic encoding.
#[derive(Copy, Clone, Debug, PartialEq, Eq, Structural)]
pub enum CborDeterministicMode {
    /// No deterministic encoding requirements.
    Relaxed,
    /// Core deterministic encoding (RFC 8949 §4.2.1).
    Core,
    /// Length-first deterministic encoding (RFC 8949 §4.2.3).
    LengthFirst,
}

/// Detailed options for CBOR encoding.
#[derive(Copy, Clone, Debug, PartialEq, Eq, Structural)]
pub struct CborOptions {
    /// Deterministic encoding mode.
    pub deterministic_mode: CborDeterministicMode,
    /// Preferred serialization for floating-point values (§4.1).
    pub preferred_float: bool,
    /// Canonical NaN encoding (0xf97e00).
    pub canonical_nan: bool,
    /// Normalize negative zero (-0.0) to positive zero (0.0).
    pub normalize_neg_zero: bool,
    /// Allow indefinite-length items.
    pub allow_indefinite: bool,
    /// Strict tag validity checking.
    pub strict_tags: bool,
}

impl CborOptions {
    /// Default CBOR options.
    pub open spec fn spec_default() -> CborOptions {
        CborOptions {
            deterministic_mode: CborDeterministicMode::Relaxed,
            preferred_float: true,
            canonical_nan: true,
            normalize_neg_zero: false,
            allow_indefinite: true,
            strict_tags: false,
        }
    }

    /// Default options for deterministic CBOR.
    pub open spec fn spec_deterministic() -> CborOptions {
        CborOptions {
            deterministic_mode: CborDeterministicMode::Core,
            preferred_float: true,
            canonical_nan: true,
            normalize_neg_zero: false,
            allow_indefinite: false,
            strict_tags: true,
        }
    }

    /// Default CBOR options.
    pub fn default_options() -> (o: CborOptions)
        ensures
            o == Self::spec_default(),
    {
        CborOptions {
            deterministic_mode: CborDeterministicMode::Relaxed,
            preferred_float: true,
            canonical_nan: true,
            normalize_neg_zero: false,
            allow_indefinite: true,
            strict_tags: false,
        }
    }

    /// Default options for deterministic CBOR (RFC 8949 §4.2.1 does not normalize -0.0).
    pub fn deterministic() -> (o: CborOptions)
        ensures
            o == Self::spec_deterministic(),
    {
        CborOptions {
            deterministic_mode: CborDeterministicMode::Core,
            preferred_float: true,
            canonical_nan: true,
            normalize_neg_zero: false,
            allow_indefinite: false,
            strict_tags: true,
        }
    }
}

/// The Configuration struct is used to build bincode configurations. The [Config] trait is implemented
/// by this struct.
///
/// The following methods are mutually exclusive and will overwrite each other. The last call to one of these methods determines the behavior of the configuration:
///
/// - `with_little_endian` and `with_big_endian`
/// - `with_fixed_int_encoding` and `with_variable_int_encoding`
/// - `with_limit` and `with_no_limit`
/// - `with_bit_packing` and `with_no_bit_packing`
///
/// The fingerprint mode is part of the type (the parameter `F`), because checking a fingerprint needs
/// the fingerprint of the encoded type.
pub struct Configuration<F = FingerprintDisabled> {
    /// Byte order of multi-byte integers.
    pub endian: Endianness,
    /// Fixed or variable length integers.
    pub int_encoding: IntEncoding,
    /// The byte limit for decoding, if any.
    pub limit: Option<usize>,
    /// Whether bit-packing is used for types that support it.
    pub bit_packing: BitPacking,
    /// The order of bits within a packed byte.
    pub bit_ordering: BitOrdering,
    /// Bincode or CBOR, plain or deterministic.
    pub format: Format,
    /// The options of the CBOR format.
    pub cbor: CborOptions,
    /// The fingerprint mode.
    pub fingerprint: PhantomData<F>,
}

impl<F> Clone for Configuration<F> {
    fn clone(&self) -> (c: Self)
        ensures
            c == *self,
    {
        Configuration {
            endian: self.endian,
            int_encoding: self.int_encoding,
            limit: self.limit,
            bit_packing: self.bit_packing,
            bit_ordering: self.bit_ordering,
            format: self.format,
            cbor: self.cbor,
            fingerprint: PhantomData,
        }
    }
}

impl<F> Copy for Configuration<F> {

}

/// The configuration that `standard()` returns.
pub open spec fn spec_standard() -> Configuration {
    Configuration {
        endian: Endianness::Little,
        int_encoding: IntEncoding::Variable,
        limit: None,
        bit_packing: BitPacking::Disabled,
        bit_ordering: BitOrdering::Lsb,
        format: Format::Bincode,
        cbor: CborOptions::spec_default(),
        fingerprint: PhantomData,
    }
}

/// The default config for bincode 2.0. By default this will be:
/// - Little endian
/// - Variable int encoding
/// - No limit, no bit-packing, LSB-first bit order, no fingerprint, the bincode format
pub fn standard() -> (c: Configuration)
    ensures
        c == spec_standard(),
{
    Configuration {
        endian: Endianness::Little,
        int_encoding: IntEncoding::Variable,
        limit: None,
        bit_packing: BitPacking::Disabled,
        bit_ordering: BitOrdering::Lsb,
        format: Format::Bincode,
        cbor: CborOptions::default_options(),
        fingerprint: PhantomData,
    }
}

/// Creates the "legacy" default config. This is the default config that was present in bincode 1.0
/// - Little endian
/// - Fixed int length encoding
pub fn legacy() -> (c: Configuration)
    ensures
        c == (Configuration { int_encoding: IntEncoding::Fixed, ..spec_standard() }),
{
    let c = standard();
    Configuration { int_encoding: IntEncoding::Fixed, ..c }
}

impl<F> Configuration<F> {
    /// The same configuration with another fingerprint mode.
    pub open spec fn spec_with_mode<G>(self) -> Configuration<G> {
        Configuration {
            endian: self.endian,
            int_encoding: self.int_encoding,
            limit: self.limit,
            bit_packing: self.bit_packing,
            bit_ordering: self.bit_ordering,
            format: self.format,
            cbor: self.cbor,
            fingerprint: PhantomData,
        }
    }

    fn with_mode<G>(self) -> (c: Configuration<G>)
        ensures
            c == self.spec_with_mode::<G>(),
    {
        Configuration {
            endian: self.endian,
            int_encoding: self.int_encoding,
            limit: self.limit,
            bit_packing: self.bit_packing,
            bit_ordering: self.bit_ordering,
            format: self.format,
            cbor: self.cbor,
            fingerprint: PhantomData,
        }
    }

    /// Makes bincode encode all integer types in big endian, with MSB-first bit order.
    pub fn with_big_endian(self) -> (c: Self)
        ensures
            c == (Configuration { endian: Endianness::Big, bit_ordering: BitOrdering::Msb, ..self }),
    {
        Configuration { endian: Endianness::Big, bit_ordering: BitOrdering::Msb, ..self }
    }

    /// Makes bincode encode all integer types in little endian, with LSB-first bit order.
    pub fn with_little_endian(self) -> (c: Self)
        ensures
            c == (Configuration { endian: Endianness::Little, bit_ordering: BitOrdering::Lsb, ..self }),
    {
        Configuration { endian: Endianness::Little, bit_ordering: BitOrdering::Lsb, ..self }
    }

    /// Makes bincode encode all integer types with a variable integer encoding.
    ///
    /// An unsigned integer `u` (of any type but `u8`) is written as a single byte when `u < 251`;
    /// otherwise as a marker byte `251`, `252`, `253` or `254` followed by `u` as a `u16`, `u32`,
    /// `u64` or `u128`, whichever is the smallest that holds it. Signed integers are first mapped
    /// to unsigned ones with the zigzag map (`0, -1, 1, -2, 2, ...` to `0, 1, 2, 3, 4, ...`).
    pub fn with_variable_int_encoding(self) -> (c: Self)
        ensures
            c == (Configuration { int_encoding: IntEncoding::Variable, ..self }),
    {
        Configuration { int_encoding: IntEncoding::Variable, ..self }
    }

    /// Fixed-size integer encoding: integers are written with their full width.
    pub fn with_fixed_int_encoding(self) -> (c: Self)
        ensures
            c == (Configuration { int_encoding: IntEncoding::Fixed, ..self }),
    {
        Configuration { int_encoding: IntEncoding::Fixed, ..self }
    }

    /// Sets the byte limit to `N`.
    pub fn with_limit<const N: usize>(self) -> (c: Self)
        ensures
            c == (Configuration { limit: Some(N), ..self }),
    {
        Configuration { limit: Some(N), ..self }
    }

    /// Clear the byte limit.
    pub fn with_no_limit(self) -> (c: Self)
        ensures
            c == (Configuration { limit: None, ..self }),
    {
        Configuration { limit: None, ..self }
    }

    /// Enables bit-packing for types that support it.
    pub fn with_bit_packing(self) -> (c: Self)
        ensures
            c == (Configuration { bit_packing: BitPacking::Enabled, ..self }),
    {
        Configuration { bit_packing: BitPacking::Enabled, ..self }
    }

    /// Disables bit-packing.
    pub fn with_no_bit_packing(self) -> (c: Self)
        ensures
            c == (Configuration { bit_packing: BitPacking::Disabled, ..self }),
    {
        Configuration { bit_packing: BitPacking::Disabled, ..self }
    }

    /// Enables fingerprinting with the default deterministic seed (0).
    pub fn with_fingerprint(self) -> (c: Configuration<FingerprintEnabled<0>>)
        ensures
            c == self.spec_with_mode::<FingerprintEnabled<0>>(),
    {
        self.with_mode()
    }

    /// Enables fingerprinting with a custom seed.
    pub fn with_fingerprint_and_seed<const SEED: u64>(self) -> (c: Configuration<
        FingerprintEnabled<SEED>,
    >)
        ensures
            c == self.spec_with_mode::<FingerprintEnabled<SEED>>(),
    {
        self.with_mode()
    }

    /// Enables legacy fingerprinting with an expected hash, which is checked on decoding only.
    pub fn with_legacy_fingerprint<const EXPECTED: u64>(self) -> (c: Configuration<
        FingerprintLegacy<EXPECTED>,
    >)
        ensures
            c == self.spec_with_mode::<FingerprintLegacy<EXPECTED>>(),
    {
        self.with_mode()
    }

    /// Sets the format to CBOR with default options.
    pub fn with_cbor_format(self) -> (c: Self)
        ensures
            c == (Configuration { format: Format::Cbor, cbor: CborOptions::spec_default(), ..self }),
    {
        Configuration { format: Format::Cbor, cbor: CborOptions::default_options(), ..self }
    }

    /// Sets the format to CBOR with deterministic encoding (Core mode).
    pub fn with_deterministic_cbor(self) -> (c: Self)
        ensures
            c == (Configuration {
                format: Format::CborDeterministic,
                cbor: CborOptions::spec_deterministic(),
                ..self
            }),
    {
        Configuration {
            format: Format::CborDeterministic,
            cbor: CborOptions::deterministic(),
            ..self
        }
    }

    /// Sets the format to Bincode with deterministic encoding.
    pub fn with_deterministic_bincode(self) -> (c: Self)
        ensures
            c == (Configuration {
                format: Format::BincodeDeterministic,
                cbor: CborOptions::spec_default(),
                ..self
            }),
    {
        Configuration {
            format: Format::BincodeDeterministic,
            cbor: CborOptions::default_options(),
            ..self
        }
    }

    /// Sets the format to CBOR with custom options. `DET` selects the deterministic mode
    /// (`1` Core, `2` length-first, anything else none); the format is deterministic CBOR
    /// exactly when `DET` is not `0`.
    pub fn with_cbor_options<
        const DET: u8,
        const PREF: bool,
        const NAN: bool,
        const NZ: bool,
        const INDEF: bool,
        const TAGS: bool,
    >(self) -> (c: Self)
        ensures
            c == (Configuration {
                format: if DET == 0 {
                    Format::Cbor
                } else {
                    Format::CborDeterministic
                },
                cbor: CborOptions {
                    deterministic_mode: if DET == 1 {
                        CborDeterministicMode::Core
                    } else if DET == 2 {
                        CborDeterministicMode::LengthFirst
                    } else {
                        CborDeterministicMode::Relaxed
                    },
                    preferred_float: PREF,
                    canonical_nan: NAN,
                    normalize_neg_zero: NZ,
                    allow_indefinite: INDEF,
                    strict_tags: TAGS,
                },
                ..self
            }),
    {
        let mode = if DET == 1 {
            CborDeterministicMode::Core
        } else if DET == 2 {
            CborDeterministicMode::LengthFirst
        } else {
            CborDeterministicMode::Relaxed
        };
        let format = if DET == 0 {
            Format::Cbor
        } else {
            Format::CborDeterministic
        };
        Configuration {
            format,
            cbor: CborOptions {
                deterministic_mode: mode,
                preferred_float: PREF,
                canonical_nan: NAN,
                normalize_neg_zero: NZ,
                allow_indefinite: INDEF,
                strict_tags: TAGS,
            },
            ..self
        }
    }
}

/// Indicates a type is valid for controlling the bincode configuration.
pub trait Config: Sized {
    /// The fingerprint mode of this configuration.
    type Mode: InternalFingerprintConfig;

    /// The settings that this configuration stands for.
    spec fn settings(&self) -> Configuration;

    /// A copy of this configuration.
    fn duplicate(&self) -> (c: Self)
        ensures
            c.settings() == self.settings(),
    ;

    /// The plain settings of this configuration.
    fn configuration(&self) -> (c: Configuration)
        ensures
            c == self.settings(),
    ;

    /// This configuration's Endianness
    fn endianness(&self) -> (e: Endianness)
        ensures
            e == self.settings().endian,
    ;

    /// This configuration's Integer Encoding
    fn int_encoding(&self) -> (i: IntEncoding)
        ensures
            i == self.settings().int_encoding,
    ;

    /// This configuration's byte limit, or `None` if no limit is configured
    fn limit(&self) -> (l: Option<usize>)
        ensures
            l == self.settings().limit,
    ;

    /// Whether bit-packing is enabled for this configuration
    fn bit_packing_enabled(&self) -> (b: bool)
        ensures
            b == (self.settings().bit_packing == BitPacking::Enabled),
    ;

    /// Returns the bit ordering of this configuration
    fn bit_ordering(&self) -> (o: BitOrdering)
        ensures
            o == self.settings().bit_ordering,
    ;

    /// Returns the fingerprint mode of this configuration
    fn fingerprint_mode(&self) -> (m: FingerprintMode)
        ensures
            m == Self::Mode::spec_mode(),
    ;

    /// Returns the format of this configuration
    fn format(&self) -> (f: Format)
        ensures
            f == self.settings().format,
    ;

    /// Returns the CBOR options of this configuration.
    fn cbor_options(&self) -> (o: CborOptions)
        ensures
            o == self.settings().cbor,
    ;
}

impl<F: InternalFingerprintConfig> Config for Configuration<F> {
    type Mode = F;

    open spec fn settings(&self) -> Configuration {
        self.spec_with_mode::<FingerprintDisabled>()
    }

    fn duplicate(&self) -> (c: Self) {
        Configuration { ..*self }
    }

    fn configuration(&self) -> (c: Configuration) {
        self.with_mode()
    }

    fn endianness(&self) -> (e: Endianness) {
        self.endian
    }

    fn int_encoding(&self) -> (i: IntEncoding) {
        self.int_encoding
    }

    fn limit(&self) -> (l: Option<usize>) {
        self.limit
    }

    fn bit_packing_enabled(&self) -> (b: bool) {
        match self.bit_packing {
            BitPacking::Enabled => true,
            BitPacking::Disabled => false,
        }
    }

    fn bit_ordering(&self) -> (o: BitOrdering) {
        self.bit_ordering
    }

    fn fingerprint_mode(&self) -> (m: FingerprintMode) {
        F::fingerprint_mode()
    }

    fn format(&self) -> (f: Format) {
        self.format
    }

    fn cbor_options(&self) -> (o: CborOptions) {
        self.cbor
    }
}

/// Encodes all integer types in big endian.
#[derive(Copy, Clone, Debug)]
pub struct BigEndian;

/// Encodes all integer types in little endian.
#[derive(Copy, Clone, Debug)]
pub struct LittleEndian;

/// Use fixed-size integer encoding.
#[derive(Copy, Clone, Debug)]
pub struct Fixint;

/// Use variable integer encoding.
#[derive(Copy, Clone, Debug)]
pub struct Varint;

/// Sets an unlimited byte limit.
#[derive(Copy, Clone, Debug)]
pub struct NoLimit;

/// Sets the byte limit to N.
#[derive(Copy, Clone, Debug)]
pub struct Limit<const N: usize>;

/// Use bit-packing for types that support it.
#[derive(Copy, Clone, Debug)]
pub struct AllowBitPacking;

/// Skip bit-packing.
#[derive(Copy, Clone, Debug)]
pub struct SkipBitPacking;

/// Use MSB-first bit ordering.
#[derive(Copy, Clone, Debug)]
pub struct MsbFirst;

/// Use LSB-first bit ordering.
#[derive(Copy, Clone, Debug)]
pub struct LsbFirst;

/// Fingerprinting is disabled.
#[derive(Copy, Clone, Debug)]
pub struct FingerprintDisabled;

/// Fingerprinting is enabled with a seed.
#[derive(Copy, Clone, Debug)]
pub struct FingerprintEnabled<const SEED: u64>;

/// Legacy fingerprinting with an expected hash.
#[derive(Copy, Clone, Debug)]
pub struct FingerprintLegacy<const EXPECTED: u64>;

/// The default bincode format.
#[derive(Copy, Clone, Debug)]
pub struct BincodeFormat;

/// Bincode format with deterministic encoding.
#[derive(Copy, Clone, Debug)]
pub struct BincodeDeterministicFormat;

/// CBOR configuration with const generic options.
#[derive(Copy, Clone, Debug)]
pub struct CborConfig<
    const DET: u8,
    const PREF: bool,
    const NAN: bool,
    const NZ: bool,
    const INDEF: bool,
    const TAGS: bool,
>;

/// A marker type that selects an endianness.
pub trait InternalEndianConfig {
    /// The endianness this marker selects.
    fn endian() -> Endianness;
}

impl InternalEndianConfig for BigEndian {
    fn endian() -> Endianness {
        Endianness::Big
    }
}

impl InternalEndianConfig for LittleEndian {
    fn endian() -> Endianness {
        Endianness::Little
    }
}

/// A marker type that selects an integer encoding.
pub trait InternalIntEncodingConfig {
    /// The integer encoding this marker selects.
    fn int_encoding() -> IntEncoding;
}

impl InternalIntEncodingConfig for Fixint {
    fn int_encoding() -> IntEncoding {
        IntEncoding::Fixed
    }
}

impl InternalIntEncodingConfig for Varint {
    fn int_encoding() -> IntEncoding {
        IntEncoding::Variable
    }
}

/// A marker type that selects a byte limit.
pub trait InternalLimitConfig {
    /// The limit this marker selects.
    fn limit() -> Option<usize>;
}

impl InternalLimitConfig for NoLimit {
    fn limit() -> Option<usize> {
        None
    }
}

impl<const N: usize> InternalLimitConfig for Limit<N> {
    fn limit() -> Option<usize> {
        Some(N)
    }
}

/// A marker type that selects bit-packing.
pub trait InternalBitPackingConfig {
    /// The bit-packing this marker selects.
    fn bit_packing() -> BitPacking;
}

impl InternalBitPackingConfig for AllowBitPacking {
    fn bit_packing() -> BitPacking {
        BitPacking::Enabled
    }
}

impl InternalBitPackingConfig for SkipBitPacking {
    fn bit_packing() -> BitPacking {
        BitPacking::Disabled
    }
}

/// A marker type that selects a bit ordering.
pub trait InternalBitOrderingConfig {
    /// The bit ordering this marker selects.
    fn bit_ordering() -> BitOrdering;
}

impl InternalBitOrderingConfig for MsbFirst {
    fn bit_ordering() -> BitOrdering {
        BitOrdering::Msb
    }
}

impl InternalBitOrderingConfig for LsbFirst {
    fn bit_ordering() -> BitOrdering {
        BitOrdering::Lsb
    }
}

/// A marker type that selects a fingerprint mode.
pub trait InternalFingerprintConfig {
    /// The fingerprint mode this marker selects.
    spec fn spec_mode() -> FingerprintMode;

    /// The fingerprint mode this marker selects.
    fn fingerprint_mode() -> (m: FingerprintMode)
        ensures
            m == Self::spec_mode(),
    ;
}

impl InternalFingerprintConfig for FingerprintDisabled {
    open spec fn spec_mode() -> FingerprintMode {
        FingerprintMode::Disabled
    }

    fn fingerprint_mode() -> (m: FingerprintMode) {
        FingerprintMode::Disabled
    }
}

impl<const SEED: u64> InternalFingerprintConfig for FingerprintEnabled<SEED> {
    open spec fn spec_mode() -> FingerprintMode {
        FingerprintMode::Enabled { seed: SEED }
    }

    fn fingerprint_mode() -> (m: FingerprintMode) {
        FingerprintMode::Enabled { seed: SEED }
    }
}

impl<const EXPECTED: u64> InternalFingerprintConfig for FingerprintLegacy<EXPECTED> {
    open spec fn spec_mode() -> FingerprintMode {
        FingerprintMode::Legacy { expected: EXPECTED }
    }

    fn fingerprint_mode() -> (m: FingerprintMode) {
        FingerprintMode::Legacy { expected: EXPECTED }
    }
}

/// A marker type that selects a format and its CBOR options.
pub trait InternalFormatConfig {
    /// The format this marker selects.
    spec fn spec_format() -> Format;

    /// The CBOR options this marker selects.
    spec fn spec_cbor_options() -> CborOptions;

    /// The format this marker selects, to run.
    fn format() -> (f: Format)
        ensures
            f == Self::spec_format(),
    ;

    /// The CBOR options this marker selects, to run.
    fn cbor_options() -> (o: CborOptions)
        ensures
            o == Self::spec_cbor_options(),
    ;
}

impl InternalFormatConfig for BincodeFormat {
    open spec fn spec_format() -> Format {
        Format::Bincode
    }

    open spec fn spec_cbor_options() -> CborOptions {
        CborOptions::spec_default()
    }

    fn format() -> Format {
        Format::Bincode
    }

    fn cbor_options() -> CborOptions {
        CborOptions::default_options()
    }
}

impl InternalFormatConfig for BincodeDeterministicFormat {
    open spec fn spec_format() -> Format {
        Format::BincodeDeterministic
    }

    open spec fn spec_cbor_options() -> CborOptions {
        CborOptions::spec_default()
    }

    fn format() -> Format {
        Format::BincodeDeterministic
    }

    fn cbor_options() -> CborOptions {
        CborOptions::default_options()
    }
}

impl<
    const DET: u8,
    const PREF: bool,
    const NAN: bool,
    const NZ: bool,
    const INDEF: bool,
    const TAGS: bool,
> InternalFormatConfig for CborConfig<DET, PREF, NAN, NZ, INDEF, TAGS> {
    open spec fn spec_format() -> Format {
        if DET == 0 {
            Format::Cbor
        } else {
            Format::CborDeterministic
        }
    }

    open spec fn spec_cbor_options() -> CborOptions {
        CborOptions {
            deterministic_mode: if DET == 1 {
                CborDeterministicMode::Core
            } else if DET == 2 {
                CborDeterministicMode::LengthFirst
            } else {
                CborDeterministicMode::Relaxed
            },
            preferred_float: PREF,
            canonical_nan: NAN,
            normalize_neg_zero: NZ,
            allow_indefinite: INDEF,
            strict_tags: TAGS,
        }
    }

    fn format() -> Format {
        if DET == 0 {
            Format::Cbor
        } else {
            Format::CborDeterministic
        }
    }

    fn cbor_options() -> CborOptions {
        CborOptions {
            deterministic_mode: if DET == 1 {
                CborDeterministicMode::Core
            } else if DET == 2 {
                CborDeterministicMode::LengthFirst
            } else {
                CborDeterministicMode::Relaxed
            },
            preferred_float: PREF,
            canonical_nan: NAN,
            normalize_neg_zero: NZ,
            allow_indefinite: INDEF,
            strict_tags: TAGS,
        }
    }
}

/// A configuration seen through its fingerprint mode.
pub trait InternalFingerprintConfigExt {
    /// The fingerprint mode marker.
    type Mode;
}

impl<F> InternalFingerprintConfigExt for Configuration<F> {
    type Mode = F;
}

/// What the fingerprint check takes from the front of `s` when the hash `expected` is looked
/// for: nothing when none is; else 8 bytes holding `expected` in little endian, or the error.
pub open spec fn fingerprint_taken(expected: Option<u64>, s: Seq<u8>) -> Result<nat, DecodeError> {
    match expected {
        None => Ok(0),
        Some(h) => if s.len() < 8 {
            Err(short_read(8, s.len()))
        } else if le_value(s.take(8)) != h {
            Err(DecodeError::SchemaMismatch { expected_hash: h, found_hash: le_value(s.take(8)) as u64 })
        } else {
            Ok(8)
        },
    }
}

/// Read 8 bytes and compare them, as a little-endian number, with `expected`.
fn check_hash<R: Reader>(reader: &mut R, expected: u64) -> (r: Result<(), DecodeError>)
    ensures
        match fingerprint_taken(Some(expected), old(reader).pending()) {
            Ok(n) => r is Ok && (*final(reader)).pending() == old(reader).pending().skip(n as int),
            Err(e) => r == Err::<(), DecodeError>(e),
        },
{
    let mut bytes = [0u8; 8];
    match reader.read(&mut bytes) {
        Ok(()) => {},
        Err(e) => return Err(e),
    }
    let actual = uint_from_bytes(Endianness::Little, &bytes);
    proof {
        lemma_pow256_values();
        lemma_le_value_bound(bytes@);
    }
    if actual != expected as u128 {
        return Err(DecodeError::SchemaMismatch { expected_hash: expected, found_hash: actual as u64 });
    }
    Ok(())
}

/// The check that a fingerprint mode puts in front of a value of type `D`: the bytes written
/// before the value, and the hash looked for before it is decoded.
pub trait InternalFingerprintGuard<D, C: Config> {
    /// The bytes written in front of the value under the settings `c`.
    spec fn prefix(c: Configuration) -> Seq<u8>;

    /// The hash looked for in front of the value under the settings `c`, if any.
    spec fn expected(c: Configuration) -> Option<u64>;

    /// Check the fingerprint in front of the value.
    fn decode_check<R: Reader>(config: &C, reader: &mut R) -> (r: Result<(), DecodeError>)
        ensures
            match fingerprint_taken(Self::expected(config.settings()), old(reader).pending()) {
                Ok(n) => r is Ok && (*final(reader)).pending() == old(reader).pending().skip(n as int),
                Err(e) => r == Err::<(), DecodeError>(e),
            },
    ;

    /// Write the fingerprint in front of the value.
    fn encode_check<W: Writer>(config: &C, writer: &mut W) -> (r: Result<(), EncodeError>)
        ensures
            appended(*old(writer), *final(writer), Self::prefix(config.settings()), r),
    ;
}

impl<D, C: Config> InternalFingerprintGuard<D, C> for FingerprintDisabled {
    open spec fn prefix(c: Configuration) -> Seq<u8> {
        Seq::empty()
    }

    open spec fn expected(c: Configuration) -> Option<u64> {
        None
    }

    fn decode_check<R: Reader>(config: &C, reader: &mut R) -> (r: Result<(), DecodeError>) {
        proof {
            assert(old(reader).pending().skip(0) =~= old(reader).pending());
        }
        Ok(())
    }

    fn encode_check<W: Writer>(config: &C, writer: &mut W) -> (r: Result<(), EncodeError>) {
        proof {
            writer.lemma_room_empty();
            assert(old(writer).written() + Seq::<u8>::empty() =~= old(writer).written());
        }
        Ok(())
    }
}

impl<D: Fingerprint<C>, C: Config, const SEED: u64> InternalFingerprintGuard<D, C> for FingerprintEnabled<SEED> {
    open spec fn prefix(c: Configuration) -> Seq<u8> {
        le_bytes(D::spec_schema_hash(c) as nat, 8)
    }

    open spec fn expected(c: Configuration) -> Option<u64> {
        Some(D::spec_schema_hash(c))
    }

    fn decode_check<R: Reader>(config: &C, reader: &mut R) -> (r: Result<(), DecodeError>) {
        check_hash(reader, D::schema_hash(config))
    }

    fn encode_check<W: Writer>(config: &C, writer: &mut W) -> (r: Result<(), EncodeError>) {
        let bytes = uint_to_bytes(Endianness::Little, D::schema_hash(config) as u128, 8);
        writer.write(bytes.as_slice())
    }
}

impl<D, C: Config, const EXPECTED: u64> InternalFingerprintGuard<D, C> for FingerprintLegacy<EXPECTED> {
    open spec fn prefix(c: Configuration) -> Seq<u8> {
        Seq::empty()
    }

    open spec fn expected(c: Configuration) -> Option<u64> {
        Some(EXPECTED)
    }

    fn decode_check<R: Reader>(config: &C, reader: &mut R) -> (r: Result<(), DecodeError>) {
        check_hash(reader, EXPECTED)
    }

    fn encode_check<W: Writer>(config: &C, writer: &mut W) -> (r: Result<(), EncodeError>) {
        proof {
            writer.lemma_room_empty();
            assert(old(writer).written() + Seq::<u8>::empty() =~= old(writer).written());
        }
        Ok(())
    }
}

/// A configuration whose settings can be hashed.
pub trait InternalConfigFingerprint {
    /// The settings that the hash is taken of.
    spec fn hashed_settings(&self) -> Configuration;

    /// The hash of the settings that change the bytes.
    fn config_hash(&self) -> (h: u64)
        ensures
            h == spec_config_hash(self.hashed_settings()),
    ;
}

impl<F> InternalConfigFingerprint for Configuration<F> {
    open spec fn hashed_settings(&self) -> Configuration {
        self.spec_with_mode::<FingerprintDisabled>()
    }

    fn config_hash(&self) -> (h: u64) {
        config_hash(&self.with_mode::<FingerprintDisabled>())
    }
}

} // verus!
