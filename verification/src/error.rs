//! Errors that can be encountered by encoding and decoding.
use vstd::prelude::*;

verus! {

/// Integer types. Used by [`DecodeError`]: these types have no purpose other than being shown in errors.
#[derive(Copy, Clone, Debug, PartialEq, Eq, Structural)]
pub enum IntegerType {
    U8,
    U16,
    U32,
    U64,
    U128,
    Usize,
    I8,
    I16,
    I32,
    I64,
    I128,
    Isize,
    Reserved,
}

impl IntegerType {
    /// The signed counterpart of an unsigned integer type; signed types and `Reserved` stay as they are.
    pub open spec fn spec_into_signed(self) -> IntegerType {
        match self {
            IntegerType::U8 => IntegerType::I8,
            IntegerType::U16 => IntegerType::I16,
            IntegerType::U32 => IntegerType::I32,
            IntegerType::U64 => IntegerType::I64,
            IntegerType::U128 => IntegerType::I128,
            IntegerType::Usize => IntegerType::Isize,
            other => other,
        }
    }

    /// Change the unsigned integer type into its signed counterpart.
    #[verifier::when_used_as_spec(spec_into_signed)]
    pub fn into_signed(self) -> (r: IntegerType)
        ensures
            r == self.spec_into_signed(),
    {
        match self {
            IntegerType::U8 => IntegerType::I8,
            IntegerType::U16 => IntegerType::I16,
            IntegerType::U32 => IntegerType::I32,
            IntegerType::U64 => IntegerType::I64,
            IntegerType::U128 => IntegerType::I128,
            IntegerType::Usize => IntegerType::Isize,
            other => other,
        }
    }
}

/// Errors that can be encountered by encoding a type.
#[derive(Copy, Clone, Debug, PartialEq, Eq, Structural)]
pub enum EncodeError {
    /// The writer ran out of storage.
    UnexpectedEnd,
    /// A value did not fit a bounded container (for example a `BoundedVec` over its capacity).
    CapacityExceeded,
    /// The serde serializer asked for a sequence without a known length.
    SequenceMustHaveLength,
    /// A `RefCell<T>` was already mutably borrowed.
    RefCellAlreadyBorrowed,
    /// A lock was poisoned.
    LockFailed,
    /// A `SystemTime` could not be represented.
    InvalidSystemTime,
    /// A path could not be turned into a string.
    InvalidPathCharacters,
    /// The underlying writer failed for a reason other than running out of room (the I/O error
    /// itself stays with the code that did the I/O).
    Io {
        /// How many bytes of the failing write had been accepted.
        index: usize,
    },
}

/// Errors that can be encountered by decoding a type.
#[derive(Copy, Clone, Debug, PartialEq, Eq, Structural)]
pub enum DecodeError {
    /// The reader reached its end but more bytes were expected.
    UnexpectedEnd {
        /// Gives an estimate of how many extra bytes are needed.
        additional: usize,
    },
    /// The underlying reader failed for a reason other than reaching its end (the I/O error
    /// itself stays with the code that did the I/O).
    Io {
        /// How many bytes were asked for.
        additional: usize,
    },
    /// The given configuration limit was exceeded.
    LimitExceeded,
    /// Invalid type was found. The decoder tried to read type `expected`, but found type `found` instead.
    InvalidIntegerType {
        /// The type that was being read from the reader.
        expected: IntegerType,
        /// The type that was encoded in the data.
        found: IntegerType,
    },
    /// The decoder tried to decode any of the `NonZero*` types but the value is zero.
    NonZeroTypeIsZero {
        /// The type that was being read.
        non_zero_type: IntegerType,
    },
    /// The decoder tried to decode an enum variant that does not exist.
    UnexpectedVariant {
        /// The lowest allowed variant index.
        min: u32,
        /// The highest allowed variant index.
        max: u32,
        /// The index that was found.
        found_index: u32,
    },
    /// The decoded string was not valid UTF-8.
    Utf8,
    /// The decoder tried to decode a `char` and failed.
    InvalidCharEncoding(u8, u8, u8, u8),
    /// The decoder tried to decode a `bool` and failed. The given value is what is actually read.
    InvalidBooleanValue(u8),
    /// The decoder tried to decode an array of length `required`, but the binary data contained an array of length `found`.
    ArrayLengthMismatch {
        /// The length of the array required by the rust type.
        required: usize,
        /// The length of the array found in the binary format.
        found: usize,
    },
    /// The encoded value is outside of the range of the target usize type.
    OutsideUsizeRange(u64),
    /// The encoded value is outside of the range of the target isize type.
    OutsideIsizeRange(i64),
    /// An uninhabited enum was decoded.
    EmptyEnum,
    /// The decoder tried to decode a `Duration` and overflowed the number of seconds.
    InvalidDuration {
        /// The number of seconds in the duration.
        secs: u64,
        /// The number of nanoseconds in the duration, which when converted to seconds is expected to overflow.
        nanos: u32,
    },
    /// The decoder tried to decode a `SystemTime` and overflowed.
    InvalidSystemTime,
    /// The decoder found a nul byte inside a C string.
    CStringNulError,
    /// A CBOR header carried an additional-information value that is reserved or not allowed here.
    InvalidCborInfo(u8),
    /// The schema fingerprint in the data differs from the one of the type being decoded.
    SchemaMismatch {
        /// The fingerprint of the type being decoded.
        expected_hash: u64,
        /// The fingerprint found in the data.
        found_hash: u64,
    },
    /// A map or set held the same key twice.
    DuplicateMapKey,
    /// The keys of a map or set were not in increasing order.
    InvalidMapOrder,
    /// A bounded container held more items than its capacity.
    CapacityExceeded,
    /// A CBOR struct header announced a different number of fields.
    StructLengthMismatch,
    /// A map key could not be encoded again to check the order of the keys.
    KeyReencodingFailed,
    /// The serde deserializer asked for something bincode cannot give.
    SerdeNotSupported,
}

impl DecodeError {
    /// The same error, where an integer-type mismatch now names the signed counterparts of its types.
    pub open spec fn spec_change_integer_type_to_signed(self) -> DecodeError {
        match self {
            DecodeError::InvalidIntegerType { expected, found } => DecodeError::InvalidIntegerType {
                expected: expected.spec_into_signed(),
                found: found.spec_into_signed(),
            },
            other => other,
        }
    }

    /// If the current error is `InvalidIntegerType`, change the `expected` and
    /// `found` values from `Ux` to `Ix`. Otherwise the error is returned as-is.
    #[verifier::when_used_as_spec(spec_change_integer_type_to_signed)]
    pub fn change_integer_type_to_signed(self) -> (r: DecodeError)
        ensures
            r == self.spec_change_integer_type_to_signed(),
    {
        match self {
            DecodeError::InvalidIntegerType { expected, found } => DecodeError::InvalidIntegerType {
                expected: expected.into_signed(),
                found: found.into_signed(),
            },
            other => other,
        }
    }
}

} // verus!
