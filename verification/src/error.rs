use vstd::prelude::*;

verus! {

/// Everything that can go wrong while decoding a DNS message.
#[derive(Debug, Clone, Copy, PartialEq, Eq, Structural)]
pub enum DecodeError {
    /// The buffer is shorter than a field requires.
    TruncatedInput,
    /// A record type or class value lies outside the enumerated set.
    UnknownField,
    /// A label or pointer read would run past the buffer bounds.
    MalformedName,
    /// A compression-pointer chase exceeded the depth guard.
    CompressionLoop,
}

} // verus!
