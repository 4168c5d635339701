//! Codec for the DXBC container format: a chunked binary envelope that
//! packages compiled GPU shader programs. The library decodes and encodes
//! the container envelope (header, checksum, chunk directory), the
//! input/output signature chunks, and the tokenized instruction stream with
//! its recursive, bitfield-packed operand encoding.

use vstd::prelude::*;

pub mod bits;
pub mod builder;
pub mod bytes;
pub mod container;
pub mod cursor;
pub mod isgn;
pub mod rdef;
pub mod shex;

verus! {

/// The ways a decode can fail. Unknown chunk tags and unknown opcodes are
/// not failures: those are preserved or skipped by design.
#[derive(Clone, Copy, Debug, PartialEq, Eq, Structural)]
pub enum DecodeError {
    /// A read would run past the end of the buffer.
    UnexpectedEof,
    /// A seek target lies outside the buffer.
    OutOfBounds,
    /// The container header does not start with the DXBC magic.
    InvalidMagic,
    /// A token field holds a value outside its defined range.
    Malformed,
}

/// The ways building a module can fail: precondition violations, since no
/// input/output happens during a build.
#[derive(Clone, Copy, Debug, PartialEq, Eq, Structural)]
pub enum BuildError {
    /// An opaque instruction cannot be re-encoded: its body words are not
    /// retained by the decoder.
    UnknownOpcode,
    /// An instruction or chunk is too large for its declared-length field.
    TooLarge,
    /// A value does not fit the bit field that holds it.
    FieldRange,
}

} // verus!
