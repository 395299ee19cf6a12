//! Error values shared by every stage of the toolchain.
use vstd::prelude::*;

verus! {

/// What went wrong, by kind. Errors are values: every fallible function of
/// the library returns one of these and leaves the reporting to its caller.
#[derive(Debug, Clone, Copy, PartialEq, Eq, Structural)]
pub enum Error {
    /// The parser met a token that cannot stand where it stands.
    UnexpectedToken,
    /// A closing `)`, `=`, `(` or `end` is missing.
    MissingDelimiter,
    /// A call or a function has more than 255 arguments.
    TooManyArguments,
    /// A local name is declared twice in the same block.
    DuplicateLocal,
    /// An integer literal does not fit in 64 bits.
    InvalidLiteral,
    /// Real literals are recognised but cannot be compiled.
    UnsupportedReal,
    /// An assembly line starts with no known mnemonic.
    UnknownMnemonic,
    /// An assembly operand is missing or malformed.
    IllFormedOperand,
    /// A label is defined twice.
    DuplicateLabel,
    /// A patch site does not lie fully inside the opcode buffer.
    PatchOutOfBounds,
    /// The module does not start with the magic bytes.
    UnknownFormat,
    /// The input ends inside a field or an instruction.
    Truncated,
    /// A merged program would be longer than 4 GiB.
    ProgramTooLarge,
    /// A length or an address does not fit in 32 bits.
    ValueTooLarge,
    /// A name is longer than 255 bytes.
    NameTooLong,
    /// The linker was given no module.
    NoModules,
    /// An operator has no instruction.
    UnsupportedOperator,
}

/// Builds the failed result for an error kind.
pub fn raise<T>(kind: Error) -> (r: Result<T, Error>)
    ensures
        r == Err::<T, Error>(kind),
{
    Err(kind)
}

} // verus!
