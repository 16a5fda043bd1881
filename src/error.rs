use vstd::prelude::*;

verus! {

/// The ways the engine's core can fail.
#[derive(Clone, Copy, Debug, PartialEq, Eq, Structural)]
pub enum Error {
    /// The running checksum of a packed resource was not zero.
    Checksum,
    /// A packed resource ended early or pointed outside its output.
    Malformed,
    /// A resource's bytes did not have the length its descriptor declares.
    SizeMismatch,
    /// The descriptor table is malformed or truncated.
    Directory,
    /// A descriptor points outside the bank it names.
    BankRange,
    /// A part id outside the game's parts.
    InvalidPart,
    /// A byte that starts no instruction, or an instruction cut short.
    InvalidOpcode,
    /// A jump to an address where no instruction starts.
    UnresolvedJump,
    /// A return with no call to return to.
    StackUnderflow,
    /// Too many nested calls.
    StackOverflow,
    /// An index outside the resource table, the program or the channels.
    OutOfRange,
    /// A channel ran through its whole step budget without yielding.
    Runaway,
    /// A read past the end of a byte stream.
    EndOfData,
    /// A value of a width other than 1, 2 or 4 bytes.
    UnsupportedSize,
}

} // verus!
