//! The errors of the library.
use vstd::prelude::*;

verus! {

/// What can go wrong when checkpoints are read, signed or stepped.
#[derive(Debug, Clone, Copy, PartialEq, Eq, Structural)]
pub enum CheckpointError {
    /// An input waits for a signature, and the inputs before it, done ones among them,
    /// have passed more signatures than were handed in.
    NotEnoughSignatures,
    /// The number of signatures handed in is not the number that was used.
    ExcessSignatures,
    /// No checkpoint of the queue has the given index.
    IndexOutOfBounds,
    /// The queue holds no checkpoint before those being built and signed.
    NoCompletedCheckpoints,
    /// The time of the block is not known.
    NoTimeContext,
    /// No checkpoint waits for signatures.
    NoCheckpointToSign,
    /// A length does not fit in 32 bits.
    LengthOverflow,
    /// A signatory's key could not be derived.
    KeyDerivation,
    /// The message that an input's signatures commit to could not be computed.
    Sighash,
    /// A recorded signature is not the encoding of a curve signature.
    MalformedSignature,
    /// The key has no share in the threshold signature.
    UnknownSigner,
    /// The key has signed before.
    AlreadySigned,
    /// The signature does not match the message under the key.
    InvalidSignature,
    /// The next signatory set could not be built.
    SignatorySet,
    /// A script of a signatory set could not be built.
    Script,
}

impl CheckpointError {
    /// The text of the error.
    pub open spec fn text(self) -> Seq<char> {
        match self {
            CheckpointError::NotEnoughSignatures => "Not enough signatures supplied"@,
            CheckpointError::ExcessSignatures => "Excess signatures supplied"@,
            CheckpointError::IndexOutOfBounds => "Index out of bounds"@,
            CheckpointError::NoCompletedCheckpoints => "No completed checkpoints yet"@,
            CheckpointError::NoTimeContext => "No time context"@,
            CheckpointError::NoCheckpointToSign => "No checkpoint to be signed"@,
            CheckpointError::LengthOverflow => "Length does not fit in 32 bits"@,
            CheckpointError::KeyDerivation => "Signatory key could not be derived"@,
            CheckpointError::Sighash => "Signature hash could not be computed"@,
            CheckpointError::MalformedSignature => "Malformed signature"@,
            CheckpointError::UnknownSigner => "Key is not part of the threshold signature"@,
            CheckpointError::AlreadySigned => "Key has already signed"@,
            CheckpointError::InvalidSignature => "Invalid signature"@,
            CheckpointError::SignatorySet => "Signatory set could not be built"@,
            CheckpointError::Script => "Script could not be built"@,
        }
    }

    /// The text of the error, for people to read.
    pub fn message(&self) -> (text: &'static str)
        ensures
            text@ == self.text(),
    {
        match self {
            CheckpointError::NotEnoughSignatures => "Not enough signatures supplied",
            CheckpointError::ExcessSignatures => "Excess signatures supplied",
            CheckpointError::IndexOutOfBounds => "Index out of bounds",
            CheckpointError::NoCompletedCheckpoints => "No completed checkpoints yet",
            CheckpointError::NoTimeContext => "No time context",
            CheckpointError::NoCheckpointToSign => "No checkpoint to be signed",
            CheckpointError::LengthOverflow => "Length does not fit in 32 bits",
            CheckpointError::KeyDerivation => "Signatory key could not be derived",
            CheckpointError::Sighash => "Signature hash could not be computed",
            CheckpointError::MalformedSignature => "Malformed signature",
            CheckpointError::UnknownSigner => "Key is not part of the threshold signature",
            CheckpointError::AlreadySigned => "Key has already signed",
            CheckpointError::InvalidSignature => "Invalid signature",
            CheckpointError::SignatorySet => "Signatory set could not be built",
            CheckpointError::Script => "Script could not be built",
        }
    }
}

} // verus!
