//! Checkpoints of a Bitcoin reserve that is held by a changing set of signatories.
//!
//! Deposits and withdrawals are gathered in a checkpoint. When it is closed, one
//! transaction moves the reserve, from its signatories to themselves or to the next
//! ones; once they have signed it, the checkpoint is complete, and the next one has
//! taken over what the transaction left to the reserve.
pub mod building;
pub mod checkpoint;
pub mod error;
pub mod input;
pub mod keys;
pub mod laws;
pub mod outside;
pub mod queue;
pub mod signatory;
pub mod signing;
pub mod step;
pub mod sums;
pub mod threshold_sig;
pub mod tx;

pub use building::{Advanced, BuildingCheckpoint, BuildingCheckpointMut};
pub use checkpoint::{Checkpoint, CheckpointStatus, Output, FEE_RATE, MAX_INPUTS, MAX_OUTPUTS};
pub use error::CheckpointError;
pub use input::Input;
pub use keys::{Address, Pubkey, Signature, Xpub};
pub use queue::{CheckpointQueue, MAX_CHECKPOINT_INTERVAL, MIN_CHECKPOINT_INTERVAL};
pub use signatory::{Scripts, Signatory, SignatorySet};
pub use signing::{CompletedCheckpoint, SigningCheckpoint, SigningCheckpointMut};
pub use threshold_sig::{Share, ThresholdSig};
pub use tx::{OutPoint, Transaction, TxIn, TxOut};
