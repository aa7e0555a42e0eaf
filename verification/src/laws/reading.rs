//! What is read from a queue, checkpoint by checkpoint.
use vstd::prelude::*;

use crate::checkpoint::{CheckpointStatus, CheckpointView};
use crate::error::CheckpointError;
use crate::laws::signatures::law_input_of_transaction;
use crate::laws::{law_completed_can_be_read, law_complete_is_signed, law_sound_has_transaction};
use crate::queue::{lemma_completed_bound, lemma_completed_stop, QueueView};
use crate::tx::TransactionView;

verus! {

/// The checkpoints of a queue have consecutive indices, and the last one has the index of
/// the queue. Under its index each is found, and can be replaced without a change to any
/// other; under another index there is none.
pub proof fn law_checkpoints_are_found_by_index(queue: QueueView, i: int, checkpoint: CheckpointView)
    requires
        queue.wf(),
        0 <= i < queue.queue.len(),
    ensures
        ({
            let index = (queue.index - (queue.queue.len() - 1 - i)) as u32;
            &&& index == queue.index - (queue.queue.len() - 1 - i)
            &&& queue.contains(index)
            &&& queue.at(index) == queue.queue[i]
            &&& queue.with(index, checkpoint).index == queue.index
            &&& queue.with(index, checkpoint).queue.len() == queue.queue.len()
            &&& queue.with(index, checkpoint).queue[i] == checkpoint
            &&& forall|j: int|
                0 <= j < queue.queue.len() && j != i ==> #[trigger] queue.with(
                    index,
                    checkpoint,
                ).queue[j] == queue.queue[j]
        }),
        forall|index: u32| #[trigger]
            queue.contains(index) <==> queue.index - (queue.queue.len() - 1) <= index
                <= queue.index,
{
}

/// No index is that of a checkpoint where there are none.
pub proof fn law_empty_queue_has_no_checkpoint(queue: QueueView, index: u32)
    requires
        queue.queue.len() == 0,
    ensures
        !queue.contains(index),
        !queue.has_signing(),
        queue.completed() == 0,
        queue.next_index() == queue.index,
{
}

/// The last checkpoint is the one that is being built. The one before it is being signed if
/// it has that status, whatever the others have.
pub proof fn law_last_two_checkpoints(queue: QueueView, checkpoint: CheckpointView)
    requires
        queue.wf(),
        queue.queue.len() > 0,
    ensures
        queue.building() == queue.queue[queue.queue.len() - 1],
        queue.at(queue.index) == queue.queue[queue.queue.len() - 1],
        queue.has_signing() <==> {
            &&& queue.queue.len() >= 2
            &&& queue.queue[queue.queue.len() - 2].status == CheckpointStatus::Signing
        },
        queue.queue.len() >= 2 ==> {
            &&& queue.signing() == queue.queue[queue.queue.len() - 2]
            &&& queue.with_signing(checkpoint).index == queue.index
            &&& queue.with_signing(checkpoint).queue == queue.queue.update(
                queue.queue.len() - 2,
                checkpoint,
            )
        },
        queue.next_index() == queue.index + 1,
{
}

/// The completed checkpoints are those at the front, up to the first one that is not.
pub proof fn law_completed_are_at_the_front(queue: QueueView)
    ensures
        0 <= queue.completed() <= queue.queue.len(),
        forall|i: int|
            0 <= i < queue.completed() ==> (#[trigger] queue.queue[i]).status
                == CheckpointStatus::Complete,
        queue.completed() < queue.queue.len() ==> queue.queue[queue.completed() as int].status
            != CheckpointStatus::Complete,
{
    lemma_completed_bound(queue, 0);
    lemma_completed_stop(queue, 0);
}

/// The completed transactions are those of the completed checkpoints, one for each and in
/// order, with their witnesses. They cannot be read exactly if one cannot be built.
pub proof fn law_completed_transactions(queue: QueueView)
    ensures
        match queue.completed_txs() {
            Ok(txs) => {
                &&& txs.len() == queue.completed()
                &&& forall|i: int|
                    0 <= i < txs.len() ==> Ok::<TransactionView, CheckpointError>(
                        #[trigger] txs[i],
                    ) == queue.queue[i].tx()
            },
            Err(e) => {
                &&& e == CheckpointError::MalformedSignature
                &&& exists|i: int|
                    0 <= i < queue.completed() && (#[trigger] queue.queue[i]).tx() is Err
            },
        },
{
    if queue.completed_txs() is Ok {
        let txs = queue.completed_txs()->Ok_0;
        assert forall|i: int| 0 <= i < txs.len() implies Ok::<TransactionView, CheckpointError>(
            #[trigger] txs[i],
        ) == queue.queue[i].tx() by {
            assert(queue.queue[i].tx() is Ok);
        }
    }
}

/// In a sound queue every completed transaction can be sent: it spends each input of its
/// checkpoint with a witness that ends in the script that is spent, behind an item for each
/// signatory, among which the signatures have more power than the threshold.
pub proof fn law_completed_transactions_are_signed(queue: QueueView, i: int, j: int)
    requires
        queue.sound(),
        0 <= i < queue.completed(),
        0 <= j < queue.queue[i].inputs.len(),
    ensures
        queue.completed_txs() is Ok,
        ({
            let input = queue.queue[i].inputs[j];
            let txs = queue.completed_txs()->Ok_0;
            let txin = txs[i].input[j];
            &&& txs.len() == queue.completed()
            &&& txs[i].input.len() == queue.queue[i].inputs.len()
            &&& txs[i].output == queue.queue[i].outputs
            &&& txin.previous_output == input.prevout
            &&& txin.witness.len() == input.sigs.shares.len() + 1
            &&& txin.witness.last() == input.redeem_script
            &&& input.sigs.signed_power() > input.sigs.threshold
        }),
{
    law_completed_are_at_the_front(queue);
    law_completed_can_be_read(queue);
    law_completed_transactions(queue);
    let checkpoint = queue.queue[i];
    law_sound_has_transaction(checkpoint);
    law_complete_is_signed(checkpoint, j);
    assert(checkpoint.inputs[j].txin() is Ok);
    law_input_of_transaction(checkpoint.inputs[j]);
    assert(queue.completed_txs()->Ok_0[i] == checkpoint.tx()->Ok_0);
}

/// The last completed transaction is that of the checkpoint before the one that is being
/// signed or, where none is, before the one that is being built.
pub proof fn law_last_completed_transaction(queue: QueueView)
    requires
        queue.wf(),
    ensures
        ({
            let n = queue.queue.len();
            let behind: int = if n >= 2 && queue.queue[n - 2].status == CheckpointStatus::Signing {
                2
            } else {
                1
            };
            queue.last_completed_tx() == (if n > behind {
                queue.queue[n - 1 - behind].tx()
            } else if queue.index < behind {
                Err(CheckpointError::NoCompletedCheckpoints)
            } else {
                Err(CheckpointError::IndexOutOfBounds)
            })
        }),
{
    let n = queue.queue.len();
    if n >= 2 {
        assert(queue.at((queue.index - 1) as u32) == queue.queue[n - 2]);
    }
}

} // verus!
