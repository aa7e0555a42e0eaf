//! When the queue moves on, and what it comes to.
use vstd::prelude::*;

use crate::checkpoint::{CheckpointStatus, MAX_INPUTS, MAX_OUTPUTS};
use crate::error::CheckpointError;
use crate::laws::closing::{
    at_most,
    law_closing_asks_to_sign_the_transaction,
    law_closing_pays_the_outputs,
    law_closing_spends_the_inputs,
};
use crate::laws::law_closing_balances;
use crate::outside::transaction_id;
use crate::queue::{QueueView, MAX_CHECKPOINT_INTERVAL, MIN_CHECKPOINT_INTERVAL};
use crate::signatory::SignatorySetView;
use crate::threshold_sig::ThresholdSigView;
use crate::tx::{TransactionView, TxInView};

verus! {

/// While a checkpoint is being signed it is not time for a new one, and where there is none
/// at all it always is. Else the time has to be known.
pub proof fn law_time_is_asked_for(queue: QueueView, now: Option<u64>)
    requires
        queue.wf(),
    ensures
        queue.queue.len() >= 2 && queue.queue[queue.queue.len() - 2].status
            == CheckpointStatus::Signing ==> queue.ready(now) == Ok::<bool, CheckpointError>(false),
        queue.queue.len() == 0 ==> queue.ready(now) == Ok::<bool, CheckpointError>(true),
        queue.queue.len() == 1 || queue.queue.len() >= 2 && queue.queue[queue.queue.len()
            - 2].status != CheckpointStatus::Signing ==> {
            &&& now is None ==> queue.ready(now) == Err::<bool, CheckpointError>(
                CheckpointError::NoTimeContext,
            )
            &&& now is Some ==> queue.ready(now) is Ok
        },
{
    if queue.queue.len() >= 2 {
        assert(queue.at((queue.index - 1) as u32) == queue.queue[queue.queue.len() - 2]);
    }
}

/// It is time for a new checkpoint, where none is being signed, once the shorter interval is
/// over and there is a withdrawal, whatever the index, or a deposit: any input of the first
/// checkpoint, or one beside the reserve of a later one. It is time without either once the
/// longer interval is over, unless the checkpoint is the first one. Else it is not.
pub proof fn law_when_it_is_time(queue: QueueView, now: u64)
    requires
        queue.wf(),
        queue.queue.len() == 1 || queue.queue.len() >= 2 && queue.queue[queue.queue.len()
            - 2].status != CheckpointStatus::Signing,
    ensures
        ({
            let building = queue.queue[queue.queue.len() - 1];
            let elapsed = now - building.sigset.create_time;
            let ready = queue.ready(Some(now));
            let yes = Ok::<bool, CheckpointError>(true);
            let no = Ok::<bool, CheckpointError>(false);
            &&& elapsed < MIN_CHECKPOINT_INTERVAL ==> ready == no
            &&& elapsed >= MIN_CHECKPOINT_INTERVAL && building.outputs.len() > 0 ==> ready == yes
            &&& elapsed >= MIN_CHECKPOINT_INTERVAL && building.inputs.len() > 1 ==> ready == yes
            &&& elapsed >= MIN_CHECKPOINT_INTERVAL && building.inputs.len() > 0 && queue.index == 0
                ==> ready == yes
            &&& elapsed >= MAX_CHECKPOINT_INTERVAL && queue.index > 0 ==> ready == yes
            &&& building.outputs.len() == 0 && building.inputs.len() == 0 && queue.index == 0
                ==> ready == no
            &&& building.outputs.len() == 0 && building.inputs.len() <= 1 && queue.index > 0
                && elapsed < MAX_CHECKPOINT_INTERVAL ==> ready == no
        }),
{
    if queue.queue.len() >= 2 {
        assert(queue.at((queue.index - 1) as u32) == queue.queue[queue.queue.len() - 2]);
    }
}

/// A step changes nothing while it is not time, while the signatory set cannot be built, and
/// while it cannot take over the reserve. What came in the way is reported.
pub proof fn law_step_can_do_nothing(
    queue: QueueView,
    now: Option<u64>,
    sigset: Result<SignatorySetView, CheckpointError>,
)
    ensures
        ({
            let (after, result) = queue.step(now, sigset);
            &&& queue.ready(now) matches Err(e) ==> after == queue && result == Err::<
                (),
                CheckpointError,
            >(e)
            &&& queue.ready(now) == Ok::<bool, CheckpointError>(false) ==> after == queue && result
                == Ok::<(), CheckpointError>(())
            &&& queue.ready(now) == Ok::<bool, CheckpointError>(true) ==> match sigset {
                Err(e) => after == queue && result == Err::<(), CheckpointError>(e),
                Ok(s) => s.possible_vp == 0 || !s.has_quorum ==> after == queue && result == Ok::<
                    (),
                    CheckpointError,
                >(()),
            }
        }),
{
}

/// The first step of a queue starts a checkpoint that is being built, for the signatory set,
/// and holds nothing. It goes well for the index zero only, since there is no checkpoint to
/// be closed.
pub proof fn law_first_step(queue: QueueView, now: Option<u64>, sigset: SignatorySetView)
    requires
        queue.queue.len() == 0,
        sigset.possible_vp > 0,
        sigset.has_quorum,
    ensures
        ({
            let (after, result) = queue.step(now, Ok(sigset));
            &&& after.index == queue.index
            &&& after.queue.len() == 1
            &&& after.queue[0].status == CheckpointStatus::Building
            &&& after.queue[0].inputs.len() == 0
            &&& after.queue[0].signed_inputs == 0
            &&& after.queue[0].outputs.len() == 0
            &&& after.queue[0].sigset == sigset
            &&& queue.index == 0 ==> result == Ok::<(), CheckpointError>(())
            &&& queue.index > 0 ==> result == Err::<(), CheckpointError>(
                CheckpointError::IndexOutOfBounds,
            )
        }),
{
}

/// A step that is made keeps all checkpoints but the last, closes that one, and starts a new
/// one behind it, which is being built for the signatory set and has the next index.
pub proof fn law_step_adds_a_checkpoint(
    queue: QueueView,
    now: Option<u64>,
    sigset: SignatorySetView,
)
    requires
        queue.wf(),
        queue.queue.len() > 0,
        queue.ready(now) == Ok::<bool, CheckpointError>(true),
        sigset.possible_vp > 0,
        sigset.has_quorum,
    ensures
        ({
            let n = queue.queue.len();
            let after = queue.step(now, Ok(sigset)).0;
            &&& after.index == queue.index + 1
            &&& after.queue.len() == n + 1
            &&& forall|i: int| 0 <= i < n - 1 ==> #[trigger] after.queue[i] == queue.queue[i]
            &&& after.queue[n - 1].status == CheckpointStatus::Signing
            &&& after.queue[n - 1].sigset == queue.queue[n - 1].sigset
            &&& after.queue[n as int].status == CheckpointStatus::Building
            &&& after.queue[n as int].signed_inputs == 0
            &&& after.queue[n as int].sigset == sigset
        }),
{
}

/// What a step that is made returns, and what it leaves behind if something comes in its
/// way: the new checkpoint is there, and holds nothing.
pub proof fn law_step_can_stop(queue: QueueView, now: Option<u64>, sigset: SignatorySetView)
    requires
        queue.wf(),
        queue.queue.len() > 0,
        queue.ready(now) == Ok::<bool, CheckpointError>(true),
        sigset.possible_vp > 0,
        sigset.has_quorum,
    ensures
        ({
            let n = queue.queue.len();
            let before = queue.queue[n - 1];
            let (after, result) = queue.step(now, Ok(sigset));
            let closed = after.queue[n - 1];
            let next = after.queue[n as int];
            match before.closing() {
                Err(e) => {
                    &&& result == Err::<(), CheckpointError>(e)
                    &&& closed == before.stopped()
                    &&& next.inputs.len() == 0
                    &&& next.outputs.len() == 0
                },
                Ok(()) => {
                    &&& closed == before.advanced()
                    &&& match before.sigset.reserve_redeem_script {
                        Err(e) => {
                            &&& result == Err::<(), CheckpointError>(e)
                            &&& next.inputs.len() == 0
                            &&& next.outputs.len() == 0
                        },
                        Ok(_) => result == Ok::<(), CheckpointError>(()),
                    }
                },
            }
        }),
{
}

/// What the new checkpoint takes over. Its first input is the reserve: the first output of
/// the transaction that the step closes, for nobody, held by the signatories of that
/// checkpoint, and signed by nobody. Behind it are the inputs that did not fit in the
/// transaction, as they were and from the last one on. Its outputs are those that did not
/// fit, as they were and from the last one on.
pub proof fn law_step_hands_over(queue: QueueView, now: Option<u64>, sigset: SignatorySetView)
    requires
        queue.wf(),
        queue.queue.len() > 0,
        queue.ready(now) == Ok::<bool, CheckpointError>(true),
        sigset.possible_vp > 0,
        sigset.has_quorum,
        queue.queue[queue.queue.len() - 1].closing() is Ok,
        queue.queue[queue.queue.len() - 1].can_advance(),
        queue.queue[queue.queue.len() - 1].sigset.reserve_redeem_script is Ok,
    ensures
        ({
            let n = queue.queue.len();
            let before = queue.queue[n - 1];
            let after = queue.step(now, Ok(sigset)).0;
            let closed = after.queue[n - 1];
            let next = after.queue[n as int];
            let reserve = next.inputs[0];
            let kept = at_most(before.inputs.len() as int, MAX_INPUTS as int);
            let paid = at_most(before.outputs.len() as int, MAX_OUTPUTS - 1);
            let tx = TransactionView {
                version: 1,
                lock_time: 0,
                input: Seq::new(
                    kept as nat,
                    |i: int|
                        TxInView {
                            previous_output: before.inputs[i].prevout,
                            script_sig: Seq::empty(),
                            sequence: 0xffff_ffff,
                            witness: Seq::empty(),
                        },
                ),
                output: closed.outputs,
            };
            &&& next.inputs.len() == 1 + before.inputs.len() - kept
            &&& next.outputs.len() == before.outputs.len() - paid
            &&& reserve.prevout.txid == transaction_id(tx)
            &&& reserve.prevout.vout == 0
            &&& reserve.amount == closed.outputs[0].value
            &&& reserve.script_pubkey == closed.outputs[0].script_pubkey
            &&& reserve.script_pubkey == before.sigset.reserve_output_script->Ok_0
            &&& reserve.redeem_script == before.sigset.reserve_redeem_script->Ok_0
            &&& reserve.sigset_index == before.sigset.index
            &&& reserve.dest.len() == 20
            &&& forall|i: int| 0 <= i < 20 ==> #[trigger] reserve.dest[i] == 0
            &&& reserve.est_witness_vsize == before.sigset.est_witness_vsize
            &&& reserve.sigs == ThresholdSigView::unsigned(before.sigset)
            &&& reserve.sigs.threshold == before.sigset.signature_threshold
            &&& reserve.sigs.shares.len() == before.sigset.signatories.len()
            &&& forall|i: int|
                0 <= i < reserve.sigs.shares.len() ==> {
                    &&& (#[trigger] reserve.sigs.shares[i]).pubkey
                        == before.sigset.signatories[i].pubkey
                    &&& reserve.sigs.shares[i].power == before.sigset.signatories[i].voting_power
                    &&& reserve.sigs.shares[i].sig is None
                }
            &&& forall|k: int|
                1 <= k < next.inputs.len() ==> #[trigger] next.inputs[k]
                    == before.inputs[before.inputs.len() - k]
            &&& forall|k: int|
                0 <= k < next.outputs.len() ==> #[trigger] next.outputs[k]
                    == before.outputs[before.outputs.len() - 1 - k]
        }),
{
    let n = queue.queue.len();
    let before = queue.queue[n - 1];
    law_closing_asks_to_sign_the_transaction(before);
    law_closing_pays_the_outputs(before);
    law_closing_spends_the_inputs(before);
    law_closing_balances(before);
    let kept = at_most(before.inputs.len() as int, MAX_INPUTS as int);
    let closed = before.advanced();
    let tx = TransactionView {
        version: 1,
        lock_time: 0,
        input: Seq::new(
            kept as nat,
            |i: int|
                TxInView {
                    previous_output: before.inputs[i].prevout,
                    script_sig: Seq::empty(),
                    sequence: 0xffff_ffff,
                    witness: Seq::empty(),
                },
        ),
        output: closed.outputs,
    };
    assert(before.signing_tx().stripped() =~= tx);
    let next = before.successor(sigset);
    assert forall|k: int| 1 <= k < next.inputs.len() implies #[trigger] next.inputs[k]
        == before.inputs[before.inputs.len() - k] by {
        assert(next.inputs[k] == before.excess_inputs()[k - 1]);
    }
}

/// The numbers of a step fit exactly if time has not gone back, and, where a checkpoint is
/// closed, there is an index for the next one, the closed one can pay, and the estimate for
/// the reserve's input fits, where there is one.
pub proof fn law_step_has_to_fit(queue: QueueView, now: u64, sigset: SignatorySetView)
    requires
        queue.wf(),
        queue.queue.len() > 0,
    ensures
        ({
            let n = queue.queue.len();
            let before = queue.queue[n - 1];
            let waits = n >= 2 && queue.queue[n - 2].status == CheckpointStatus::Signing;
            &&& waits ==> queue.can_step(Some(now), Ok(sigset))
            &&& !waits && now < before.sigset.create_time ==> !queue.can_step(
                Some(now),
                Ok(sigset),
            )
            &&& !waits && now >= before.sigset.create_time ==> (queue.can_step(Some(now), Ok(sigset))
                <==> (queue.ready(Some(now)) == Ok::<bool, CheckpointError>(true)
                && sigset.possible_vp > 0 && sigset.has_quorum ==> {
                &&& queue.index + 2 <= u32::MAX
                &&& before.can_advance()
                &&& before.closing() is Ok && before.sigset.reserve_redeem_script is Ok
                    ==> before.sigset.est_witness_vsize + 40 <= u64::MAX
            }))
        }),
{
    let n = queue.queue.len();
    if n >= 2 {
        assert(queue.at((queue.index - 1) as u32) == queue.queue[n - 2]);
    }
}

/// Without the time, without a signatory set, and without a checkpoint, all numbers fit.
pub proof fn law_nothing_has_to_fit(
    queue: QueueView,
    now: Option<u64>,
    sigset: Result<SignatorySetView, CheckpointError>,
)
    ensures
        queue.queue.len() == 0 ==> queue.can_step(now, sigset),
        now is None && queue.queue.len() > 0 ==> queue.can_step(now, sigset),
        sigset is Err && queue.queue.len() > 0 ==> (queue.can_step(now, sigset) <==> (now is Some
            && !queue.has_signing() ==> now->Some_0 >= queue.queue[queue.queue.len()
            - 1].sigset.create_time)),
{
}

} // verus!
