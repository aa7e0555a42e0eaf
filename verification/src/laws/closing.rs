//! What closing a checkpoint comes to: who is paid, what is spent, and what is signed.
use vstd::prelude::*;

use crate::checkpoint::{
    value_of,
    CheckpointStatus,
    CheckpointView,
    FEE_RATE,
    MAX_INPUTS,
    MAX_OUTPUTS,
};
use crate::error::CheckpointError;
use crate::input::{amount_of, witness_vsize_of, InputView};
use crate::laws::law_closing_balances;
use crate::laws::signatures::law_input_of_transaction;
use crate::outside::{segwit_hash, transaction_id};
use crate::signatory::SignatorySetView;
use crate::sums::{lemma_sum_concat, lemma_sum_push, sum_by};
use crate::threshold_sig::ThresholdSigView;
use crate::tx::{OutPointView, TransactionView, TxInView, TxOutView};

verus! {

/// A new checkpoint is being built, for its signatory set, and holds nothing.
pub proof fn law_new_checkpoint(sigset: SignatorySetView)
    ensures
        ({
            let checkpoint = CheckpointView::empty(sigset);
            &&& checkpoint.status == CheckpointStatus::Building
            &&& checkpoint.inputs.len() == 0
            &&& checkpoint.signed_inputs == 0
            &&& checkpoint.outputs.len() == 0
            &&& checkpoint.sigset == sigset
        }),
{
}

/// The transaction of a checkpoint has its inputs and its outputs, each as it is and in
/// order. It cannot be built exactly if an input cannot.
pub proof fn law_transaction_of_checkpoint(checkpoint: CheckpointView)
    ensures
        match checkpoint.tx() {
            Ok(tx) => {
                &&& tx.version == 1
                &&& tx.lock_time == 0
                &&& tx.input.len() == checkpoint.inputs.len()
                &&& forall|i: int|
                    0 <= i < tx.input.len() ==> Ok::<TxInView, CheckpointError>(
                        #[trigger] tx.input[i],
                    ) == checkpoint.inputs[i].txin()
                &&& tx.output.len() == checkpoint.outputs.len()
                &&& forall|i: int|
                    0 <= i < tx.output.len() ==> #[trigger] tx.output[i] == checkpoint.outputs[i]
            },
            Err(e) => {
                &&& e == CheckpointError::MalformedSignature
                &&& exists|i: int|
                    0 <= i < checkpoint.inputs.len() && (
                    #[trigger] checkpoint.inputs[i]).txin() is Err
            },
        },
{
    if checkpoint.tx() is Ok {
        let tx = checkpoint.tx()->Ok_0;
        assert forall|i: int| 0 <= i < tx.input.len() implies Ok::<TxInView, CheckpointError>(
            #[trigger] tx.input[i],
        ) == checkpoint.inputs[i].txin() by {
            assert(checkpoint.inputs[i].txin() is Ok);
        }
    }
}

/// What an input adds to a checkpoint is its amount and the estimate of its witness, and
/// what an output adds is its value.
pub proof fn law_amounts_add_up(checkpoint: CheckpointView, input: InputView, output: TxOutView)
    ensures
        ({
            let empty = CheckpointView { inputs: Seq::empty(), outputs: Seq::empty(), ..checkpoint };
            let more = CheckpointView { inputs: checkpoint.inputs.push(input), ..checkpoint };
            let paid = CheckpointView { outputs: checkpoint.outputs.push(output), ..checkpoint };
            &&& empty.in_amount() == 0
            &&& empty.out_amount() == 0
            &&& more.in_amount() == checkpoint.in_amount() + input.amount
            &&& more.out_amount() == checkpoint.out_amount()
            &&& paid.in_amount() == checkpoint.in_amount()
            &&& paid.out_amount() == checkpoint.out_amount() + output.value
            &&& empty.est_vsize() == empty.tx()->Ok_0.bytes()
            &&& more.est_vsize() - more.tx()->Ok_0.bytes() == checkpoint.est_vsize()
                - checkpoint.tx()->Ok_0.bytes() + input.est_witness_vsize
            &&& paid.est_vsize() - paid.tx()->Ok_0.bytes() == checkpoint.est_vsize()
                - checkpoint.tx()->Ok_0.bytes()
        }),
{
    lemma_sum_push(checkpoint.inputs, input, amount_of());
    lemma_sum_push(checkpoint.inputs, input, witness_vsize_of());
    lemma_sum_push(checkpoint.outputs, output, value_of());
}

/// Something comes in the way of closing exactly if there is no script for the reserve, or
/// one of the inputs that fit cannot be built. Without the script nothing but the status
/// changes.
pub proof fn law_closing_can_stop(checkpoint: CheckpointView)
    ensures
        match checkpoint.sigset.reserve_output_script {
            Err(e) => {
                &&& checkpoint.closing() == Err::<(), CheckpointError>(e)
                &&& checkpoint.stopped().status == CheckpointStatus::Signing
                &&& checkpoint.stopped().inputs == checkpoint.inputs
                &&& checkpoint.stopped().signed_inputs == checkpoint.signed_inputs
                &&& checkpoint.stopped().outputs == checkpoint.outputs
                &&& checkpoint.stopped().sigset == checkpoint.sigset
            },
            Ok(_) => {
                &&& checkpoint.closing() is Ok <==> forall|i: int|
                    0 <= i < checkpoint.inputs.len() && i < MAX_INPUTS ==> (
                    #[trigger] checkpoint.inputs[i]).txin() is Ok
                &&& checkpoint.closing() is Err ==> checkpoint.closing() == Err::<
                    (),
                    CheckpointError,
                >(CheckpointError::MalformedSignature)
            },
        },
{
    let closed = checkpoint.closed();
    if checkpoint.sigset.reserve_output_script is Ok {
        assert forall|i: int| 0 <= i < closed.inputs.len() implies #[trigger] closed.inputs[i]
            == checkpoint.inputs[i] by {}
        if checkpoint.closing() is Ok {
            assert forall|i: int| 0 <= i < checkpoint.inputs.len() && i < MAX_INPUTS implies (
            #[trigger] checkpoint.inputs[i]).txin() is Ok by {
                assert(closed.inputs[i].txin() is Ok);
            }
        }
    }
}

/// Where the transaction of a closed checkpoint cannot be built, the checkpoint is left with
/// the inputs and outputs that fit, behind an output for the reserve that is worth nothing.
pub proof fn law_stopped_half_way(checkpoint: CheckpointView)
    requires
        checkpoint.sigset.reserve_output_script is Ok,
    ensures
        ({
            let stopped = checkpoint.stopped();
            &&& stopped.status == CheckpointStatus::Signing
            &&& stopped.signed_inputs == checkpoint.signed_inputs
            &&& stopped.sigset == checkpoint.sigset
            &&& stopped.inputs.len() == at_most(checkpoint.inputs.len() as int, MAX_INPUTS as int)
            &&& forall|i: int|
                0 <= i < stopped.inputs.len() ==> #[trigger] stopped.inputs[i] == checkpoint.inputs[i]
            &&& stopped.outputs.len() == at_most(
                checkpoint.outputs.len() as int + 1,
                MAX_OUTPUTS as int,
            )
            &&& stopped.outputs[0].value == 0
            &&& stopped.outputs[0].script_pubkey == checkpoint.sigset.reserve_output_script->Ok_0
            &&& forall|i: int|
                1 <= i < stopped.outputs.len() ==> #[trigger] stopped.outputs[i]
                    == checkpoint.outputs[i - 1]
        }),
{
}

/// The smaller of two numbers.
pub open spec fn at_most(n: int, limit: int) -> int {
    if n <= limit {
        n
    } else {
        limit
    }
}

/// Closing pays what was asked for: behind the reserve the outputs are those of the
/// checkpoint before, value and script, in their order. The ones that do not fit are handed
/// out, from the last one on, and none is lost or made up.
pub proof fn law_closing_pays_the_outputs(checkpoint: CheckpointView)
    requires
        checkpoint.closing() is Ok,
    ensures
        ({
            let paid = checkpoint.advanced().outputs;
            let left = checkpoint.excess_outputs();
            &&& paid.len() == at_most(checkpoint.outputs.len() as int, MAX_OUTPUTS - 1) + 1
            &&& paid[0].script_pubkey == checkpoint.sigset.reserve_output_script->Ok_0
            &&& forall|i: int|
                0 <= i < checkpoint.outputs.len() && i < MAX_OUTPUTS - 1 ==> {
                    &&& paid[i + 1].value == (#[trigger] checkpoint.outputs[i]).value
                    &&& paid[i + 1].script_pubkey == checkpoint.outputs[i].script_pubkey
                }
            &&& left.len() == checkpoint.outputs.len() - (paid.len() - 1)
            &&& forall|k: int|
                0 <= k < left.len() ==> #[trigger] left[k]
                    == checkpoint.outputs[checkpoint.outputs.len() - 1 - k]
            &&& checkpoint.signing_tx().output == paid
        }),
{
    let paid = checkpoint.advanced().outputs;
    let with_reserve = checkpoint.outputs_with_reserve();
    assert forall|i: int| 0 <= i < checkpoint.outputs.len() implies #[trigger] checkpoint.outputs[i]
        == with_reserve[i + 1] by {}
    assert forall|i: int| 0 <= i < checkpoint.outputs.len() && i < MAX_OUTPUTS - 1 implies {
        &&& paid[i + 1].value == (#[trigger] checkpoint.outputs[i]).value
        &&& paid[i + 1].script_pubkey == checkpoint.outputs[i].script_pubkey
    } by {
        assert(paid[i + 1] == with_reserve[i + 1]);
    }
    let left = checkpoint.excess_outputs();
    assert forall|k: int| 0 <= k < left.len() implies #[trigger] left[k]
        == checkpoint.outputs[checkpoint.outputs.len() - 1 - k] by {
        assert(left[k] == with_reserve[with_reserve.len() - 1 - k]);
    }
}

/// Closing spends what came in: the inputs are those of the checkpoint before, in their
/// order, each with nothing changed but the message to sign. The ones that do not fit are
/// handed out as they are, from the last one on.
pub proof fn law_closing_spends_the_inputs(checkpoint: CheckpointView)
    requires
        checkpoint.closing() is Ok,
    ensures
        ({
            let after = checkpoint.advanced();
            let left = checkpoint.excess_inputs();
            &&& after.status == CheckpointStatus::Signing
            &&& after.signed_inputs == checkpoint.signed_inputs
            &&& after.sigset == checkpoint.sigset
            &&& after.inputs.len() == at_most(checkpoint.inputs.len() as int, MAX_INPUTS as int)
            &&& forall|i: int|
                0 <= i < after.inputs.len() ==> #[trigger] after.inputs[i] == (InputView {
                    sigs: ThresholdSigView {
                        message: after.inputs[i].sigs.message,
                        ..checkpoint.inputs[i].sigs
                    },
                    ..checkpoint.inputs[i]
                })
            &&& left.len() == checkpoint.inputs.len() - after.inputs.len()
            &&& forall|k: int|
                0 <= k < left.len() ==> #[trigger] left[k]
                    == checkpoint.inputs[checkpoint.inputs.len() - 1 - k]
        }),
{
    let after = checkpoint.advanced();
    assert forall|i: int| 0 <= i < after.inputs.len() implies #[trigger] after.inputs[i] == (InputView {
        sigs: ThresholdSigView {
            message: after.inputs[i].sigs.message,
            ..checkpoint.inputs[i].sigs
        },
        ..checkpoint.inputs[i]
    }) by {
        assert(checkpoint.closed().inputs[i] == checkpoint.inputs[i]);
    }
}

/// The message of each input is the hash of one transaction, at the place of the input, for
/// the script and the amount that it spends. The transaction spends the inputs and pays the
/// outputs of the closed checkpoint, and its first output is the reserve that the next
/// checkpoint takes over.
pub proof fn law_closing_asks_to_sign_the_transaction(checkpoint: CheckpointView)
    requires
        checkpoint.closing() is Ok,
    ensures
        ({
            let after = checkpoint.advanced();
            let tx = TransactionView {
                version: 1,
                lock_time: 0,
                input: Seq::new(
                    after.inputs.len(),
                    |i: int|
                        TxInView {
                            previous_output: checkpoint.inputs[i].prevout,
                            script_sig: Seq::empty(),
                            sequence: 0xffff_ffff,
                            witness: Seq::empty(),
                        },
                ),
                output: after.outputs,
            };
            &&& forall|i: int|
                0 <= i < after.inputs.len() ==> (#[trigger] after.inputs[i]).sigs.message
                    == segwit_hash(
                    tx,
                    i,
                    checkpoint.inputs[i].redeem_script,
                    checkpoint.inputs[i].amount,
                )
            &&& checkpoint.signing_tx().stripped() == tx
            &&& checkpoint.reserve_outpoint() == (OutPointView { txid: transaction_id(tx), vout: 0 })
        }),
{
    let after = checkpoint.advanced();
    let closed = checkpoint.closed();
    let tx = TransactionView {
        version: 1,
        lock_time: 0,
        input: Seq::new(
            after.inputs.len(),
            |i: int|
                TxInView {
                    previous_output: checkpoint.inputs[i].prevout,
                    script_sig: Seq::empty(),
                    sequence: 0xffff_ffff,
                    witness: Seq::empty(),
                },
        ),
        output: after.outputs,
    };
    let stripped = checkpoint.signing_tx().stripped();
    assert forall|i: int| 0 <= i < stripped.input.len() implies stripped.input[i] == tx.input[i] by {
        assert(closed.inputs[i] == checkpoint.inputs[i]);
        assert(closed.inputs[i].txin() is Ok);
        law_input_of_transaction(closed.inputs[i]);
        assert(stripped.input[i] =~= tx.input[i]);
    }
    assert(stripped =~= tx);
    assert forall|i: int| 0 <= i < after.inputs.len() implies (
    #[trigger] after.inputs[i]).sigs.message == segwit_hash(
        tx,
        i,
        checkpoint.inputs[i].redeem_script,
        checkpoint.inputs[i].amount,
    ) by {
        assert(closed.inputs[i] == checkpoint.inputs[i]);
    }
}

/// The reserve gets what is left of the inputs that are spent when the other outputs and the
/// fee are paid. The fee is for the size of the transaction and of the witnesses that it
/// will have.
pub proof fn law_closing_leaves_the_rest_to_the_reserve(checkpoint: CheckpointView)
    requires
        checkpoint.closing() is Ok,
        checkpoint.can_advance(),
    ensures
        ({
            let after = checkpoint.advanced();
            let spent = sum_by(after.inputs, |i: InputView| i.amount as int);
            let paid = sum_by(after.outputs.skip(1), |o: TxOutView| o.value as int);
            let witnesses = sum_by(after.inputs, |i: InputView| i.est_witness_vsize as int);
            let size = after.tx()->Ok_0.bytes() + witnesses;
            &&& after.tx() is Ok
            &&& after.outputs[0].value == spent - paid - size * FEE_RATE
            &&& after.outputs[0].value == checkpoint.reserve_value()
        }),
{
    let after = checkpoint.advanced();
    assert(amount_of() =~= (|i: InputView| i.amount as int));
    assert(value_of() =~= (|o: TxOutView| o.value as int));
    assert(witness_vsize_of() =~= (|i: InputView| i.est_witness_vsize as int));
    law_closing_balances(checkpoint);
    let first = seq![after.outputs[0]];
    assert(after.outputs =~= first + after.outputs.skip(1));
    lemma_sum_concat(first, after.outputs.skip(1), value_of());
    assert(first =~= Seq::empty().push(after.outputs[0]));
    lemma_sum_push(Seq::empty(), after.outputs[0], value_of());
}

/// A checkpoint can be closed exactly if its sums fit in 64 bits and what comes in covers
/// what goes out and the fee. Without a script for the reserve none of it is looked at, and
/// without a transaction only the first two sums are.
pub proof fn law_closing_has_to_pay(checkpoint: CheckpointView)
    ensures
        ({
            let inputs = checkpoint.inputs.take(
                at_most(checkpoint.inputs.len() as int, MAX_INPUTS as int),
            );
            let outputs = checkpoint.outputs.take(
                at_most(checkpoint.outputs.len() as int, MAX_OUTPUTS - 1),
            );
            let spent = sum_by(inputs, |i: InputView| i.amount as int);
            let paid = sum_by(outputs, |o: TxOutView| o.value as int);
            let witnesses = sum_by(inputs, |i: InputView| i.est_witness_vsize as int);
            let size = checkpoint.closed().tx()->Ok_0.bytes() + witnesses;
            checkpoint.can_advance() <==> (checkpoint.sigset.reserve_output_script is Ok ==> {
                &&& spent <= u64::MAX
                &&& paid <= u64::MAX
                &&& checkpoint.closing() is Ok ==> {
                    &&& size <= u64::MAX
                    &&& size * FEE_RATE <= u64::MAX
                    &&& spent - paid - size * FEE_RATE >= 0
                }
            })
        }),
{
    assert(amount_of() =~= (|i: InputView| i.amount as int));
    assert(value_of() =~= (|o: TxOutView| o.value as int));
    assert(witness_vsize_of() =~= (|i: InputView| i.est_witness_vsize as int));
    let closed = checkpoint.closed();
    let inputs = checkpoint.inputs.take(
        at_most(checkpoint.inputs.len() as int, MAX_INPUTS as int),
    );
    let outputs = checkpoint.outputs.take(
        at_most(checkpoint.outputs.len() as int, MAX_OUTPUTS - 1),
    );
    assert(closed.inputs =~= inputs);
    let first = seq![checkpoint.reserve_output(0)];
    assert(closed.outputs =~= first + outputs);
    lemma_sum_concat(first, outputs, value_of());
    assert(first =~= Seq::empty().push(checkpoint.reserve_output(0)));
    lemma_sum_push(Seq::empty(), checkpoint.reserve_output(0), value_of());
}

} // verus!
