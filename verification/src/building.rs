//! The checkpoint that takes in deposits and withdrawals.
use vstd::prelude::*;

use crate::checkpoint::{Checkpoint, CheckpointView, Output, FEE_RATE};
use crate::error::CheckpointError;
use crate::input::{inputs_view, Input, InputView};
use crate::keys::Address;
use crate::outside::{signature_hash, transaction_hash, transaction_id};
use crate::signatory::{scripts_view, Scripts, SignatorySet};
use crate::threshold_sig::ThresholdSig;
use crate::tx::{outputs_view, OutPoint, OutPointView, Transaction};

verus! {

/// A checkpoint that is being built.
#[derive(Debug)]
pub struct BuildingCheckpoint<'a>(pub &'a Checkpoint);

/// A checkpoint that is being built, to be changed.
#[derive(Debug)]
pub struct BuildingCheckpointMut<'a>(pub &'a mut Checkpoint);

/// What comes of closing a checkpoint: where its transaction holds the reserve, how
/// much that is, and the inputs and outputs that did not fit.
pub type Advanced = (OutPoint, u64, Vec<Input>, Vec<Output>);

impl<'a> BuildingCheckpointMut<'a> {
    /// Adds an input that spends coins which `sigset` holds for `dest`, and gives back
    /// an estimate of the size that it adds. `scripts` is what came of building the
    /// set's scripts for `dest`; without them nothing is added.
    pub fn push_input(
        &mut self,
        prevout: OutPoint,
        sigset: &SignatorySet,
        scripts: Result<Scripts, CheckpointError>,
        dest: Address,
        amount: u64,
    ) -> (vsize: Result<u64, CheckpointError>)
        requires
            (*old(self).0).wf(),
            sigset@.wf(),
            scripts is Ok ==> sigset@.est_witness_vsize + 40 <= u64::MAX,
        ensures
            (*final(self).0).wf(),
            match scripts_view(scripts) {
                Ok(model) => {
                    &&& (*final(self).0)@ == (CheckpointView {
                        inputs: (*old(self).0)@.inputs.push(
                            InputView::unsigned(prevout@, sigset@, model, dest@, amount),
                        ),
                        ..(*old(self).0)@
                    })
                    &&& vsize matches Ok(size)
                    &&& size == sigset@.est_witness_vsize + 40
                },
                Err(e) => {
                    &&& (*final(self).0)@ == (*old(self).0)@
                    &&& vsize == Err::<u64, CheckpointError>(e)
                },
            },
            *final(final(self).0) == *final(old(self).0),
    {
        let scripts: Scripts = match scripts {
            Ok(scripts) => scripts,
            Err(e) => {
                return Err(e);
            },
        };
        let ghost before = self.0@;
        let input = Input {
            prevout,
            script_pubkey: scripts.output_script,
            redeem_script: scripts.redeem_script,
            sigset_index: sigset.index,
            dest,
            amount,
            est_witness_vsize: sigset.est_witness_vsize,
            sigs: ThresholdSig::from_sigset(sigset),
        };
        let vsize: u64 = input.est_vsize();
        assert(input@ =~= InputView::unsigned(prevout@, sigset@, scripts@, dest@, amount));
        self.0.inputs.push(input);
        assert(self.0@.inputs =~= before.inputs.push(input@));
        Ok(vsize)
    }

    /// Closes the checkpoint: its transaction is fixed, pays the reserve what is left
    /// to it, and each input gets the message that its signatures are to commit to.
    pub fn advance(self) -> (result: Result<Advanced, CheckpointError>)
        requires
            (*old(self.0)).wf(),
            (*old(self.0))@.can_advance(),
        ensures
            (*final(self.0)).wf(),
            match (*old(self.0))@.closing() {
                Ok(()) => {
                    &&& (*final(self.0))@ == (*old(self.0))@.advanced()
                    &&& result matches Ok((outpoint, value, inputs, outputs))
                    &&& outpoint@ == (OutPointView {
                        txid: transaction_id((*old(self.0))@.signing_tx().stripped()),
                        vout: 0,
                    })
                    &&& value == (*old(self.0))@.reserve_value()
                    &&& inputs_view(inputs@) == (*old(self.0))@.excess_inputs()
                    &&& outputs_view(outputs@) == (*old(self.0))@.excess_outputs()
                    &&& forall|i: int| 0 <= i < inputs@.len() ==> (#[trigger] inputs@[i]).wf()
                },
                Err(e) => {
                    &&& (*final(self.0))@ == (*old(self.0))@.stopped()
                    &&& result == Err::<Advanced, CheckpointError>(e)
                },
            },
    {
        let checkpoint = self.0;
        let ghost before = checkpoint@;
        let ghost closed = before.closed();
        let (excess_inputs, excess_outputs) = match checkpoint.close() {
            Ok(excess) => excess,
            Err(e) => {
                return Err(e);
            },
        };
        let in_amount: u64 = match checkpoint.get_tvl() {
            Ok(amount) => amount,
            Err(e) => {
                return Err(e);
            },
        };
        let out_amount: u64 = checkpoint.checked_out_amount().unwrap();
        let (mut tx, est_vsize): (Transaction, u64) = match checkpoint.tx() {
            Ok(sized) => sized,
            Err(e) => {
                return Err(e);
            },
        };
        let fee: u64 = est_vsize * FEE_RATE;
        let reserve_value: u64 = in_amount - out_amount - fee;
        assert(closed.outputs[0] == before.reserve_output(0));
        assert(tx@.output == closed.outputs);
        assert(tx.output@[0]@ == tx@.output[0] && checkpoint.outputs@[0]@ == checkpoint@.outputs[0]);
        checkpoint.outputs[0].value = reserve_value;
        tx.output[0].value = reserve_value;
        assert(tx@ =~= before.signing_tx());
        assert(checkpoint@.outputs =~= before.signing_tx().output);
        let mut i: usize = 0;
        while i < checkpoint.inputs.len()
            invariant
                i <= checkpoint.inputs@.len(),
                checkpoint.inputs@.len() == closed.inputs.len(),
                checkpoint.inputs@.len() == tx@.input.len(),
                closed == before.closed(),
                tx@ == before.signing_tx(),
                checkpoint.wf(),
                checkpoint@.status == closed.status,
                checkpoint@.signed_inputs == closed.signed_inputs,
                checkpoint@.sigset == closed.sigset,
                checkpoint@.outputs == before.signing_tx().output,
                forall|j: int|
                    0 <= j < i ==> (#[trigger] checkpoint.inputs@[j])@ == before.advanced().inputs[j],
                forall|j: int|
                    i <= j < checkpoint.inputs@.len() ==> (#[trigger] checkpoint.inputs@[j])@
                        == closed.inputs[j],
            decreases checkpoint.inputs.len() - i,
        {
            let hash = signature_hash(
                &tx,
                i,
                &checkpoint.inputs[i].redeem_script,
                checkpoint.inputs[i].amount,
            );
            match hash {
                Ok(message) => {
                    checkpoint.inputs[i].sigs.set_message(message);
                },
                Err(_) => {
                    return Err(CheckpointError::Sighash);
                },
            }
            i += 1;
        }
        let reserve_outpoint = OutPoint { txid: transaction_hash(&tx), vout: 0 };
        assert(checkpoint@ =~= before.advanced());
        Ok((reserve_outpoint, reserve_value, excess_inputs, excess_outputs))
    }
}

} // verus!
