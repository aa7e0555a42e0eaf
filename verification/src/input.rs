//! The inputs of a checkpoint: coins that its transaction spends.
use vstd::prelude::*;

use crate::error::CheckpointError;
use crate::keys::Address;
use crate::signatory::{ScriptsView, SignatorySetView};
use crate::threshold_sig::{ThresholdSig, ThresholdSigView};
use crate::tx::{stack_view, OutPoint, OutPointView, TxIn, TxInView};

verus! {

/// An output of an earlier transaction that a checkpoint spends, and the signatures
/// for it.
#[derive(Debug)]
pub struct Input {
    pub prevout: OutPoint,
    pub script_pubkey: Vec<u8>,
    pub redeem_script: Vec<u8>,
    pub sigset_index: u32,
    pub dest: Address,
    pub amount: u64,
    pub est_witness_vsize: u64,
    pub sigs: ThresholdSig,
}

/// What an `Input` stands for.
#[verifier::ext_equal]
pub struct InputView {
    pub prevout: OutPointView,
    pub script_pubkey: Seq<u8>,
    pub redeem_script: Seq<u8>,
    pub sigset_index: u32,
    pub dest: Seq<u8>,
    pub amount: u64,
    pub est_witness_vsize: u64,
    pub sigs: ThresholdSigView,
}

impl View for Input {
    type V = InputView;

    open spec fn view(&self) -> InputView {
        InputView {
            prevout: self.prevout@,
            script_pubkey: self.script_pubkey@,
            redeem_script: self.redeem_script@,
            sigset_index: self.sigset_index,
            dest: self.dest@,
            amount: self.amount,
            est_witness_vsize: self.est_witness_vsize,
            sigs: self.sigs@,
        }
    }
}

/// The contents of a list of inputs.
pub open spec fn inputs_view(inputs: Seq<Input>) -> Seq<InputView> {
    Seq::new(inputs.len(), |i: int| inputs[i]@)
}

/// The amount of an input.
pub open spec fn amount_of() -> spec_fn(InputView) -> int {
    |i: InputView| i.amount as int
}

/// The estimate of the size of an input's witness.
pub open spec fn witness_vsize_of() -> spec_fn(InputView) -> int {
    |i: InputView| i.est_witness_vsize as int
}

impl InputView {
    /// An input that nobody has signed, which spends coins that `sigset` holds for
    /// `dest`.
    pub open spec fn unsigned(
        prevout: OutPointView,
        sigset: SignatorySetView,
        scripts: ScriptsView,
        dest: Seq<u8>,
        amount: u64,
    ) -> InputView {
        InputView {
            prevout,
            script_pubkey: scripts.output_script,
            redeem_script: scripts.redeem_script,
            sigset_index: sigset.index,
            dest,
            amount,
            est_witness_vsize: sigset.est_witness_vsize,
            sigs: ThresholdSigView::unsigned(sigset),
        }
    }

    /// The input of the transaction. Its witness ends in the redeem script as soon
    /// as there are enough signatures, and is empty before.
    pub open spec fn txin(self) -> Result<TxInView, CheckpointError> {
        match self.sigs.witness() {
            Ok(witness) => Ok(
                TxInView {
                    previous_output: self.prevout,
                    script_sig: Seq::empty(),
                    sequence: u32::MAX,
                    witness: if self.sigs.done() {
                        witness.push(self.redeem_script)
                    } else {
                        witness
                    },
                },
            ),
            Err(e) => Err(e),
        }
    }

    /// The input with another message to sign.
    pub open spec fn with_message(self, message: Seq<u8>) -> InputView {
        InputView { sigs: ThresholdSigView { message, ..self.sigs }, ..self }
    }
}

impl Input {
    /// The signatures are kept well.
    pub open spec fn wf(&self) -> bool {
        self.sigs.wf()
    }

    /// The input of the transaction. Its witness ends in the redeem script as soon
    /// as there are enough signatures, and is empty before.
    pub fn to_txin(&self) -> (txin: Result<TxIn, CheckpointError>)
        requires
            self.wf(),
        ensures
            match self@.txin() {
                Ok(model) => txin matches Ok(t) && t@ == model,
                Err(e) => txin == Err::<TxIn, CheckpointError>(e),
            },
    {
        let mut witness: Vec<Vec<u8>> = match self.sigs.to_witness() {
            Ok(witness) => witness,
            Err(e) => {
                return Err(e);
            },
        };
        let ghost items = stack_view(witness@);
        if self.sigs.done() {
            let script: Vec<u8> = self.redeem_script.clone();
            assert(script@ =~= self.redeem_script@);
            witness.push(script);
            assert(stack_view(witness@) =~= items.push(self.redeem_script@));
        }
        let txin = TxIn {
            previous_output: self.prevout,
            script_sig: Vec::new(),
            sequence: u32::MAX,
            witness,
        };
        assert(txin@ =~= self@.txin()->Ok_0);
        Ok(txin)
    }

    /// An estimate of the size that the input adds to a transaction.
    pub fn est_vsize(&self) -> (vsize: u64)
        requires
            self.est_witness_vsize + 40 <= u64::MAX,
        ensures
            vsize == self@.est_witness_vsize + 40,
    {
        self.est_witness_vsize + 40
    }
}

impl Clone for Input {
    fn clone(&self) -> (copy: Input)
        ensures
            copy@ == self@,
            copy.wf() == self.wf(),
    {
        let copy = Input {
            prevout: self.prevout,
            script_pubkey: self.script_pubkey.clone(),
            redeem_script: self.redeem_script.clone(),
            sigset_index: self.sigset_index,
            dest: self.dest,
            amount: self.amount,
            est_witness_vsize: self.est_witness_vsize,
            sigs: self.sigs.clone(),
        };
        assert(copy@ =~= self@);
        copy
    }
}

} // verus!
