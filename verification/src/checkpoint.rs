//! One checkpoint: a transaction that moves the reserve, from its making to its
//! last signature.
use vstd::prelude::*;

use crate::error::CheckpointError;
use crate::input::{amount_of, inputs_view, witness_vsize_of, Input, InputView};
use crate::outside::{segwit_hash, transaction_size};
use crate::signatory::{clone_script, SignatorySet, SignatorySetView};
use crate::sums::{lemma_sum_prefix, lemma_sum_step, sum_by};
use crate::tx::{outputs_view, Transaction, TransactionView, TxIn, TxOut, TxOutView};

verus! {

/// The most inputs that a checkpoint's transaction has.
pub const MAX_INPUTS: u64 = 40;

/// The most outputs that a checkpoint's transaction has, the reserve's among them.
pub const MAX_OUTPUTS: u64 = 200;

/// The fee for a unit of a transaction's size.
pub const FEE_RATE: u64 = 1;

/// How far a checkpoint has come.
#[derive(Debug, Clone, Copy, PartialEq, Eq, Structural)]
pub enum CheckpointStatus {
    /// It takes in deposits and withdrawals.
    Building,
    /// Its transaction is fixed and waits for signatures.
    Signing,
    /// Its transaction is signed.
    Complete,
}

impl Default for CheckpointStatus {
    fn default() -> (status: CheckpointStatus)
        ensures
            status == CheckpointStatus::Building,
    {
        CheckpointStatus::Building
    }
}

/// An output of a checkpoint's transaction.
pub type Output = TxOut;

/// A checkpoint.
#[derive(Debug)]
pub struct Checkpoint {
    pub status: CheckpointStatus,
    pub inputs: Vec<Input>,
    /// How many inputs have enough signatures.
    pub signed_inputs: u16,
    pub outputs: Vec<Output>,
    pub sigset: SignatorySet,
}

/// What a `Checkpoint` stands for.
#[verifier::ext_equal]
pub struct CheckpointView {
    pub status: CheckpointStatus,
    pub inputs: Seq<InputView>,
    pub signed_inputs: u16,
    pub outputs: Seq<TxOutView>,
    pub sigset: SignatorySetView,
}

impl View for Checkpoint {
    type V = CheckpointView;

    open spec fn view(&self) -> CheckpointView {
        CheckpointView {
            status: self.status,
            inputs: inputs_view(self.inputs@),
            signed_inputs: self.signed_inputs,
            outputs: outputs_view(self.outputs@),
            sigset: self.sigset@,
        }
    }
}

/// The value of an output.
pub open spec fn value_of() -> spec_fn(TxOutView) -> int {
    |o: TxOutView| o.value as int
}

/// The first `n` elements, or all where there are fewer.
pub open spec fn first<T>(s: Seq<T>, n: int) -> Seq<T> {
    if s.len() <= n {
        s
    } else {
        s.take(n)
    }
}

/// The elements behind the first `n`, from the last one on.
pub open spec fn beyond<T>(s: Seq<T>, n: int) -> Seq<T> {
    if s.len() <= n {
        Seq::empty()
    } else {
        s.skip(n).reverse()
    }
}

impl CheckpointView {
    /// A checkpoint that holds nothing yet.
    pub open spec fn empty(sigset: SignatorySetView) -> CheckpointView {
        CheckpointView {
            status: CheckpointStatus::Building,
            inputs: Seq::empty(),
            signed_inputs: 0,
            outputs: Seq::empty(),
            sigset,
        }
    }

    /// The sum of the amounts of the inputs.
    pub open spec fn in_amount(self) -> int {
        sum_by(self.inputs, amount_of())
    }

    /// The sum of the values of the outputs.
    pub open spec fn out_amount(self) -> int {
        sum_by(self.outputs, value_of())
    }

    /// The transaction of the checkpoint, with the signatures given so far.
    pub open spec fn tx(self) -> Result<TransactionView, CheckpointError> {
        if forall|i: int| 0 <= i < self.inputs.len() ==> (#[trigger] self.inputs[i]).txin() is Ok {
            Ok(
                TransactionView {
                    version: 1,
                    lock_time: 0,
                    input: Seq::new(self.inputs.len(), |i: int| self.inputs[i].txin()->Ok_0),
                    output: self.outputs,
                },
            )
        } else {
            Err(CheckpointError::MalformedSignature)
        }
    }

    /// An estimate of the size of the transaction with all signatures.
    pub open spec fn est_vsize(self) -> int {
        sum_by(self.inputs, witness_vsize_of()) + self.tx()->Ok_0.bytes()
    }

    /// The fee that the transaction pays.
    pub open spec fn fee(self) -> int {
        self.est_vsize() * FEE_RATE
    }

    /// The output of the reserve.
    pub open spec fn reserve_output(self, value: u64) -> TxOutView {
        TxOutView { value, script_pubkey: self.sigset.reserve_output_script->Ok_0 }
    }

    /// The outputs behind that of the reserve, which is worth nothing as yet.
    pub open spec fn outputs_with_reserve(self) -> Seq<TxOutView> {
        seq![self.reserve_output(0)] + self.outputs
    }

    /// The checkpoint once nothing can be added to it: the inputs and outputs that
    /// fit in the transaction, and the reserve's output in front.
    pub open spec fn closed(self) -> CheckpointView {
        CheckpointView {
            status: CheckpointStatus::Signing,
            inputs: first(self.inputs, MAX_INPUTS as int),
            outputs: first(self.outputs_with_reserve(), MAX_OUTPUTS as int),
            ..self
        }
    }

    /// The inputs that do not fit in the transaction.
    pub open spec fn excess_inputs(self) -> Seq<InputView> {
        beyond(self.inputs, MAX_INPUTS as int)
    }

    /// The outputs that do not fit in the transaction.
    pub open spec fn excess_outputs(self) -> Seq<TxOutView> {
        beyond(self.outputs_with_reserve(), MAX_OUTPUTS as int)
    }

    /// What the closed checkpoint leaves to the reserve.
    pub open spec fn reserve_value(self) -> int {
        self.closed().in_amount() - self.closed().out_amount() - self.closed().fee()
    }

    /// The transaction that is to be signed once the checkpoint is closed.
    pub open spec fn signing_tx(self) -> TransactionView {
        TransactionView {
            output: self.closed().outputs.update(
                0,
                self.reserve_output(self.reserve_value() as u64),
            ),
            ..self.closed().tx()->Ok_0
        }
    }

    /// The checkpoint once it is closed, its reserve paid out, and each input given
    /// the message that its signatures are to commit to.
    pub open spec fn advanced(self) -> CheckpointView {
        let closed = self.closed();
        let tx = self.signing_tx();
        CheckpointView {
            inputs: Seq::new(
                closed.inputs.len(),
                |i: int|
                    closed.inputs[i].with_message(
                        segwit_hash(
                            tx.stripped(),
                            i,
                            closed.inputs[i].redeem_script,
                            closed.inputs[i].amount,
                        ),
                    ),
            ),
            outputs: tx.output,
            ..closed
        }
    }

    /// What comes in the way of closing: the reserve's script could not be built, or
    /// else there is no transaction.
    pub open spec fn closing(self) -> Result<(), CheckpointError> {
        match self.sigset.reserve_output_script {
            Err(e) => Err(e),
            Ok(_) => match self.closed().tx() {
                Err(e) => Err(e),
                Ok(_) => Ok(()),
            },
        }
    }

    /// The checkpoint where something came in the way of closing.
    pub open spec fn stopped(self) -> CheckpointView {
        match self.sigset.reserve_output_script {
            Err(_) => CheckpointView { status: CheckpointStatus::Signing, ..self },
            Ok(_) => self.closed(),
        }
    }

    /// Whether the sums that closing takes fit in 64 bits, and what comes in covers
    /// what goes out and the fee.
    pub open spec fn can_advance(self) -> bool {
        let closed = self.closed();
        self.sigset.reserve_output_script is Ok ==> {
            &&& closed.in_amount() <= u64::MAX
            &&& closed.out_amount() <= u64::MAX
            &&& closed.tx() is Ok ==> {
                &&& closed.est_vsize() <= u64::MAX
                &&& closed.fee() <= u64::MAX
                &&& self.reserve_value() >= 0
            }
        }
    }
}

impl Checkpoint {
    /// The signatures of all inputs are kept well, and so is the signatory set.
    pub open spec fn wf(&self) -> bool {
        &&& forall|i: int| 0 <= i < self.inputs@.len() ==> (#[trigger] self.inputs@[i]).wf()
        &&& self.sigset@.wf()
    }

    /// A checkpoint that holds nothing yet.
    pub fn new(sigset: SignatorySet) -> (checkpoint: Checkpoint)
        requires
            sigset@.wf(),
        ensures
            checkpoint.wf(),
            checkpoint@ == CheckpointView::empty(sigset@),
    {
        let checkpoint = Checkpoint {
            status: CheckpointStatus::Building,
            inputs: Vec::new(),
            signed_inputs: 0,
            outputs: Vec::new(),
            sigset,
        };
        assert(checkpoint@ =~= CheckpointView::empty(sigset@));
        checkpoint
    }

    /// When the checkpoint's signatory set was made.
    pub fn create_time(&self) -> (time: u64)
        ensures
            time == self@.sigset.create_time,
    {
        self.sigset.create_time
    }

    /// The transaction of the checkpoint, with the signatures given so far.
    pub fn transaction(&self) -> (tx: Result<Transaction, CheckpointError>)
        requires
            self.wf(),
        ensures
            match self@.tx() {
                Ok(model) => tx matches Ok(t) && t@ == model,
                Err(e) => tx == Err::<Transaction, CheckpointError>(e),
            },
    {
        let mut input: Vec<TxIn> = Vec::new();
        let mut i: usize = 0;
        while i < self.inputs.len()
            invariant
                i <= self.inputs.len(),
                self.wf(),
                input@.len() == i,
                forall|j: int|
                    0 <= j < i ==> (#[trigger] self@.inputs[j]).txin() is Ok && input@[j]@
                        == self@.inputs[j].txin()->Ok_0,
            decreases self.inputs.len() - i,
        {
            match self.inputs[i].to_txin() {
                Ok(txin) => {
                    assert(self@.inputs[i as int].txin() is Ok);
                    input.push(txin);
                },
                Err(e) => {
                    assert(self@.inputs[i as int].txin() is Err);
                    return Err(e);
                },
            }
            i += 1;
        }
        let mut output: Vec<TxOut> = Vec::new();
        let mut k: usize = 0;
        while k < self.outputs.len()
            invariant
                k <= self.outputs.len(),
                output@.len() == k,
                forall|j: int| 0 <= j < k ==> (#[trigger] output@[j])@ == self@.outputs[j],
            decreases self.outputs.len() - k,
        {
            output.push(self.outputs[k].clone());
            k += 1;
        }
        let tx = Transaction { version: 1, lock_time: 0, input, output };
        assert(tx@ =~= self@.tx()->Ok_0);
        Ok(tx)
    }

    /// The transaction of the checkpoint, with the signatures given so far, and an
    /// estimate of its size with all of them.
    pub fn tx(&self) -> (tx: Result<(Transaction, u64), CheckpointError>)
        requires
            self.wf(),
            self@.tx() is Ok ==> self@.est_vsize() <= u64::MAX,
        ensures
            match self@.tx() {
                Ok(model) => tx matches Ok(t) && t.0@ == model && t.1 == self@.est_vsize(),
                Err(e) => tx == Err::<(Transaction, u64), CheckpointError>(e),
            },
    {
        match self.transaction() {
            Ok(tx) => {
                let est_vsize: u64 = self.checked_est_vsize(&tx).unwrap();
                Ok((tx, est_vsize))
            },
            Err(e) => Err(e),
        }
    }

    /// The sum of the amounts of the inputs.
    pub fn get_tvl(&self) -> (tvl: Result<u64, CheckpointError>)
        requires
            self@.in_amount() <= u64::MAX,
        ensures
            tvl matches Ok(amount) && amount == self@.in_amount(),
    {
        Ok(self.checked_in_amount().unwrap())
    }

    /// An estimate of the size of the transaction with all signatures, if it fits in
    /// 64 bits, where `tx` is the transaction with those given so far.
    fn checked_est_vsize(&self, tx: &Transaction) -> (est_vsize: Option<u64>)
        requires
            self@.tx() == Ok::<TransactionView, CheckpointError>(tx@),
        ensures
            match est_vsize {
                Some(vsize) => vsize == self@.est_vsize(),
                None => self@.est_vsize() > u64::MAX,
            },
    {
        let size: usize = transaction_size(tx);
        let mut est_vsize: u64 = size as u64;
        let mut i: usize = 0;
        assert(self@.inputs.take(0) =~= Seq::empty());
        while i < self.inputs.len()
            invariant
                i <= self.inputs.len(),
                size <= u64::MAX,
                size == self@.tx()->Ok_0.bytes(),
                est_vsize == size + sum_by(self@.inputs.take(i as int), witness_vsize_of()),
            decreases self.inputs.len() - i,
        {
            proof {
                lemma_sum_step(self@.inputs, i as int, witness_vsize_of());
                lemma_sum_prefix(self@.inputs, i + 1, witness_vsize_of());
            }
            match est_vsize.checked_add(self.inputs[i].est_witness_vsize) {
                Some(vsize) => {
                    est_vsize = vsize;
                },
                None => {
                    return None;
                },
            }
            i += 1;
        }
        assert(self@.inputs.take(i as int) =~= self@.inputs);
        Some(est_vsize)
    }

    /// Whether the estimate of the size of the transaction fits in 64 bits, where there
    /// is a transaction.
    pub fn tx_fits(&self) -> (fits: bool)
        requires
            self.wf(),
        ensures
            fits == (self@.tx() is Ok ==> self@.est_vsize() <= u64::MAX),
    {
        match self.transaction() {
            Ok(tx) => self.checked_est_vsize(&tx).is_some(),
            Err(_) => true,
        }
    }

    /// The sum of the amounts of the inputs, if it fits in 64 bits.
    pub fn checked_in_amount(&self) -> (amount: Option<u64>)
        ensures
            match amount {
                Some(sum) => sum == self@.in_amount(),
                None => self@.in_amount() > u64::MAX,
            },
    {
        let mut amount: u64 = 0;
        let mut i: usize = 0;
        assert(self@.inputs.take(0) =~= Seq::empty());
        while i < self.inputs.len()
            invariant
                i <= self.inputs.len(),
                amount == sum_by(self@.inputs.take(i as int), amount_of()),
            decreases self.inputs.len() - i,
        {
            proof {
                lemma_sum_step(self@.inputs, i as int, amount_of());
                lemma_sum_prefix(self@.inputs, i + 1, amount_of());
            }
            match amount.checked_add(self.inputs[i].amount) {
                Some(sum) => {
                    amount = sum;
                },
                None => {
                    return None;
                },
            }
            i += 1;
        }
        assert(self@.inputs.take(i as int) =~= self@.inputs);
        Some(amount)
    }

    /// The sum of the values of the outputs, if it fits in 64 bits.
    pub(crate) fn checked_out_amount(&self) -> (amount: Option<u64>)
        ensures
            match amount {
                Some(sum) => sum == self@.out_amount(),
                None => self@.out_amount() > u64::MAX,
            },
    {
        let mut amount: u64 = 0;
        let mut i: usize = 0;
        assert(self@.outputs.take(0) =~= Seq::empty());
        while i < self.outputs.len()
            invariant
                i <= self.outputs.len(),
                amount == sum_by(self@.outputs.take(i as int), value_of()),
            decreases self.outputs.len() - i,
        {
            proof {
                lemma_sum_step(self@.outputs, i as int, value_of());
                lemma_sum_prefix(self@.outputs, i + 1, value_of());
            }
            match amount.checked_add(self.outputs[i].value) {
                Some(sum) => {
                    amount = sum;
                },
                None => {
                    return None;
                },
            }
            i += 1;
        }
        assert(self@.outputs.take(i as int) =~= self@.outputs);
        Some(amount)
    }

    /// Closes the checkpoint: nothing can be added to it any more. What does not fit
    /// in its transaction is handed out, from the last one on. Without a script for the
    /// reserve only the status is changed.
    pub(crate) fn close(&mut self) -> (excess: Result<
        (Vec<Input>, Vec<Output>),
        CheckpointError,
    >)
        requires
            old(self).wf(),
        ensures
            final(self).wf(),
            match old(self)@.sigset.reserve_output_script {
                Ok(_) => {
                    &&& final(self)@ == old(self)@.closed()
                    &&& excess matches Ok((inputs, outputs))
                    &&& inputs_view(inputs@) == old(self)@.excess_inputs()
                    &&& outputs_view(outputs@) == old(self)@.excess_outputs()
                    &&& forall|i: int| 0 <= i < inputs@.len() ==> (#[trigger] inputs@[i]).wf()
                },
                Err(e) => {
                    &&& final(self)@ == (CheckpointView {
                        status: CheckpointStatus::Signing,
                        ..old(self)@
                    })
                    &&& excess == Err::<(Vec<Input>, Vec<Output>), CheckpointError>(e)
                },
            },
    {
        let ghost inputs = self.inputs@;
        self.status = CheckpointStatus::Signing;
        let script_pubkey: Vec<u8> = match clone_script(&self.sigset.reserve_output_script) {
            Ok(script) => script,
            Err(e) => {
                return Err(e);
            },
        };
        let reserve_out = TxOut { value: 0, script_pubkey };
        assert(reserve_out@ =~= self@.reserve_output(0));
        self.outputs.insert(0, reserve_out);
        let ghost outputs = self.outputs@;
        assert(outputs_view(outputs) =~= old(self)@.outputs_with_reserve());
        let mut excess_inputs: Vec<Input> = Vec::new();
        assert(inputs.take(inputs.len() as int) =~= inputs);
        assert(inputs.skip(inputs.len() as int).reverse() =~= Seq::empty());
        while self.inputs.len() as u64 > MAX_INPUTS
            invariant
                self.inputs@.len() <= inputs.len(),
                self.inputs@.len() >= MAX_INPUTS || self.inputs@.len() == inputs.len(),
                self.inputs@ =~= inputs.take(self.inputs@.len() as int),
                excess_inputs@ =~= inputs.skip(self.inputs@.len() as int).reverse(),
                self.status == CheckpointStatus::Signing,
                self.signed_inputs == old(self).signed_inputs,
                self.outputs@ == outputs,
                self.sigset == old(self).sigset,
            decreases self.inputs.len(),
        {
            let ghost n = self.inputs@.len();
            match self.inputs.pop() {
                Some(input) => {
                    excess_inputs.push(input);
                    assert(inputs.skip(n - 1).reverse() =~= inputs.skip(n as int).reverse().push(
                        inputs[n - 1],
                    ));
                },
                None => {},
            }
        }
        let mut excess_outputs: Vec<Output> = Vec::new();
        assert(outputs.take(outputs.len() as int) =~= outputs);
        assert(outputs.skip(outputs.len() as int).reverse() =~= Seq::empty());
        let ghost kept = self.inputs@;
        while self.outputs.len() as u64 > MAX_OUTPUTS
            invariant
                self.outputs@.len() <= outputs.len(),
                self.outputs@.len() >= MAX_OUTPUTS || self.outputs@.len() == outputs.len(),
                self.outputs@ =~= outputs.take(self.outputs@.len() as int),
                excess_outputs@ =~= outputs.skip(self.outputs@.len() as int).reverse(),
                self.status == CheckpointStatus::Signing,
                self.signed_inputs == old(self).signed_inputs,
                self.inputs@ == kept,
                self.sigset == old(self).sigset,
            decreases self.outputs.len(),
        {
            let ghost n = self.outputs@.len();
            match self.outputs.pop() {
                Some(output) => {
                    excess_outputs.push(output);
                    assert(outputs.skip(n - 1).reverse() =~= outputs.skip(n as int).reverse().push(
                        outputs[n - 1],
                    ));
                },
                None => {},
            }
        }
        proof {
            assert(self@.inputs =~= old(self)@.closed().inputs);
            assert(self@.outputs =~= old(self)@.closed().outputs);
            assert(inputs_view(excess_inputs@) =~= old(self)@.excess_inputs());
            assert(outputs_view(excess_outputs@) =~= old(self)@.excess_outputs());
        }
        Ok((excess_inputs, excess_outputs))
    }

    /// Whether what comes in covers what goes out and the fee, and all sums fit in 64
    /// bits.
    fn covers_fee(&self) -> (covers: bool)
        requires
            self.wf(),
        ensures
            covers == {
                &&& self@.in_amount() <= u64::MAX
                &&& self@.out_amount() <= u64::MAX
                &&& self@.tx() is Ok ==> {
                    &&& self@.est_vsize() <= u64::MAX
                    &&& self@.fee() <= u64::MAX
                    &&& self@.in_amount() - self@.out_amount() - self@.fee() >= 0
                }
            },
    {
        let in_amount: u64 = match self.checked_in_amount() {
            Some(amount) => amount,
            None => {
                return false;
            },
        };
        let out_amount: u64 = match self.checked_out_amount() {
            Some(amount) => amount,
            None => {
                return false;
            },
        };
        let tx: Transaction = match self.transaction() {
            Ok(tx) => tx,
            Err(_) => {
                return true;
            },
        };
        let est_vsize: u64 = match self.checked_est_vsize(&tx) {
            Some(est_vsize) => est_vsize,
            None => {
                return false;
            },
        };
        match est_vsize.checked_mul(FEE_RATE) {
            Some(fee) => in_amount >= out_amount && in_amount - out_amount >= fee,
            None => false,
        }
    }

    /// Whether the sums that closing takes fit in 64 bits, and what comes in covers
    /// what goes out and the fee.
    pub fn can_advance(&self) -> (can: bool)
        requires
            self.wf(),
        ensures
            can == self@.can_advance(),
    {
        let mut closed: Checkpoint = self.clone();
        match closed.close() {
            Ok(_) => closed.covers_fee(),
            Err(_) => true,
        }
    }

    /// Whether something comes in the way of closing.
    pub(crate) fn closing_fails(&self) -> (fails: bool)
        requires
            self.wf(),
        ensures
            fails == (self@.closing() is Err),
    {
        let mut closed: Checkpoint = self.clone();
        match closed.close() {
            Ok(_) => closed.transaction().is_err(),
            Err(_) => true,
        }
    }
}

impl Clone for Checkpoint {
    fn clone(&self) -> (copy: Checkpoint)
        ensures
            copy@ == self@,
            self.wf() ==> copy.wf(),
    {
        let mut inputs: Vec<Input> = Vec::new();
        let mut i: usize = 0;
        while i < self.inputs.len()
            invariant
                i <= self.inputs.len(),
                inputs@.len() == i,
                forall|j: int|
                    0 <= j < i ==> (#[trigger] inputs@[j])@ == self.inputs@[j]@ && inputs@[j].wf()
                        == self.inputs@[j].wf(),
            decreases self.inputs.len() - i,
        {
            inputs.push(self.inputs[i].clone());
            i += 1;
        }
        let mut outputs: Vec<Output> = Vec::new();
        let mut k: usize = 0;
        while k < self.outputs.len()
            invariant
                k <= self.outputs.len(),
                outputs@.len() == k,
                forall|j: int| 0 <= j < k ==> (#[trigger] outputs@[j])@ == self.outputs@[j]@,
            decreases self.outputs.len() - k,
        {
            outputs.push(self.outputs[k].clone());
            k += 1;
        }
        let copy = Checkpoint {
            status: self.status,
            inputs,
            signed_inputs: self.signed_inputs,
            outputs,
            sigset: self.sigset.clone(),
        };
        assert(copy@ =~= self@);
        copy
    }
}

} // verus!
