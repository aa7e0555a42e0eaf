//! What holds of checkpoints and their queue as a whole, whatever is done with them.
pub mod closing;
pub mod reading;
pub mod signatures;
pub mod signing;
pub mod stepping;
pub mod views;

use vstd::prelude::*;

use crate::checkpoint::{
    beyond,
    first,
    value_of,
    CheckpointStatus,
    CheckpointView,
    MAX_INPUTS,
    MAX_OUTPUTS,
};
use crate::error::CheckpointError;
use crate::input::{amount_of, witness_vsize_of, InputView};
use crate::keys::Xpub;
use crate::outside::{segwit_hash, transaction_id};
use crate::queue::{lemma_completed, lemma_completed_bound, QueueView};
use crate::signatory::{ScriptsView, SignatorySetView};
use crate::signing::{
    input_keys,
    lemma_sign_keeps_inputs,
    lemma_sign_run,
    messages,
    sign_all,
    sign_run,
};
use crate::sums::{
    lemma_sum_concat,
    lemma_sum_prefix,
    lemma_sum_push,
    lemma_sum_reverse,
    lemma_sum_same,
    sum_by,
};
use crate::threshold_sig::{
    lemma_position,
    lemma_signed_by,
    lemma_unsigned_power,
    ThresholdSigView,
};
use crate::tx::{string_bytes, OutPointView, TransactionView, TxInView, TxOutView};

verus! {

/// One for an input without enough signatures.
pub open spec fn undone() -> spec_fn(InputView) -> int {
    |i: InputView|
        if i.sigs.done() {
            0
        } else {
            1int
        }
}

/// How many inputs lack signatures.
pub open spec fn undone_inputs(inputs: Seq<InputView>) -> int {
    sum_by(inputs, undone())
}

impl InputView {
    /// Nobody has signed the input.
    pub open spec fn untouched(self) -> bool {
        forall|i: int| 0 <= i < self.sigs.shares.len() ==> (#[trigger] self.sigs.shares[i]).sig is None
    }

    /// Every signature of the input is one of its message, under the key of its share.
    pub open spec fn genuine(self) -> bool {
        forall|i: int|
            0 <= i < self.sigs.shares.len() ==> ((#[trigger] self.sigs.shares[i]).sig matches Some(
                sig,
            ) ==> self.sigs.accepts(self.sigs.shares[i].pubkey, sig))
    }
}

impl CheckpointView {
    /// The transaction without any witness.
    pub open spec fn unsigned_tx(self) -> TransactionView {
        TransactionView {
            version: 1,
            lock_time: 0,
            input: Seq::new(
                self.inputs.len(),
                |i: int|
                    TxInView {
                        previous_output: self.inputs[i].prevout,
                        script_sig: Seq::empty(),
                        sequence: u32::MAX,
                        witness: Seq::empty(),
                    },
            ),
            output: self.outputs,
        }
    }

    /// The count of signed inputs is that of the inputs with enough signatures.
    pub open spec fn counted(self) -> bool {
        self.signed_inputs == self.inputs.len() - undone_inputs(self.inputs)
    }

    /// The message of each input commits to the transaction, to the input's place in
    /// it, and to what the input spends.
    pub open spec fn committed(self) -> bool {
        forall|i: int|
            0 <= i < self.inputs.len() ==> (#[trigger] self.inputs[i]).sigs.message == segwit_hash(
                self.unsigned_tx(),
                i,
                self.inputs[i].redeem_script,
                self.inputs[i].amount,
            )
    }

    /// The transaction keeps to its limits.
    pub open spec fn limited(self) -> bool {
        self.inputs.len() <= MAX_INPUTS && 0 < self.outputs.len() <= MAX_OUTPUTS
    }

    /// The transaction is fixed, and every signature so far is a signature of it.
    pub open spec fn fixed(self) -> bool {
        &&& self.counted()
        &&& self.committed()
        &&& self.limited()
        &&& forall|i: int| 0 <= i < self.inputs.len() ==> (#[trigger] self.inputs[i]).genuine()
    }

    /// Every input has enough signatures.
    pub open spec fn signed_fully(self) -> bool {
        forall|i: int| 0 <= i < self.inputs.len() ==> (#[trigger] self.inputs[i]).sigs.done()
    }

    /// The first input spends the reserve of the checkpoint before: the first output of
    /// its transaction, all that is in it and under its script.
    pub open spec fn takes_over(self, before: CheckpointView) -> bool {
        &&& self.inputs.len() > 0
        &&& before.outputs.len() > 0
        &&& self.inputs[0].prevout == (OutPointView {
            txid: transaction_id(before.unsigned_tx()),
            vout: 0,
        })
        &&& self.inputs[0].amount == before.outputs[0].value
        &&& self.inputs[0].script_pubkey == before.outputs[0].script_pubkey
    }

    /// What holds of a checkpoint at each status.
    pub open spec fn sound(self) -> bool {
        match self.status {
            CheckpointStatus::Building => {
                &&& self.signed_inputs == 0
                &&& forall|i: int|
                    0 <= i < self.inputs.len() ==> (#[trigger] self.inputs[i]).untouched()
            },
            CheckpointStatus::Signing => self.fixed(),
            CheckpointStatus::Complete => self.fixed() && self.signed_fully(),
        }
    }
}

impl QueueView {
    /// The last checkpoint is being built, the one before it is being signed or
    /// signed, and all others are signed.
    pub open spec fn ordered(self) -> bool {
        &&& forall|i: int|
            0 <= i < self.queue.len() - 2 ==> (#[trigger] self.queue[i]).status
                == CheckpointStatus::Complete
        &&& self.queue.len() >= 2 ==> self.queue[self.queue.len() - 2].status
            != CheckpointStatus::Building
        &&& self.queue.len() >= 1 ==> self.queue.last().status == CheckpointStatus::Building
    }

    /// Each signatory set was made for the index of its checkpoint.
    pub open spec fn indexed(self) -> bool {
        forall|i: int|
            0 <= i < self.queue.len() ==> (#[trigger] self.queue[i]).sigset.index == self.start() + i
    }

    /// The checkpoint at the position takes over the reserve of the one before it.
    pub open spec fn linked(self, i: int) -> bool {
        self.queue[i].takes_over(self.queue[i - 1])
    }

    /// Every checkpoint behind the first takes over the reserve of the one before it.
    pub open spec fn chained(self) -> bool {
        forall|i: int| 0 < i < self.queue.len() ==> #[trigger] self.linked(i)
    }

    /// The queue where the checkpoint that is being built has one more input.
    pub open spec fn with_input(self, input: InputView) -> QueueView {
        let building = self.at(self.index);
        self.with(
            self.index,
            CheckpointView { inputs: building.inputs.push(input), ..building },
        )
    }

    /// The queue where the checkpoint that is being built has one more output.
    pub open spec fn with_output(self, output: TxOutView) -> QueueView {
        let building = self.at(self.index);
        self.with(
            self.index,
            CheckpointView { outputs: building.outputs.push(output), ..building },
        )
    }

    /// What holds of a queue at all times.
    pub open spec fn sound(self) -> bool {
        &&& self.ordered()
        &&& forall|i: int| 0 <= i < self.queue.len() ==> (#[trigger] self.queue[i]).sound()
    }
}

/// The transaction of a checkpoint is its unsigned transaction, with witnesses.
pub proof fn law_tx_is_unsigned_tx(checkpoint: CheckpointView)
    requires
        checkpoint.tx() is Ok,
    ensures
        checkpoint.tx()->Ok_0.stripped() == checkpoint.unsigned_tx(),
{
    let tx = checkpoint.tx()->Ok_0.stripped();
    assert forall|i: int| 0 <= i < tx.input.len() implies tx.input[i]
        == checkpoint.unsigned_tx().input[i] by {
        assert(checkpoint.inputs[i].txin() is Ok);
    }
    assert(tx =~= checkpoint.unsigned_tx());
}

/// An input that nobody has signed does not have enough signatures, and has an empty
/// witness.
proof fn lemma_untouched(input: InputView)
    requires
        input.untouched(),
    ensures
        !input.sigs.done(),
        input.txin() is Ok,
        input.txin()->Ok_0.witness == Seq::<Seq<u8>>::empty(),
        input.genuine(),
{
    lemma_unsigned_power(input.sigs.shares);
}

/// Inputs none of which has enough signatures are all counted as undone.
proof fn lemma_all_undone(inputs: Seq<InputView>)
    requires
        forall|i: int| 0 <= i < inputs.len() ==> !(#[trigger] inputs[i]).sigs.done(),
    ensures
        undone_inputs(inputs) == inputs.len(),
    decreases inputs.len(),
{
    if inputs.len() > 0 {
        assert(!inputs[inputs.len() - 1].sigs.done());
        assert forall|i: int| 0 <= i < inputs.drop_last().len() implies !(
        #[trigger] inputs.drop_last()[i]).sigs.done() by {
            assert(!inputs[i].sigs.done());
        }
        lemma_all_undone(inputs.drop_last());
    }
}

/// Inputs are not counted as undone exactly where all have enough signatures.
proof fn lemma_none_undone(inputs: Seq<InputView>)
    ensures
        0 <= undone_inputs(inputs) <= inputs.len(),
        undone_inputs(inputs) == 0 <==> (forall|i: int|
            0 <= i < inputs.len() ==> (#[trigger] inputs[i]).sigs.done()),
    decreases inputs.len(),
{
    if inputs.len() > 0 {
        let rest = inputs.drop_last();
        lemma_none_undone(rest);
        if undone_inputs(inputs) == 0 {
            assert forall|i: int| 0 <= i < inputs.len() implies (#[trigger] inputs[i]).sigs.done() by {
                if i < rest.len() {
                    assert(rest[i].sigs.done());
                }
            }
        }
        if forall|i: int| 0 <= i < inputs.len() ==> (#[trigger] inputs[i]).sigs.done() {
            assert(inputs[inputs.len() - 1].sigs.done());
            assert forall|i: int| 0 <= i < rest.len() implies (#[trigger] rest[i]).sigs.done() by {
                assert(inputs[i].sigs.done());
            }
        }
    }
}

/// A checkpoint's count says that it is done exactly when every input has enough
/// signatures.
pub proof fn law_done_means_signed(checkpoint: CheckpointView)
    requires
        checkpoint.counted(),
    ensures
        checkpoint.signed_inputs == checkpoint.inputs.len() <==> checkpoint.signed_fully(),
{
    lemma_none_undone(checkpoint.inputs);
}

/// Closing loses nothing: what is kept and what is handed out, turned around, are the
/// inputs and the outputs, behind the reserve's.
pub proof fn law_closing_loses_nothing(checkpoint: CheckpointView)
    ensures
        checkpoint.closed().inputs + checkpoint.excess_inputs().reverse() == checkpoint.inputs,
        checkpoint.closed().outputs + checkpoint.excess_outputs().reverse()
            == checkpoint.outputs_with_reserve(),
        checkpoint.closed().limited(),
{
    lemma_split(checkpoint.inputs, MAX_INPUTS as int);
    lemma_split(checkpoint.outputs_with_reserve(), MAX_OUTPUTS as int);
}

/// The first elements and those beyond, turned around, are all elements.
proof fn lemma_split<T>(s: Seq<T>, n: int)
    requires
        0 <= n,
    ensures
        first(s, n) + beyond(s, n).reverse() == s,
{
    assert(first(s, n) + beyond(s, n).reverse() =~= s);
}

/// The transaction of a closed checkpoint, which is the one that is signed, spends what it
/// takes in: the reserve, the other outputs and the fee are worth what the inputs are.
/// The fee is that of the transaction before the reserve got its value.
pub proof fn law_closing_balances(checkpoint: CheckpointView)
    requires
        checkpoint.can_advance(),
        checkpoint.closing() is Ok,
    ensures
        checkpoint.advanced().tx() == Ok::<TransactionView, CheckpointError>(
            checkpoint.signing_tx(),
        ),
        checkpoint.advanced().fee() == checkpoint.closed().fee(),
        checkpoint.advanced().in_amount() == checkpoint.advanced().out_amount()
            + checkpoint.advanced().fee(),
        checkpoint.advanced().outputs[0].value == checkpoint.reserve_value(),
{
    let closed = checkpoint.closed();
    let advanced = checkpoint.advanced();
    assert(closed.outputs[0] == checkpoint.reserve_output(0));
    lemma_amounts_same(advanced.inputs, closed.inputs);
    lemma_advanced_tx(checkpoint);
    lemma_value_update(closed.outputs, 0, checkpoint.reserve_output(checkpoint.reserve_value() as u64));
    lemma_out_amount_nonneg(closed.outputs);
    lemma_fee_nonneg(closed);
    assert(0 <= checkpoint.reserve_value() <= closed.in_amount());
}

/// The transaction of a closed checkpoint is the one that is signed, and costs what it
/// did before the reserve got its value.
proof fn lemma_advanced_tx(checkpoint: CheckpointView)
    requires
        checkpoint.closing() is Ok,
    ensures
        checkpoint.advanced().tx() == Ok::<TransactionView, CheckpointError>(
            checkpoint.signing_tx(),
        ),
        checkpoint.advanced().fee() == checkpoint.closed().fee(),
{
    let closed = checkpoint.closed();
    let advanced = checkpoint.advanced();
    let tx = closed.tx()->Ok_0;
    let signing = checkpoint.signing_tx();
    assert forall|i: int| 0 <= i < advanced.inputs.len() implies (
    #[trigger] advanced.inputs[i]).txin() == closed.inputs[i].txin() by {
        assert(closed.inputs[i].txin() is Ok);
        assert(advanced.inputs[i].sigs.shares == closed.inputs[i].sigs.shares);
        assert(advanced.inputs[i].sigs.done() == closed.inputs[i].sigs.done());
        assert(advanced.inputs[i].sigs.witness() == closed.inputs[i].sigs.witness());
    }
    assert forall|i: int| 0 <= i < advanced.inputs.len() implies (
    #[trigger] advanced.inputs[i]).txin() is Ok by {
        assert(closed.inputs[i].txin() is Ok);
    }
    assert(advanced.tx()->Ok_0 =~= signing);
    assert(closed.outputs[0] == checkpoint.reserve_output(0));
    let size = |o: TxOutView| o.bytes();
    assert forall|i: int| 0 <= i < signing.output.len() implies #[trigger] size(signing.output[i])
        == size(tx.output[i]) by {}
    lemma_sum_same(signing.output, tx.output, size, size);
    lemma_sum_same(advanced.inputs, closed.inputs, witness_vsize_of(), witness_vsize_of());
}

/// Outputs are never worth less than nothing.
proof fn lemma_out_amount_nonneg(outputs: Seq<TxOutView>)
    ensures
        0 <= sum_by(outputs, value_of()),
    decreases outputs.len(),
{
    if outputs.len() > 0 {
        lemma_out_amount_nonneg(outputs.drop_last());
    }
}

/// A transaction never pays less than nothing for its size.
proof fn lemma_fee_nonneg(checkpoint: CheckpointView)
    ensures
        0 <= checkpoint.fee(),
{
    let tx = checkpoint.tx()->Ok_0;
    lemma_nonneg(checkpoint.inputs, witness_vsize_of());
    lemma_nonneg(tx.input, |i: TxInView| i.base_bytes());
    lemma_nonneg(tx.output, |o: TxOutView| o.bytes());
    let witness_bytes = |i: TxInView| i.witness_bytes();
    assert forall|i: int| 0 <= i < tx.input.len() implies 0 <= #[trigger] witness_bytes(tx.input[i]) by {
        lemma_nonneg(tx.input[i].witness, |item: Seq<u8>| string_bytes(item));
    }
    lemma_nonneg(tx.input, witness_bytes);
}

/// A sum of what does not count below zero.
proof fn lemma_nonneg<T>(s: Seq<T>, f: spec_fn(T) -> int)
    requires
        forall|i: int| 0 <= i < s.len() ==> 0 <= #[trigger] f(s[i]),
    ensures
        0 <= sum_by(s, f),
{
    lemma_sum_prefix(s, 0, f);
    lemma_sum_prefix(s, s.len() as int, f);
}

/// Inputs with the same amounts sum to the same.
proof fn lemma_amounts_same(s: Seq<InputView>, t: Seq<InputView>)
    requires
        s.len() == t.len(),
        forall|i: int| 0 <= i < s.len() ==> (#[trigger] s[i]).amount == t[i].amount,
    ensures
        sum_by(s, amount_of()) == sum_by(t, amount_of()),
{
    assert forall|i: int| 0 <= i < s.len() implies #[trigger] amount_of()(s[i]) == amount_of()(t[i]) by {
        assert(s[i].amount == t[i].amount);
    }
    lemma_sum_same(s, t, amount_of(), amount_of());
}

/// The value of the outputs where one is replaced.
proof fn lemma_value_update(s: Seq<TxOutView>, i: int, output: TxOutView)
    requires
        0 <= i < s.len(),
    ensures
        sum_by(s.update(i, output), value_of()) == sum_by(s, value_of()) - s[i].value + output.value,
    decreases s.len(),
{
    let t = s.update(i, output);
    if i == s.len() - 1 {
        assert(t.drop_last() =~= s.drop_last());
    } else {
        assert(t.drop_last() =~= s.drop_last().update(i, output));
        lemma_value_update(s.drop_last(), i, output);
    }
}

/// The next checkpoint takes over the reserve, with an input that nobody has signed.
pub proof fn law_reserve_is_handed_over(checkpoint: CheckpointView, sigset: SignatorySetView)
    requires
        checkpoint.can_advance(),
        checkpoint.closing() is Ok,
        checkpoint.sigset.reserve_scripts() is Ok,
    ensures
        checkpoint.successor(sigset).takes_over(checkpoint.advanced()),
        checkpoint.successor(sigset).inputs[0].untouched(),
{
    law_closing_balances(checkpoint);
    lemma_signing_tx(checkpoint);
}

/// The transaction that is to be signed is that of the closed checkpoint.
proof fn lemma_signing_tx(checkpoint: CheckpointView)
    requires
        checkpoint.closed().tx() is Ok,
    ensures
        checkpoint.signing_tx().stripped() == checkpoint.advanced().unsigned_tx(),
{
    let tx = checkpoint.signing_tx().stripped();
    let closed = checkpoint.closed();
    assert forall|i: int| 0 <= i < tx.input.len() implies tx.input[i]
        == checkpoint.advanced().unsigned_tx().input[i] by {
        assert(closed.inputs[i].txin() is Ok);
    }
    assert(tx =~= checkpoint.advanced().unsigned_tx());
}

/// No coin is lost in a step: what the closed checkpoint held is held by the next one,
/// was paid out, or went to the fee.
pub proof fn law_step_conserves(checkpoint: CheckpointView, sigset: SignatorySetView)
    requires
        checkpoint.can_advance(),
        checkpoint.closing() is Ok,
    ensures
        checkpoint.in_amount() == checkpoint.successor(sigset).in_amount()
            + checkpoint.closed().out_amount() + checkpoint.closed().fee(),
        checkpoint.out_amount() == checkpoint.closed().out_amount() + checkpoint.successor(
            sigset,
        ).out_amount(),
{
    let closed = checkpoint.closed();
    let next = checkpoint.successor(sigset);
    law_closing_loses_nothing(checkpoint);
    law_closing_balances(checkpoint);
    lemma_sum_concat(closed.inputs, checkpoint.excess_inputs().reverse(), amount_of());
    lemma_sum_reverse(checkpoint.excess_inputs(), amount_of());
    lemma_sum_concat(closed.outputs, checkpoint.excess_outputs().reverse(), value_of());
    lemma_sum_reverse(checkpoint.excess_outputs(), value_of());
    let reserve = seq![checkpoint.reserve_input()];
    lemma_sum_concat(reserve, checkpoint.excess_inputs(), amount_of());
    assert(reserve =~= Seq::empty().push(checkpoint.reserve_input()));
    lemma_sum_push(Seq::empty(), checkpoint.reserve_input(), amount_of());
    let zero = seq![checkpoint.reserve_output(0)];
    lemma_sum_concat(zero, checkpoint.outputs, value_of());
    assert(zero =~= Seq::empty().push(checkpoint.reserve_output(0)));
    lemma_sum_push(Seq::empty(), checkpoint.reserve_output(0), value_of());
    lemma_out_amount_nonneg(closed.outputs);
    lemma_fee_nonneg(closed);
}

/// A queue without checkpoints is sound.
pub proof fn law_new_queue_is_sound(index: u32)
    ensures
        (QueueView { queue: Seq::empty(), index }).sound(),
        (QueueView { queue: Seq::empty(), index }).chained(),
{
}

/// Adding an input that nobody has signed to the checkpoint that is being built leaves a
/// sound queue sound, and the reserve where it is.
pub proof fn law_added_input_keeps_sound(
    queue: QueueView,
    prevout: OutPointView,
    sigset: SignatorySetView,
    scripts: ScriptsView,
    dest: Seq<u8>,
    amount: u64,
)
    requires
        queue.wf(),
        queue.sound(),
        queue.queue.len() > 0,
    ensures
        ({
            let input = InputView::unsigned(prevout, sigset, scripts, dest, amount);
            &&& queue.with_input(input).sound()
            &&& queue.chained() ==> queue.with_input(input).chained()
        }),
{
    let input = InputView::unsigned(prevout, sigset, scripts, dest, amount);
    let after = queue.with_input(input);
    let n = queue.queue.len();
    let building = queue.queue[n - 1];
    assert(building.sound());
    assert forall|i: int| 0 <= i < building.inputs.push(input).len() implies (
    #[trigger] building.inputs.push(input)[i]).untouched() by {
        if i < building.inputs.len() {
            assert(building.inputs[i].untouched());
        }
    }
    lemma_last_replaced(queue, after.queue[n - 1]);
}

/// Adding an output to the checkpoint that is being built leaves a sound queue sound, and
/// the reserve where it is.
pub proof fn law_added_output_keeps_sound(queue: QueueView, output: TxOutView)
    requires
        queue.wf(),
        queue.sound(),
        queue.queue.len() > 0,
    ensures
        queue.with_output(output).sound(),
        queue.chained() ==> queue.with_output(output).chained(),
{
    let after = queue.with_output(output);
    let n = queue.queue.len();
    assert(queue.queue[n - 1].sound());
    lemma_last_replaced(queue, after.queue[n - 1]);
}

/// A queue stays sound and chained where the last checkpoint is replaced by one that is
/// being built, is sound, and has the same first input.
proof fn lemma_last_replaced(queue: QueueView, last: CheckpointView)
    requires
        queue.wf(),
        queue.sound(),
        queue.queue.len() > 0,
        last.status == CheckpointStatus::Building,
        last.sound(),
        queue.queue.last().inputs.len() > 0 ==> last.inputs.len() > 0 && last.inputs[0]
            == queue.queue.last().inputs[0],
    ensures
        queue.with(queue.index, last).sound(),
        queue.chained() ==> queue.with(queue.index, last).chained(),
{
    let after = queue.with(queue.index, last);
    let n = queue.queue.len();
    assert forall|i: int| 0 <= i < n - 1 implies #[trigger] after.queue[i] == queue.queue[i] by {}
    if queue.chained() {
        assert forall|i: int| 0 < i < n implies #[trigger] after.linked(i) by {
            assert(queue.linked(i));
        }
    }
}

/// Closing a sound checkpoint, with a script for the reserve, fixes its transaction: it
/// can be built, and what the signatories are asked to sign commits to it.
pub proof fn law_closing_fixes_transaction(checkpoint: CheckpointView)
    requires
        checkpoint.status == CheckpointStatus::Building,
        checkpoint.sound(),
        checkpoint.sigset.reserve_output_script is Ok,
    ensures
        checkpoint.closing() is Ok,
        checkpoint.advanced().status == CheckpointStatus::Signing,
        checkpoint.advanced().sound(),
{
    let closed = checkpoint.closed();
    let advanced = checkpoint.advanced();
    law_closing_loses_nothing(checkpoint);
    assert forall|i: int| 0 <= i < closed.inputs.len() implies (
    #[trigger] closed.inputs[i]).untouched() by {
        assert(checkpoint.inputs[i].untouched());
    }
    assert forall|i: int| 0 <= i < closed.inputs.len() implies (#[trigger] closed.inputs[i]).txin() is Ok by {
        lemma_untouched(closed.inputs[i]);
    }
    lemma_signing_tx(checkpoint);
    assert forall|i: int| 0 <= i < advanced.inputs.len() implies {
        &&& (#[trigger] advanced.inputs[i]).genuine()
        &&& !advanced.inputs[i].sigs.done()
    } by {
        assert(closed.inputs[i].untouched());
        assert(advanced.inputs[i].untouched());
        lemma_untouched(advanced.inputs[i]);
    }
    lemma_all_undone(advanced.inputs);
}

/// A sound checkpoint always has a transaction.
pub proof fn law_sound_has_transaction(checkpoint: CheckpointView)
    requires
        checkpoint.sound(),
    ensures
        checkpoint.tx() is Ok,
{
    assert forall|i: int| 0 <= i < checkpoint.inputs.len() implies (
    #[trigger] checkpoint.inputs[i]).txin() is Ok by {
        let input = checkpoint.inputs[i];
        if checkpoint.status == CheckpointStatus::Building {
            lemma_untouched(input);
        } else {
            assert(input.genuine());
        }
    }
}

/// Whatever signatures are handed in, and whether or not they are taken in, nothing but
/// the signatures and the count of signed inputs changes. The transaction stays the same
/// but for its witnesses, so that its id is known before the first signature is given.
pub proof fn law_signing_keeps_transaction(
    checkpoint: CheckpointView,
    keys: Seq<Option<Seq<u8>>>,
    sigs: Seq<Seq<u8>>,
)
    ensures
        ({
            let after = checkpoint.signed(sign_all(checkpoint.inputs, keys, sigs));
            &&& checkpoint.differs_in_signatures(after)
            &&& after.unsigned_tx() == checkpoint.unsigned_tx()
            &&& checkpoint.tx() is Ok && after.tx() is Ok ==> {
                &&& after.tx()->Ok_0.stripped() == checkpoint.tx()->Ok_0.stripped()
                &&& transaction_id(after.tx()->Ok_0.stripped()) == transaction_id(
                    checkpoint.tx()->Ok_0.stripped(),
                )
            }
        }),
{
    let after = checkpoint.signed(sign_all(checkpoint.inputs, keys, sigs));
    lemma_sign_keeps_inputs(checkpoint.inputs, keys, sigs, checkpoint.inputs.len() as int);
    lemma_same_unsigned_tx(checkpoint, after);
    if checkpoint.tx() is Ok && after.tx() is Ok {
        law_tx_is_unsigned_tx(checkpoint);
        law_tx_is_unsigned_tx(after);
    }
}

/// Checkpoints with the same inputs, but for the signatures, and the same outputs have the
/// same transaction, but for the witnesses.
proof fn lemma_same_unsigned_tx(checkpoint: CheckpointView, after: CheckpointView)
    requires
        checkpoint.differs_in_signatures(after),
    ensures
        after.unsigned_tx() == checkpoint.unsigned_tx(),
{
    assert forall|i: int| 0 <= i < checkpoint.inputs.len() implies after.unsigned_tx().input[i]
        == checkpoint.unsigned_tx().input[i] by {
        assert(after.inputs[i].without_signatures() == checkpoint.inputs[i].without_signatures());
    }
    assert(after.unsigned_tx() =~= checkpoint.unsigned_tx());
}

/// The count of inputs with enough signatures goes along with the signatures.
pub(crate) proof fn lemma_sign_run_counts(
    inputs: Seq<InputView>,
    keys: Seq<Option<Seq<u8>>>,
    sigs: Seq<Seq<u8>>,
    n: int,
)
    requires
        0 <= n <= inputs.len(),
    ensures
        ({
            let run = sign_run(inputs, keys, sigs, n);
            &&& run.inputs.len() == inputs.len()
            &&& run.newly_done == undone_inputs(inputs) - undone_inputs(run.inputs)
        }),
    decreases n,
{
    if n > 0 {
        lemma_sign_run_counts(inputs, keys, sigs, n - 1);
        let before = sign_run(inputs, keys, sigs, n - 1);
        let after = sign_run(inputs, keys, sigs, n);
        if after.inputs != before.inputs {
            lemma_undone_update(before.inputs, n - 1, after.inputs[n - 1]);
        }
    }
}

/// Signatures are taken in only if they are genuine.
proof fn lemma_sign_run_sound(
    inputs: Seq<InputView>,
    keys: Seq<Option<Seq<u8>>>,
    sigs: Seq<Seq<u8>>,
    n: int,
)
    requires
        0 <= n <= inputs.len(),
        forall|i: int| 0 <= i < inputs.len() ==> (#[trigger] inputs[i]).genuine(),
    ensures
        ({
            let run = sign_run(inputs, keys, sigs, n);
            &&& run.inputs.len() == inputs.len()
            &&& forall|i: int| 0 <= i < inputs.len() ==> (#[trigger] run.inputs[i]).genuine()
        }),
    decreases n,
{
    if n > 0 {
        lemma_sign_run_sound(inputs, keys, sigs, n - 1);
        lemma_sign_run(inputs, keys, sigs, n - 1);
        let before = sign_run(inputs, keys, sigs, n - 1);
        let after = sign_run(inputs, keys, sigs, n);
        if before.stop is None && after.stop is None && after.inputs != before.inputs {
            let input = before.inputs[n - 1];
            let key = keys[n - 1]->Some_0;
            let sig = sigs[before.used];
            assert(input.genuine());
            assert(input.sigs.sign(key, sig) == Ok::<ThresholdSigView, CheckpointError>(
                input.sigs.signed_by(key, sig),
            ));
            assert(input.sigs.shares[input.sigs.position(key)].pubkey == key);
            assert(after.inputs[n - 1].genuine());
            assert forall|i: int| 0 <= i < inputs.len() implies (#[trigger] after.inputs[i]).genuine() by {
                assert(before.inputs[i].genuine());
            }
        }
    }
}

/// How many inputs lack signatures, where one input is replaced.
proof fn lemma_undone_update(s: Seq<InputView>, i: int, input: InputView)
    requires
        0 <= i < s.len(),
    ensures
        undone_inputs(s.update(i, input)) == undone_inputs(s) - undone()(s[i]) + undone()(input),
    decreases s.len(),
{
    let t = s.update(i, input);
    if i == s.len() - 1 {
        assert(t.drop_last() =~= s.drop_last());
    } else {
        assert(t.drop_last() =~= s.drop_last().update(i, input));
        lemma_undone_update(s.drop_last(), i, input);
    }
}

/// A checkpoint whose transaction is fixed stays so, whatever signatures are handed in.
pub proof fn law_signing_keeps_fixed(
    checkpoint: CheckpointView,
    keys: Seq<Option<Seq<u8>>>,
    sigs: Seq<Seq<u8>>,
)
    requires
        checkpoint.fixed(),
    ensures
        checkpoint.signed(sign_all(checkpoint.inputs, keys, sigs)).fixed(),
{
    let n = checkpoint.inputs.len() as int;
    let after = checkpoint.signed(sign_all(checkpoint.inputs, keys, sigs));
    lemma_sign_keeps_inputs(checkpoint.inputs, keys, sigs, n);
    lemma_sign_run_sound(checkpoint.inputs, keys, sigs, n);
    law_signing_keeps_transaction(checkpoint, keys, sigs);
    law_signing_keeps_count(checkpoint, keys, sigs);
    assert forall|i: int| 0 <= i < after.inputs.len() implies (
    #[trigger] after.inputs[i]).sigs.message == segwit_hash(
        after.unsigned_tx(),
        i,
        after.inputs[i].redeem_script,
        after.inputs[i].amount,
    ) by {
        let kept = checkpoint.inputs[i];
        assert(after.inputs[i].without_signatures() == kept.without_signatures());
        assert(after.inputs[i].without_signatures().sigs.message == kept.without_signatures().sigs.message);
    }
}

/// Signatures keep the count of signed inputs: it goes up by the inputs that they
/// complete, and so never exceeds the inputs. It stays right where it fits, as it does
/// where there are no more inputs than it can count.
pub proof fn law_signing_keeps_count(
    checkpoint: CheckpointView,
    keys: Seq<Option<Seq<u8>>>,
    sigs: Seq<Seq<u8>>,
)
    requires
        checkpoint.counted(),
    ensures
        ({
            let run = sign_all(checkpoint.inputs, keys, sigs);
            let count = checkpoint.signed_inputs + run.newly_done;
            &&& count == run.inputs.len() - undone_inputs(run.inputs)
            &&& count <= checkpoint.inputs.len()
            &&& count <= u16::MAX ==> checkpoint.signed(run).counted()
        }),
{
    let n = checkpoint.inputs.len() as int;
    lemma_sign_run_counts(checkpoint.inputs, keys, sigs, n);
    lemma_none_undone(checkpoint.inputs);
    lemma_none_undone(sign_all(checkpoint.inputs, keys, sigs).inputs);
}

/// A step keeps the order of the checkpoints.
pub proof fn law_step_keeps_order(
    queue: QueueView,
    now: Option<u64>,
    sigset: Result<SignatorySetView, CheckpointError>,
)
    requires
        queue.wf(),
        queue.ordered(),
    ensures
        queue.step(now, sigset).0.ordered(),
{
    if queue.starts(now, sigset) is Some && queue.queue.len() > 0 {
        let n = queue.queue.len();
        let after = queue.step(now, sigset).0;
        if n >= 2 {
            assert(queue.at((queue.index - 1) as u32) == queue.queue[n - 2]);
        }
        assert forall|i: int| 0 <= i < after.queue.len() - 2 implies (
        #[trigger] after.queue[i]).status == CheckpointStatus::Complete by {
            assert(after.queue[i] == queue.queue[i]);
        }
    }
}

/// A step leaves a sound queue sound, where there is a script for the reserve of the
/// checkpoint that it closes.
pub proof fn law_step_keeps_sound(
    queue: QueueView,
    now: Option<u64>,
    sigset: Result<SignatorySetView, CheckpointError>,
)
    requires
        queue.wf(),
        queue.sound(),
        queue.starts(now, sigset) is Some && queue.queue.len() > 0
            ==> queue.building().sigset.reserve_output_script is Ok,
    ensures
        queue.step(now, sigset).0.sound(),
{
    if queue.starts(now, sigset) is Some && queue.queue.len() > 0 {
        let building = queue.building();
        let set = queue.starts(now, sigset)->Some_0;
        let n = queue.queue.len();
        assert(queue.queue[n - 1].sound());
        law_closing_fixes_transaction(building);
        let next = building.successor(set);
        assert forall|i: int| 0 <= i < next.inputs.len() implies (
        #[trigger] next.inputs[i]).untouched() by {
            if i > 0 {
                law_closing_loses_nothing(building);
                let excess = building.excess_inputs();
                assert(next.inputs[i] == excess[i - 1]);
                let k = building.inputs.len() - i;
                assert(excess[i - 1] == building.inputs[k]);
                assert(building.inputs[k].untouched());
            }
        }
        let after = queue.step(now, sigset).0;
        law_step_keeps_order(queue, now, sigset);
        assert forall|i: int| 0 <= i < after.queue.len() implies (#[trigger] after.queue[i]).sound() by {
            if i < n - 1 {
                assert(after.queue[i] == queue.queue[i]);
            }
        }
    }
}

/// A step changes no checkpoint but the last one, and while a checkpoint is being
/// signed it changes nothing.
pub proof fn law_step_keeps_earlier(
    queue: QueueView,
    now: Option<u64>,
    sigset: Result<SignatorySetView, CheckpointError>,
)
    ensures
        forall|i: int|
            0 <= i < queue.queue.len() - 1 ==> #[trigger] queue.step(now, sigset).0.queue[i]
                == queue.queue[i],
        queue.has_signing() ==> queue.step(now, sigset) == (queue, Ok::<(), CheckpointError>(())),
{
}

/// A step keeps the chain, where there are scripts for the reserve of the checkpoint that
/// it closes: that reserve is what the new one starts with.
pub proof fn law_step_keeps_chain(
    queue: QueueView,
    now: Option<u64>,
    sigset: Result<SignatorySetView, CheckpointError>,
)
    requires
        queue.wf(),
        queue.sound(),
        queue.chained(),
        queue.can_step(now, sigset),
        queue.starts(now, sigset) is Some && queue.queue.len() > 0
            ==> queue.building().sigset.reserve_scripts() is Ok,
    ensures
        queue.step(now, sigset).0.chained(),
{
    if queue.starts(now, sigset) is Some && queue.queue.len() > 0 {
        let building = queue.building();
        let n = queue.queue.len();
        assert(queue.queue[n - 1].sound());
        law_closing_fixes_transaction(building);
        law_reserve_is_handed_over(building, queue.starts(now, sigset)->Some_0);
        let after = queue.step(now, sigset).0;
        assert forall|i: int| 0 < i < after.queue.len() implies #[trigger] after.linked(i) by {
            if i < n {
                assert(queue.linked(i));
                assert(after.queue[i - 1] == queue.queue[i - 1]);
            }
        }
    }
}

/// Checkpoints keep their index: where each signatory set was made for the index of its
/// checkpoint, it stays so.
pub proof fn law_step_keeps_indices(
    queue: QueueView,
    now: Option<u64>,
    sigset: Result<SignatorySetView, CheckpointError>,
)
    requires
        queue.wf(),
        queue.can_step(now, sigset),
        queue.indexed(),
        sigset matches Ok(s) ==> s.index == queue.next_index(),
    ensures
        queue.step(now, sigset).0.wf(),
        queue.step(now, sigset).0.indexed(),
        queue.queue.len() > 0 ==> queue.step(now, sigset).0.start() == queue.start(),
{
    let after = queue.step(now, sigset).0;
    assert forall|i: int| 0 <= i < after.queue.len() implies (
    #[trigger] after.queue[i]).sigset.index == after.start() + i by {
        if i < queue.queue.len() {
            assert(queue.queue[i].sigset.index == queue.start() + i);
        }
    }
}

/// Signatures keep the order of the checkpoints.
pub proof fn law_sign_keeps_order(queue: QueueView, xpub: Xpub, sigs: Seq<Seq<u8>>)
    requires
        queue.wf(),
        queue.ordered(),
    ensures
        queue.sign(xpub@, sigs).0.ordered(),
{
    if queue.has_signing() {
        let n = queue.queue.len();
        let after = queue.sign(xpub@, sigs).0;
        assert forall|i: int| 0 <= i < n - 2 implies (#[trigger] after.queue[i]).status
            == CheckpointStatus::Complete by {
            assert(after.queue[i] == queue.queue[i]);
        }
    }
}

/// Signatures leave a sound queue sound: a checkpoint is complete only when every input
/// has enough signatures.
pub proof fn law_sign_keeps_sound(queue: QueueView, xpub: Xpub, sigs: Seq<Seq<u8>>)
    requires
        queue.wf(),
        queue.sound(),
    ensures
        queue.sign(xpub@, sigs).0.sound(),
{
    if queue.has_signing() {
        let n = queue.queue.len();
        let before = queue.signing();
        assert(before == queue.queue[n - 2]);
        let keys = input_keys(xpub@, before.inputs);
        let signed = before.signed(sign_all(before.inputs, keys, sigs));
        law_signing_keeps_fixed(before, keys, sigs);
        law_done_means_signed(signed);
        let after = queue.sign(xpub@, sigs).0;
        law_sign_keeps_order(queue, xpub, sigs);
        assert forall|i: int| 0 <= i < n implies (#[trigger] after.queue[i]).sound() by {
            if i != n - 2 {
                assert(after.queue[i] == queue.queue[i]);
            }
        }
    }
}

/// Signatures change no checkpoint but the one that is being signed, so that a complete
/// checkpoint stays as it is. Of that one they change nothing but the signatures, the count
/// and, once it is complete, the status, so that no transaction gets another id.
pub proof fn law_sign_keeps_others(queue: QueueView, xpub: Xpub, sigs: Seq<Seq<u8>>)
    requires
        queue.wf(),
    ensures
        ({
            let after = queue.sign(xpub@, sigs).0;
            &&& after.index == queue.index
            &&& after.queue.len() == queue.queue.len()
            &&& forall|i: int|
                0 <= i < queue.queue.len() && ((#[trigger] queue.queue[i]).status
                    == CheckpointStatus::Complete || i != queue.queue.len() - 2) ==> after.queue[i]
                    == queue.queue[i]
            &&& forall|i: int|
                0 <= i < queue.queue.len() ==> {
                    let before = #[trigger] queue.queue[i];
                    let signed = after.queue[i];
                    &&& before.differs_in_signatures(
                        CheckpointView { status: before.status, ..signed },
                    )
                    &&& signed.status == before.status || signed.status == CheckpointStatus::Complete
                    &&& signed.unsigned_tx() == before.unsigned_tx()
                }
        }),
{
    if queue.queue.len() >= 2 {
        assert(queue.signing() == queue.queue[queue.queue.len() - 2]);
    }
    let after = queue.sign(xpub@, sigs).0;
    assert forall|i: int| 0 <= i < queue.queue.len() implies {
        let before = #[trigger] queue.queue[i];
        let signed = after.queue[i];
        &&& before.differs_in_signatures(CheckpointView { status: before.status, ..signed })
        &&& signed.status == before.status || signed.status == CheckpointStatus::Complete
        &&& signed.unsigned_tx() == before.unsigned_tx()
    } by {
        let before = queue.queue[i];
        let signed = CheckpointView { status: before.status, ..after.queue[i] };
        if queue.has_signing() && i == queue.queue.len() - 2 {
            law_signing_keeps_transaction(before, input_keys(xpub@, before.inputs), sigs);
        }
        lemma_same_unsigned_tx(before, signed);
        assert(after.queue[i].unsigned_tx() =~= signed.unsigned_tx());
    }
}

/// Signatures keep the chain: no transaction gets another id or other outputs.
pub proof fn law_sign_keeps_chain(queue: QueueView, xpub: Xpub, sigs: Seq<Seq<u8>>)
    requires
        queue.wf(),
        queue.chained(),
    ensures
        queue.sign(xpub@, sigs).0.chained(),
{
    if queue.has_signing() {
        let n = queue.queue.len();
        let before = queue.signing();
        assert(before == queue.queue[n - 2]);
        let keys = input_keys(xpub@, before.inputs);
        law_signing_keeps_transaction(before, keys, sigs);
        lemma_sign_keeps_inputs(before.inputs, keys, sigs, before.inputs.len() as int);
        let after = queue.sign(xpub@, sigs).0;
        let signed = after.queue[n - 2];
        assert(signed.unsigned_tx() =~= before.unsigned_tx());
        assert forall|i: int| 0 < i < after.queue.len() implies #[trigger] after.linked(i) by {
            assert(queue.linked(i));
            if i == n - 2 {
                assert(signed.inputs[0].without_signatures() == before.inputs[0].without_signatures());
            }
        }
    }
}

/// The transaction of a complete checkpoint is signed throughout: the witness of each
/// input ends in the script that it spends, behind signatures that are genuine and have
/// more power behind them than the threshold.
pub proof fn law_complete_is_signed(checkpoint: CheckpointView, i: int)
    requires
        checkpoint.status == CheckpointStatus::Complete,
        checkpoint.sound(),
        0 <= i < checkpoint.inputs.len(),
    ensures
        ({
            let input = checkpoint.inputs[i];
            let witness = checkpoint.tx()->Ok_0.input[i].witness;
            &&& checkpoint.tx() is Ok
            &&& witness == input.sigs.witness()->Ok_0.push(input.redeem_script)
            &&& input.sigs.signed_power() > input.sigs.threshold
            &&& input.genuine()
            &&& input.sigs.message == segwit_hash(
                checkpoint.tx()->Ok_0.stripped(),
                i,
                input.redeem_script,
                input.amount,
            )
        }),
{
    law_sound_has_transaction(checkpoint);
    law_tx_is_unsigned_tx(checkpoint);
    assert(checkpoint.inputs[i].txin() is Ok);
    assert(checkpoint.inputs[i].sigs.done());
}

/// A signatory who signs exactly what it is asked to is heard: where it has signed none
/// of its inputs yet, one genuine signature for each listed message, in the order of the
/// list, is taken in. Afterwards it is asked for no input that it was needed for.
pub proof fn law_what_is_asked_can_be_signed(
    inputs: Seq<InputView>,
    keys: Seq<Option<Seq<u8>>>,
    sigs: Seq<Seq<u8>>,
)
    requires
        keys.len() == inputs.len(),
        forall|i: int| 0 <= i < inputs.len() ==> (#[trigger] inputs[i]).sigs.wf(),
        forall|i: int| 0 <= i < inputs.len() ==> (#[trigger] keys[i]) is Some,
        forall|i: int|
            0 <= i < inputs.len() && (#[trigger] inputs[i]).sigs.has_key(keys[i]->Some_0)
                ==> inputs[i].sigs.needs_sig(keys[i]->Some_0),
        sigs.len() == messages(inputs, keys, inputs.len() as int).len(),
        forall|i: int|
            0 <= i < inputs.len() && (#[trigger] inputs[i]).sigs.has_key(keys[i]->Some_0)
                ==> inputs[i].sigs.accepts(
                keys[i]->Some_0,
                sigs[messages(inputs, keys, i).len() as int],
            ),
    ensures
        ({
            let run = sign_all(inputs, keys, sigs);
            &&& run.stop is None
            &&& run.result(sigs) == Ok::<(), CheckpointError>(())
            &&& forall|i: int|
                0 <= i < inputs.len() && !(#[trigger] inputs[i]).sigs.done()
                    ==> !run.inputs[i].sigs.needs_sig(keys[i]->Some_0)
        }),
{
    lemma_asked_and_signed(inputs, keys, sigs, inputs.len() as int);
}

/// The list of messages only gets longer with more inputs.
proof fn lemma_messages_grow(inputs: Seq<InputView>, keys: Seq<Option<Seq<u8>>>, n: int, m: int)
    requires
        0 <= n <= m,
    ensures
        messages(inputs, keys, n).len() <= messages(inputs, keys, m).len(),
    decreases m - n,
{
    if n < m {
        lemma_messages_grow(inputs, keys, n, m - 1);
    }
}

/// A key that has signed is not needed any more.
proof fn lemma_signed_not_needed(sigs: ThresholdSigView, key: Seq<u8>, sig: Seq<u8>)
    requires
        sigs.wf(),
        sigs.needs_sig(key),
    ensures
        !sigs.signed_by(key, sig).needs_sig(key),
{
    let after = sigs.signed_by(key, sig);
    let i = sigs.position(key);
    lemma_signed_by(sigs, key, sig);
    assert(after.shares[i].pubkey == key);
    lemma_position(after, i);
}

/// The signatures for the first `n` inputs are taken in.
proof fn lemma_asked_and_signed(
    inputs: Seq<InputView>,
    keys: Seq<Option<Seq<u8>>>,
    sigs: Seq<Seq<u8>>,
    n: int,
)
    requires
        0 <= n <= inputs.len(),
        keys.len() == inputs.len(),
        forall|i: int| 0 <= i < inputs.len() ==> (#[trigger] inputs[i]).sigs.wf(),
        forall|i: int| 0 <= i < inputs.len() ==> (#[trigger] keys[i]) is Some,
        forall|i: int|
            0 <= i < inputs.len() && (#[trigger] inputs[i]).sigs.has_key(keys[i]->Some_0)
                ==> inputs[i].sigs.needs_sig(keys[i]->Some_0),
        sigs.len() == messages(inputs, keys, inputs.len() as int).len(),
        forall|i: int|
            0 <= i < inputs.len() && (#[trigger] inputs[i]).sigs.has_key(keys[i]->Some_0)
                ==> inputs[i].sigs.accepts(
                keys[i]->Some_0,
                sigs[messages(inputs, keys, i).len() as int],
            ),
    ensures
        ({
            let run = sign_run(inputs, keys, sigs, n);
            &&& run.stop is None
            &&& run.used == messages(inputs, keys, n).len()
            &&& forall|i: int|
                0 <= i < n && !(#[trigger] inputs[i]).sigs.done() ==> !run.inputs[i].sigs.needs_sig(
                    keys[i]->Some_0,
                )
        }),
    decreases n,
{
    if n > 0 {
        lemma_asked_and_signed(inputs, keys, sigs, n - 1);
        lemma_sign_run(inputs, keys, sigs, n - 1);
        lemma_messages_grow(inputs, keys, n, inputs.len() as int);
        let input = inputs[n - 1];
        assert(keys[n - 1] is Some);
        let key = keys[n - 1]->Some_0;
        let before = sign_run(inputs, keys, sigs, n - 1);
        let after = sign_run(inputs, keys, sigs, n);
        assert(before.inputs[n - 1] == input);
        if input.sigs.has_key(key) && !input.sigs.done() {
            lemma_signed_not_needed(input.sigs, key, sigs[before.used]);
        }
        assert forall|i: int| 0 <= i < n && !(#[trigger] inputs[i]).sigs.done() implies !after.inputs[i].sigs.needs_sig(
            keys[i]->Some_0,
        ) by {
            if i < n - 1 {
                assert(!before.inputs[i].sigs.needs_sig(keys[i]->Some_0));
                assert(after.inputs[i] == before.inputs[i]);
            }
        }
    }
}

/// In a queue in order, the last completed transaction is that of the last checkpoint
/// that is complete. Where none is, there is none yet, or none is held any more.
pub proof fn law_last_completed_is_last(queue: QueueView)
    requires
        queue.wf(),
        queue.ordered(),
    ensures
        queue.completed() > 0 ==> queue.last_completed_tx() == queue.queue[queue.completed()
            - 1].tx(),
        queue.completed() > 0 && queue.completed_txs() is Ok ==> queue.last_completed_tx() == Ok::<
            TransactionView,
            CheckpointError,
        >(queue.completed_txs()->Ok_0.last()),
        queue.completed() == 0 ==> queue.last_completed_tx() == Err::<
            TransactionView,
            CheckpointError,
        >(
            if queue.start() == 0 || queue.index == 0 {
                CheckpointError::NoCompletedCheckpoints
            } else {
                CheckpointError::IndexOutOfBounds
            },
        ),
{
    let n = queue.queue.len();
    if n > 0 {
        let done: int = if queue.has_signing() {
            n - 2
        } else {
            n - 1
        };
        if n >= 2 {
            assert(queue.at((queue.index - 1) as u32) == queue.queue[n - 2]);
        }
        assert forall|i: int| 0 <= i < done implies (#[trigger] queue.queue[i]).status
            == CheckpointStatus::Complete by {
            if i == n - 2 {
                assert(queue.queue[n - 2].status != CheckpointStatus::Building);
            }
        }
        lemma_completed(queue, done);
        if done > 0 {
            assert(queue.completed_txs() is Ok ==> queue.queue[done - 1].tx() is Ok);
        }
    }
}

/// In a sound queue the completed transactions can be read.
pub proof fn law_completed_can_be_read(queue: QueueView)
    requires
        queue.sound(),
    ensures
        queue.completed_txs() is Ok,
{
    lemma_completed_bound(queue, 0);
    assert forall|i: int| 0 <= i < queue.completed() implies (#[trigger] queue.queue[i]).tx() is Ok by {
        law_sound_has_transaction(queue.queue[i]);
    }
}

/// How many of the first `n` inputs a signatory has a share in, given its key for each.
pub open spec fn held_inputs(inputs: Seq<InputView>, keys: Seq<Option<Seq<u8>>>, n: int) -> int
    decreases n,
{
    if n <= 0 {
        0
    } else if inputs[n - 1].sigs.has_key(keys[n - 1]->Some_0) {
        held_inputs(inputs, keys, n - 1) + 1
    } else {
        held_inputs(inputs, keys, n - 1)
    }
}

/// Whether the input at `i` has become what a signatory's signatures make of it. Where the
/// signatory has a share in it, and it lacked signatures, its signature is the one whose
/// place among all is that of the input among those that the signatory has a share in.
/// Else it is as it was.
pub open spec fn got_its_signature(
    inputs: Seq<InputView>,
    keys: Seq<Option<Seq<u8>>>,
    sigs: Seq<Seq<u8>>,
    after: Seq<InputView>,
    i: int,
) -> bool {
    let input = inputs[i];
    let key = keys[i]->Some_0;
    let rank = held_inputs(inputs, keys, i);
    &&& keys[i] is Some
    &&& if input.sigs.has_key(key) && !input.sigs.done() {
        &&& 0 <= rank < sigs.len()
        &&& input.sigs.needs_sig(key)
        &&& input.sigs.accepts(key, sigs[rank])
        &&& after[i] == (InputView { sigs: input.sigs.signed_by(key, sigs[rank]), ..input })
    } else {
        after[i] == input
    }
}

/// Where nothing comes in the way of a signatory's signatures, they belong in order to the
/// inputs that the signatory has a share in: each such input that lacked signatures has
/// got its own, and all other inputs are as they were. The signatory is told that all went
/// well exactly if there is one signature for each of these inputs.
pub proof fn law_signatures_go_to_their_inputs(
    inputs: Seq<InputView>,
    keys: Seq<Option<Seq<u8>>>,
    sigs: Seq<Seq<u8>>,
)
    requires
        sign_all(inputs, keys, sigs).stop is None,
    ensures
        ({
            let run = sign_all(inputs, keys, sigs);
            &&& run.result(sigs) is Ok <==> sigs.len() == held_inputs(
                inputs,
                keys,
                inputs.len() as int,
            )
            &&& forall|i: int|
                0 <= i < inputs.len() ==> #[trigger] got_its_signature(
                    inputs,
                    keys,
                    sigs,
                    run.inputs,
                    i,
                )
        }),
{
    lemma_signatures_by_rank(inputs, keys, sigs, inputs.len() as int);
}

/// The signatures for the first `n` inputs went to those that they belong to.
pub(crate) proof fn lemma_signatures_by_rank(
    inputs: Seq<InputView>,
    keys: Seq<Option<Seq<u8>>>,
    sigs: Seq<Seq<u8>>,
    n: int,
)
    requires
        0 <= n <= inputs.len(),
        sign_run(inputs, keys, sigs, n).stop is None,
    ensures
        ({
            let run = sign_run(inputs, keys, sigs, n);
            &&& run.used == held_inputs(inputs, keys, n)
            &&& run.inputs.len() == inputs.len()
            &&& forall|i: int|
                0 <= i < n ==> #[trigger] got_its_signature(inputs, keys, sigs, run.inputs, i)
        }),
    decreases n,
{
    if n > 0 {
        let before = sign_run(inputs, keys, sigs, n - 1);
        lemma_signatures_by_rank(inputs, keys, sigs, n - 1);
        lemma_sign_run(inputs, keys, sigs, n - 1);
        assert(before.inputs[n - 1] == inputs[n - 1]);
        let after = sign_run(inputs, keys, sigs, n);
        assert forall|i: int| 0 <= i < n implies #[trigger] got_its_signature(
            inputs,
            keys,
            sigs,
            after.inputs,
            i,
        ) by {
            if i < n - 1 {
                assert(got_its_signature(inputs, keys, sigs, before.inputs, i));
                assert(after.inputs[i] == before.inputs[i]);
            }
        }
    }
}

} // verus!
