//! What signatories are asked for, and what their signatures come to.
use vstd::prelude::*;

use crate::checkpoint::{CheckpointStatus, CheckpointView};
use crate::error::CheckpointError;
use crate::input::InputView;
use crate::keys::Xpub;
use crate::laws::{
    got_its_signature,
    held_inputs,
    law_done_means_signed,
    law_signing_keeps_count,
    lemma_sign_run_counts,
    lemma_signatures_by_rank,
    undone,
};
use crate::outside::child_key;
use crate::queue::QueueView;
use crate::signing::{
    can_derive,
    derivable,
    input_keys,
    lemma_sign_run,
    messages,
    refused_at_once,
    sign_all,
    sign_run,
    to_sign,
    SignRun,
    SignStop,
};
use crate::sums::sum_by;
use crate::tx::TransactionView;

verus! {

/// The key of a signatory for an input is the child of its extended key for the signatory
/// set that holds the input.
pub proof fn law_keys_are_derived_for_the_set(xpub: Seq<u8>, inputs: Seq<InputView>)
    ensures
        input_keys(xpub, inputs).len() == inputs.len(),
        forall|i: int|
            0 <= i < inputs.len() ==> #[trigger] input_keys(xpub, inputs)[i] == child_key(
                xpub,
                inputs[i].sigset_index,
            ),
{
}

/// How many of the first `n` inputs wait for a signature of their key.
pub open spec fn waiting_inputs(inputs: Seq<InputView>, keys: Seq<Option<Seq<u8>>>, n: int) -> int
    decreases n,
{
    if n <= 0 {
        0
    } else if inputs[n - 1].sigs.needs_sig(keys[n - 1]->Some_0) {
        waiting_inputs(inputs, keys, n - 1) + 1
    } else {
        waiting_inputs(inputs, keys, n - 1)
    }
}

/// A signatory is told what to sign: for each input that waits for a signature of its key,
/// and for no other, the message of that input and the index of the set that holds it, in
/// the order of the inputs. It is told an error exactly if it lacks a key for an input.
pub proof fn law_messages_are_listed(inputs: Seq<InputView>, keys: Seq<Option<Seq<u8>>>)
    ensures
        match to_sign(inputs, keys) {
            Ok(list) => {
                &&& forall|i: int| 0 <= i < inputs.len() ==> (#[trigger] keys[i]) is Some
                &&& list.len() == waiting_inputs(inputs, keys, inputs.len() as int)
                &&& forall|i: int|
                    0 <= i < inputs.len() && (#[trigger] inputs[i]).sigs.needs_sig(keys[i]->Some_0)
                        ==> {
                        let place = waiting_inputs(inputs, keys, i);
                        &&& 0 <= place < list.len()
                        &&& list[place].0 == inputs[i].sigs.message
                        &&& list[place].1 == inputs[i].sigset_index
                    }
            },
            Err(e) => {
                &&& e == CheckpointError::KeyDerivation
                &&& exists|i: int| 0 <= i < inputs.len() && (#[trigger] keys[i]) is None
            },
        },
{
    lemma_messages_are_listed(inputs, keys, inputs.len() as int);
}

/// The messages of the first `n` inputs are listed.
proof fn lemma_messages_are_listed(inputs: Seq<InputView>, keys: Seq<Option<Seq<u8>>>, n: int)
    requires
        0 <= n <= inputs.len(),
    ensures
        ({
            let list = messages(inputs, keys, n);
            &&& list.len() == waiting_inputs(inputs, keys, n)
            &&& forall|i: int|
                0 <= i < n && (#[trigger] inputs[i]).sigs.needs_sig(keys[i]->Some_0) ==> {
                    let place = waiting_inputs(inputs, keys, i);
                    &&& 0 <= place < list.len()
                    &&& list[place].0 == inputs[i].sigs.message
                    &&& list[place].1 == inputs[i].sigset_index
                }
        }),
    decreases n,
{
    if n > 0 {
        lemma_messages_are_listed(inputs, keys, n - 1);
        let before = messages(inputs, keys, n - 1);
        let list = messages(inputs, keys, n);
        assert forall|i: int|
            0 <= i < n && (#[trigger] inputs[i]).sigs.needs_sig(keys[i]->Some_0) implies {
            let place = waiting_inputs(inputs, keys, i);
            &&& 0 <= place < list.len()
            &&& list[place].0 == inputs[i].sigs.message
            &&& list[place].1 == inputs[i].sigset_index
        } by {
            if i < n - 1 {
                let place = waiting_inputs(inputs, keys, i);
                assert(0 <= place < before.len());
                assert(list[place] == before[place]);
            }
        }
    }
}

/// Whether a signatory's signatures stop at the input at `n`, for the reason given. The
/// inputs before it have got their signatures, and it and all behind it are as they were.
pub open spec fn stops_at(
    inputs: Seq<InputView>,
    keys: Seq<Option<Seq<u8>>>,
    sigs: Seq<Seq<u8>>,
    after: Seq<InputView>,
    stop: SignStop,
    n: int,
) -> bool {
    let rank = held_inputs(inputs, keys, n);
    &&& 0 <= n < inputs.len()
    &&& after.len() == inputs.len()
    &&& forall|i: int| 0 <= i < n ==> #[trigger] got_its_signature(inputs, keys, sigs, after, i)
    &&& forall|i: int| n <= i < inputs.len() ==> #[trigger] after[i] == inputs[i]
    &&& match keys[n] {
        None => stop == SignStop::Failed(CheckpointError::KeyDerivation),
        Some(key) => {
            &&& inputs[n].sigs.has_key(key)
            &&& !inputs[n].sigs.done()
            &&& rank > sigs.len() ==> stop == SignStop::Failed(CheckpointError::NotEnoughSignatures)
            &&& rank == sigs.len() ==> stop == SignStop::RanOut
            &&& rank < sigs.len() ==> {
                &&& inputs[n].sigs.sign(key, sigs[rank]) is Err
                &&& stop == SignStop::Failed(inputs[n].sigs.sign(key, sigs[rank])->Err_0)
            }
        },
    }
}

/// Where not all of a signatory's signatures are taken in, they stop at one input. All
/// before it have got their signatures, which they keep, and the rest are as they were.
pub proof fn law_signing_stops_at_an_input(
    inputs: Seq<InputView>,
    keys: Seq<Option<Seq<u8>>>,
    sigs: Seq<Seq<u8>>,
)
    ensures
        sign_all(inputs, keys, sigs).stop matches Some(stop) ==> exists|n: int| #[trigger]
            stops_at(inputs, keys, sigs, sign_all(inputs, keys, sigs).inputs, stop, n),
{
    if sign_all(inputs, keys, sigs).stop is Some {
        lemma_signing_stops(inputs, keys, sigs, inputs.len() as int);
    }
}

/// Within the first `n` inputs there is one that the signatures stop at.
proof fn lemma_signing_stops(
    inputs: Seq<InputView>,
    keys: Seq<Option<Seq<u8>>>,
    sigs: Seq<Seq<u8>>,
    n: int,
)
    requires
        0 <= n <= inputs.len(),
        sign_run(inputs, keys, sigs, n).stop is Some,
    ensures
        exists|m: int| #[trigger]
            stops_at(
                inputs,
                keys,
                sigs,
                sign_run(inputs, keys, sigs, n).inputs,
                sign_run(inputs, keys, sigs, n).stop->Some_0,
                m,
            ),
    decreases n,
{
    let before = sign_run(inputs, keys, sigs, n - 1);
    let run = sign_run(inputs, keys, sigs, n);
    if before.stop is Some {
        lemma_signing_stops(inputs, keys, sigs, n - 1);
    } else {
        lemma_signatures_by_rank(inputs, keys, sigs, n - 1);
        lemma_sign_run(inputs, keys, sigs, n - 1);
        assert(before.inputs[n - 1] == inputs[n - 1]);
        assert(run.inputs == before.inputs);
        assert(stops_at(inputs, keys, sigs, run.inputs, run.stop->Some_0, n - 1));
    }
}

/// A signatory is told the reason why its signatures stopped. Where none did, it is told
/// that all went well if there was one signature for each input that it has a share in, and
/// else that their number was not right.
pub proof fn law_signatory_is_answered(
    inputs: Seq<InputView>,
    keys: Seq<Option<Seq<u8>>>,
    sigs: Seq<Seq<u8>>,
)
    ensures
        ({
            let run = sign_all(inputs, keys, sigs);
            let held = held_inputs(inputs, keys, inputs.len() as int);
            &&& run.stop matches Some(SignStop::Failed(e)) ==> run.result(sigs) == Err::<
                (),
                CheckpointError,
            >(e)
            &&& run.stop is None && sigs.len() == held ==> run.result(sigs) == Ok::<
                (),
                CheckpointError,
            >(())
            &&& run.stop is None && sigs.len() != held ==> run.result(sigs) == Err::<
                (),
                CheckpointError,
            >(CheckpointError::ExcessSignatures)
        }),
{
    if sign_all(inputs, keys, sigs).stop is None {
        lemma_signatures_by_rank(inputs, keys, sigs, inputs.len() as int);
    }
}

/// Taking in signatures changes the inputs and the count of signed ones, and nothing else.
pub proof fn law_signed_checkpoint(checkpoint: CheckpointView, run: SignRun)
    ensures
        ({
            let after = checkpoint.signed(run);
            &&& after.inputs == run.inputs
            &&& after.status == checkpoint.status
            &&& after.outputs == checkpoint.outputs
            &&& after.sigset == checkpoint.sigset
            &&& 0 <= checkpoint.signed_inputs + run.newly_done <= u16::MAX ==> after.signed_inputs
                == checkpoint.signed_inputs + run.newly_done
        }),
{
}

/// Signing is for the checkpoint before the last, and needs it to be at that. The inputs get
/// the signatures, and an error of the signatures is the error of the call. Where they are
/// all taken in, the count says whether the checkpoint is complete.
pub proof fn law_sign_takes_in_signatures(queue: QueueView, xpub: Seq<u8>, sigs: Seq<Seq<u8>>)
    requires
        queue.wf(),
    ensures
        ({
            let n = queue.queue.len();
            let (after, result) = queue.sign(xpub, sigs);
            if n >= 2 && queue.queue[n - 2].status == CheckpointStatus::Signing {
                let before = queue.queue[n - 2];
                let run = sign_all(before.inputs, input_keys(xpub, before.inputs), sigs);
                &&& after.index == queue.index
                &&& after.queue.len() == n
                &&& forall|i: int|
                    0 <= i < n && i != n - 2 ==> #[trigger] after.queue[i] == queue.queue[i]
                &&& after.queue[n - 2].inputs == run.inputs
                &&& after.queue[n - 2].signed_inputs == before.signed(run).signed_inputs
                &&& after.queue[n - 2].outputs == before.outputs
                &&& after.queue[n - 2].sigset == before.sigset
                &&& run.result(sigs) matches Err(e) ==> result == Err::<Option<TransactionView>, CheckpointError>(e)
                &&& run.result(sigs) is Err ==> after.queue[n - 2].status == CheckpointStatus::Signing
                &&& run.result(sigs) is Ok && after.queue[n - 2].signed_inputs
                    != before.inputs.len() ==> {
                    &&& result == Ok::<Option<TransactionView>, CheckpointError>(None)
                    &&& after.queue[n - 2].status == CheckpointStatus::Signing
                }
                &&& run.result(sigs) is Ok && after.queue[n - 2].signed_inputs
                    == before.inputs.len() ==> match after.queue[n - 2].tx() {
                    Ok(tx) => {
                        &&& result == Ok::<Option<TransactionView>, CheckpointError>(Some(tx))
                        &&& after.queue[n - 2].status == CheckpointStatus::Complete
                    },
                    Err(e) => {
                        &&& result == Err::<Option<TransactionView>, CheckpointError>(e)
                        &&& after.queue[n - 2].status == CheckpointStatus::Signing
                    },
                }
            } else {
                &&& after == queue
                &&& result == Err::<Option<TransactionView>, CheckpointError>(CheckpointError::NoCheckpointToSign)
            }
        }),
{
    let n = queue.queue.len();
    if n >= 2 {
        let before = queue.queue[n - 2];
        assert(queue.at((queue.index - 1) as u32) == before);
        if before.status == CheckpointStatus::Signing {
            let keys = input_keys(xpub, before.inputs);
            let run = sign_all(before.inputs, keys, sigs);
            lemma_sign_run(before.inputs, keys, sigs, before.inputs.len() as int);
            lemma_same_tx(before.signed(run), queue.sign(xpub, sigs).0.queue[n - 2]);
        }
    }
}

/// The count of newly signed inputs is that of the inputs that lacked signatures before and
/// do not any more.
pub proof fn law_newly_signed_inputs_are_counted(
    inputs: Seq<InputView>,
    keys: Seq<Option<Seq<u8>>>,
    sigs: Seq<Seq<u8>>,
)
    ensures
        ({
            let run = sign_all(inputs, keys, sigs);
            let lacking = |i: InputView|
                if i.sigs.signed_power() <= i.sigs.threshold {
                    1int
                } else {
                    0
                };
            &&& run.inputs.len() == inputs.len()
            &&& run.newly_done == sum_by(inputs, lacking) - sum_by(run.inputs, lacking)
        }),
{
    let lacking = |i: InputView|
        if i.sigs.signed_power() <= i.sigs.threshold {
            1int
        } else {
            0
        };
    assert(undone() =~= lacking);
    lemma_sign_run_counts(inputs, keys, sigs, inputs.len() as int);
}

/// A checkpoint is complete, and its transaction handed out, as soon as the power of the
/// signers of every input exceeds its threshold, whoever else has not signed. Until then,
/// and where an error came up, it goes on being signed.
pub proof fn law_enough_signatures_complete(queue: QueueView, xpub: Seq<u8>, sigs: Seq<Seq<u8>>)
    requires
        queue.wf(),
        queue.queue.len() >= 2,
        queue.queue[queue.queue.len() - 2].status == CheckpointStatus::Signing,
        queue.queue[queue.queue.len() - 2].counted(),
        queue.queue[queue.queue.len() - 2].inputs.len() <= u16::MAX,
    ensures
        ({
            let (after, result) = queue.sign(xpub, sigs);
            let checkpoint = after.queue[queue.queue.len() - 2];
            let enough = forall|i: int|
                0 <= i < checkpoint.inputs.len() ==> (
                #[trigger] checkpoint.inputs[i]).sigs.signed_power()
                    > checkpoint.inputs[i].sigs.threshold;
            &&& result is Ok && enough ==> {
                &&& checkpoint.status == CheckpointStatus::Complete
                &&& checkpoint.tx() is Ok
                &&& result->Ok_0 == Some(checkpoint.tx()->Ok_0)
            }
            &&& result is Ok && !enough ==> {
                &&& checkpoint.status == CheckpointStatus::Signing
                &&& result->Ok_0 is None
            }
            &&& result is Err ==> {
                &&& checkpoint.status == CheckpointStatus::Signing
                &&& enough && checkpoint.tx() is Ok ==> {
                    let before = queue.queue[queue.queue.len() - 2];
                    sign_all(before.inputs, input_keys(xpub, before.inputs), sigs).result(sigs) is Err
                }
            }
        }),
{
    let n = queue.queue.len();
    let before = queue.queue[n - 2];
    assert(queue.at((queue.index - 1) as u32) == before);
    let keys = input_keys(xpub, before.inputs);
    let run = sign_all(before.inputs, keys, sigs);
    let signed = before.signed(run);
    law_signing_keeps_count(before, keys, sigs);
    lemma_sign_run(before.inputs, keys, sigs, before.inputs.len() as int);
    law_done_means_signed(signed);
    let (after, result) = queue.sign(xpub, sigs);
    let checkpoint = after.queue[n - 2];
    assert forall|i: int| 0 <= i < checkpoint.inputs.len() implies (
    #[trigger] checkpoint.inputs[i]).sigs.done() == (checkpoint.inputs[i].sigs.signed_power()
        > checkpoint.inputs[i].sigs.threshold) by {}
    if forall|i: int|
        0 <= i < checkpoint.inputs.len() ==> (#[trigger] checkpoint.inputs[i]).sigs.signed_power()
            > checkpoint.inputs[i].sigs.threshold {
        assert forall|i: int| 0 <= i < signed.inputs.len() implies (
        #[trigger] signed.inputs[i]).sigs.done() by {
            assert(checkpoint.inputs[i].sigs.signed_power() > checkpoint.inputs[i].sigs.threshold);
        }
    } else {
        assert(!signed.signed_fully()) by {
            let i = choose|i: int|
                0 <= i < checkpoint.inputs.len() && !((
                #[trigger] checkpoint.inputs[i]).sigs.signed_power()
                    > checkpoint.inputs[i].sigs.threshold);
            assert(!signed.inputs[i].sigs.done());
        }
    }
    lemma_same_tx(signed, checkpoint);
}

/// Checkpoints with the same inputs and outputs have the same transaction.
proof fn lemma_same_tx(a: CheckpointView, b: CheckpointView)
    requires
        a.inputs == b.inputs,
        a.outputs == b.outputs,
    ensures
        a.tx() == b.tx(),
{
    if a.tx() is Ok {
        assert forall|i: int| 0 <= i < b.inputs.len() implies (#[trigger] b.inputs[i]).txin() is Ok by {
            assert(a.inputs[i].txin() is Ok);
        }
        assert(a.tx()->Ok_0 =~= b.tx()->Ok_0);
    } else {
        let i = choose|i: int| 0 <= i < a.inputs.len() && (#[trigger] a.inputs[i]).txin() is Err;
        assert(b.inputs[i].txin() is Err);
    }
}

/// Indices of the upper half are those that no key can be derived for. The first input is
/// refused at once if it has one. Else a key at the greatest depth is too deep.
pub proof fn law_indices_that_have_keys(xpub: Xpub, inputs: Seq<InputView>)
    ensures
        derivable(inputs) <==> forall|i: int|
            0 <= i < inputs.len() ==> (#[trigger] inputs[i]).sigset_index < 0x8000_0000,
        inputs.len() == 0 ==> !refused_at_once(inputs) && can_derive(xpub, inputs),
        inputs.len() > 0 ==> {
            &&& refused_at_once(inputs) <==> inputs[0].sigset_index >= 0x8000_0000
            &&& can_derive(xpub, inputs) <==> inputs[0].sigset_index >= 0x8000_0000 || xpub@[4] < 255
        },
{
}

/// Given the keys, signatures fit exactly if they do not stop for want of one and the count
/// of signed inputs fits in 16 bits.
pub proof fn law_signatures_fit(
    checkpoint: CheckpointView,
    keys: Seq<Option<Seq<u8>>>,
    sigs: Seq<Seq<u8>>,
)
    ensures
        checkpoint.signatures_fit(keys, sigs) <==> {
            &&& sign_all(checkpoint.inputs, keys, sigs).stop != Some(SignStop::RanOut)
            &&& checkpoint.signed_inputs + sign_all(checkpoint.inputs, keys, sigs).newly_done
                <= 0xffff
        },
{
}

/// Signatures can be taken in exactly if the first input is refused for its index, or a key
/// can be derived for it, the signatures do not stop for want of one, and the count of
/// signed inputs fits.
pub proof fn law_signatures_have_to_fit(checkpoint: CheckpointView, xpub: Xpub, sigs: Seq<Seq<u8>>)
    ensures
        ({
            let inputs = checkpoint.inputs;
            let run = sign_all(inputs, input_keys(xpub@, inputs), sigs);
            checkpoint.can_sign(xpub, sigs) <==> {
                ||| inputs.len() > 0 && inputs[0].sigset_index >= 0x8000_0000
                ||| {
                    &&& inputs.len() > 0 ==> xpub@[4] < 255
                    &&& run.stop != Some(SignStop::RanOut)
                    &&& checkpoint.signed_inputs + run.newly_done <= u16::MAX
                }
            }
        }),
{
}

/// Whether the signatures of a queue's signatory can be taken in is a matter of the
/// checkpoint that is being signed alone.
pub proof fn law_queue_can_sign(queue: QueueView, xpub: Xpub, sigs: Seq<Seq<u8>>)
    requires
        queue.wf(),
    ensures
        ({
            let n = queue.queue.len();
            if n >= 2 && queue.queue[n - 2].status == CheckpointStatus::Signing {
                queue.can_sign(xpub, sigs) == queue.queue[n - 2].can_sign(xpub, sigs)
            } else {
                queue.can_sign(xpub, sigs)
            }
        }),
{
    let n = queue.queue.len();
    if n >= 2 {
        assert(queue.at((queue.index - 1) as u32) == queue.queue[n - 2]);
    }
}

} // verus!
