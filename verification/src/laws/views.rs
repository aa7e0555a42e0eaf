//! What the values of the library stand for: each part of a value is a part of its view.
use vstd::prelude::*;

use crate::checkpoint::Checkpoint;
use crate::error::CheckpointError;
use crate::input::{inputs_view, Input};
use crate::keys::{Address, Pubkey, Signature, Xpub};
use crate::queue::transactions_view;
use crate::signatory::{script_view, scripts_view, Scripts, SignatorySet};
use crate::signing::{keys_view, messages_view, sigs_view};
use crate::step::sigset_view;
use crate::threshold_sig::Share;
use crate::tx::{outputs_view, stack_view, OutPoint, Transaction, TxIn, TxOut};

verus! {

/// Keys, signatures and addresses stand for their bytes. The null address is all zeros.
pub proof fn law_bytes_are_seen(pubkey: Pubkey, sig: Signature, xpub: Xpub, address: Address)
    ensures
        pubkey@ == pubkey.bytes@,
        sig@ == sig.bytes@,
        xpub@ == xpub.bytes@,
        xpub.depth() == xpub.bytes@[4],
        address@ == address.bytes@,
        Address::null_bytes().len() == 20,
        forall|i: int| 0 <= i < 20 ==> #[trigger] Address::null_bytes()[i] == 0,
{
}

/// All parts of a transaction are seen.
pub proof fn law_transaction_is_seen(tx: Transaction, i: int, j: int)
    ensures
        tx@.version == tx.version,
        tx@.lock_time == tx.lock_time,
        tx@.input.len() == tx.input@.len(),
        0 <= i < tx.input@.len() ==> tx@.input[i] == tx.input@[i]@,
        tx@.output.len() == tx.output@.len(),
        0 <= j < tx.output@.len() ==> tx@.output[j] == tx.output@[j]@,
{
}

/// All parts of an input of a transaction are seen.
pub proof fn law_txin_is_seen(txin: TxIn, i: int)
    ensures
        txin@.previous_output == txin.previous_output@,
        txin@.script_sig == txin.script_sig@,
        txin@.sequence == txin.sequence,
        txin@.witness.len() == txin.witness@.len(),
        0 <= i < txin.witness@.len() ==> txin@.witness[i] == txin.witness@[i]@,
{
}

/// All parts of an output and of its place are seen.
pub proof fn law_output_is_seen(output: TxOut, outpoint: OutPoint)
    ensures
        output@.value == output.value,
        output@.script_pubkey == output.script_pubkey@,
        outpoint@.txid == outpoint.txid@,
        outpoint@.vout == outpoint.vout,
{
}

/// All parts of an input are seen.
pub proof fn law_input_is_seen(input: Input)
    ensures
        input@.prevout == input.prevout@,
        input@.script_pubkey == input.script_pubkey@,
        input@.redeem_script == input.redeem_script@,
        input@.sigset_index == input.sigset_index,
        input@.dest == input.dest@,
        input@.amount == input.amount,
        input@.est_witness_vsize == input.est_witness_vsize,
        input@.sigs == input.sigs@,
{
}

/// All parts of a checkpoint are seen.
pub proof fn law_checkpoint_is_seen(checkpoint: Checkpoint, i: int, j: int)
    ensures
        checkpoint@.status == checkpoint.status,
        checkpoint@.signed_inputs == checkpoint.signed_inputs,
        checkpoint@.sigset == checkpoint.sigset@,
        checkpoint@.inputs.len() == checkpoint.inputs@.len(),
        0 <= i < checkpoint.inputs@.len() ==> checkpoint@.inputs[i] == checkpoint.inputs@[i]@,
        checkpoint@.outputs.len() == checkpoint.outputs@.len(),
        0 <= j < checkpoint.outputs@.len() ==> checkpoint@.outputs[j] == checkpoint.outputs@[j]@,
{
}

/// All parts of a signatory set are seen.
pub proof fn law_signatory_set_is_seen(sigset: SignatorySet, i: int)
    ensures
        sigset@.index == sigset.index,
        sigset@.create_time == sigset.create_time,
        sigset@.possible_vp == sigset.possible_vp,
        sigset@.has_quorum == sigset.has_quorum,
        sigset@.signature_threshold == sigset.signature_threshold,
        sigset@.est_witness_vsize == sigset.est_witness_vsize,
        sigset@.signatories.len() == sigset.signatories@.len(),
        0 <= i < sigset.signatories@.len() ==> {
            &&& sigset@.signatories[i].voting_power == sigset.signatories@[i].voting_power
            &&& sigset@.signatories[i].pubkey == sigset.signatories@[i].pubkey.bytes@
        },
        sigset@.reserve_output_script == script_view(sigset.reserve_output_script),
        sigset@.reserve_redeem_script == script_view(sigset.reserve_redeem_script),
{
}

/// All parts of a share are seen.
pub proof fn law_share_is_seen(share: Share)
    ensures
        share@.pubkey == share.pubkey.bytes@,
        share@.power == share.power,
        share.sig is None <==> share@.sig is None,
        share.sig matches Some(sig) ==> share@.sig == Some(sig.bytes@),
{
}

/// What came of building scripts or a set is seen, be it the value or the error.
pub proof fn law_results_are_seen(
    script: Result<Vec<u8>, CheckpointError>,
    scripts: Result<Scripts, CheckpointError>,
    sigset: Result<SignatorySet, CheckpointError>,
)
    ensures
        script matches Ok(s) ==> script_view(script) == Ok::<Seq<u8>, CheckpointError>(s@),
        script matches Err(e) ==> script_view(script) == Err::<Seq<u8>, CheckpointError>(e),
        scripts matches Ok(s) ==> {
            &&& scripts_view(scripts) is Ok
            &&& scripts_view(scripts)->Ok_0.output_script == s.output_script@
            &&& scripts_view(scripts)->Ok_0.redeem_script == s.redeem_script@
        },
        scripts matches Err(e) ==> scripts_view(scripts) is Err && scripts_view(scripts)->Err_0 == e,
        sigset matches Ok(s) ==> sigset_view(sigset) is Ok && sigset_view(sigset)->Ok_0 == s@,
        sigset matches Err(e) ==> sigset_view(sigset) is Err && sigset_view(sigset)->Err_0 == e,
{
}

/// Lists are seen element by element, in order.
pub proof fn law_lists_are_seen(
    inputs: Seq<Input>,
    outputs: Seq<TxOut>,
    stack: Seq<Vec<u8>>,
    txs: Seq<Transaction>,
    i: int,
)
    ensures
        inputs_view(inputs).len() == inputs.len(),
        0 <= i < inputs.len() ==> inputs_view(inputs)[i] == inputs[i]@,
        outputs_view(outputs).len() == outputs.len(),
        0 <= i < outputs.len() ==> outputs_view(outputs)[i] == outputs[i]@,
        stack_view(stack).len() == stack.len(),
        0 <= i < stack.len() ==> stack_view(stack)[i] == stack[i]@,
        transactions_view(txs).len() == txs.len(),
        0 <= i < txs.len() ==> transactions_view(txs)[i] == txs[i]@,
{
}

/// The lists that signing works with are seen element by element, in order.
pub proof fn law_signing_lists_are_seen(
    keys: Seq<Option<Pubkey>>,
    sigs: Seq<Signature>,
    messages: Seq<([u8; 32], u32)>,
    i: int,
)
    ensures
        keys_view(keys).len() == keys.len(),
        0 <= i < keys.len() ==> {
            &&& keys[i] is None <==> keys_view(keys)[i] is None
            &&& keys[i] matches Some(key) ==> keys_view(keys)[i] == Some(key.bytes@)
        },
        sigs_view(sigs).len() == sigs.len(),
        0 <= i < sigs.len() ==> sigs_view(sigs)[i] == sigs[i].bytes@,
        messages_view(messages).len() == messages.len(),
        0 <= i < messages.len() ==> {
            &&& messages_view(messages)[i].0 == messages[i].0@
            &&& messages_view(messages)[i].1 == messages[i].1
        },
{
}

} // verus!
