//! What threshold signatures and inputs come to, share by share.
use vstd::prelude::*;

use crate::error::CheckpointError;
use crate::input::InputView;
use crate::outside::{der_encoding, signature_valid};
use crate::signatory::{voting_power, ScriptsView, SignatorySetView, SignatoryView};
use crate::sums::{lemma_sum_push, sum_by};
use crate::threshold_sig::{
    lemma_position,
    lemma_signed_by,
    power_if_signed,
    ShareView,
    ThresholdSigView,
};
use crate::tx::{OutPointView, TransactionView};

verus! {

/// A sum over nothing is zero, and one more element adds what it counts.
pub proof fn law_sums_add_up<T>(s: Seq<T>, x: T, f: spec_fn(T) -> int)
    ensures
        sum_by(Seq::<T>::empty(), f) == 0,
        sum_by(s.push(x), f) == sum_by(s, f) + f(x),
{
    lemma_sum_push(s, x, f);
}

/// A key whose share stands at `i` has a share, and is waited for exactly as long as that
/// share is not signed.
pub proof fn law_key_with_share(sigs: ThresholdSigView, i: int)
    requires
        sigs.wf(),
        0 <= i < sigs.shares.len(),
    ensures
        sigs.has_key(sigs.shares[i].pubkey),
        sigs.needs_sig(sigs.shares[i].pubkey) <==> sigs.shares[i].sig is None,
{
    lemma_position(sigs, i);
}

/// A key without a share is not waited for, and cannot sign.
pub proof fn law_key_without_share(sigs: ThresholdSigView, key: Seq<u8>, sig: Seq<u8>, valid: bool)
    requires
        forall|i: int| 0 <= i < sigs.shares.len() ==> (#[trigger] sigs.shares[i]).pubkey != key,
    ensures
        !sigs.has_key(key),
        !sigs.needs_sig(key),
        sigs.recorded(key, sig, valid) == Err::<ThresholdSigView, CheckpointError>(
            CheckpointError::UnknownSigner,
        ),
        sigs.sign(key, sig) == Err::<ThresholdSigView, CheckpointError>(
            CheckpointError::UnknownSigner,
        ),
{
}

/// A signature is recorded in the share of its key, and nowhere else, if the share has
/// none and the signature is valid.
pub proof fn law_signature_is_recorded(
    sigs: ThresholdSigView,
    i: int,
    sig: Seq<u8>,
    valid: bool,
)
    requires
        sigs.wf(),
        0 <= i < sigs.shares.len(),
    ensures
        sigs.recorded(sigs.shares[i].pubkey, sig, valid) == (if sigs.shares[i].sig is Some {
            Err::<ThresholdSigView, CheckpointError>(CheckpointError::AlreadySigned)
        } else if !valid {
            Err(CheckpointError::InvalidSignature)
        } else {
            Ok(
                ThresholdSigView {
                    threshold: sigs.threshold,
                    message: sigs.message,
                    shares: sigs.shares.update(
                        i,
                        ShareView {
                            pubkey: sigs.shares[i].pubkey,
                            power: sigs.shares[i].power,
                            sig: Some(sig),
                        },
                    ),
                },
            )
        }),
{
    lemma_position(sigs, i);
}

/// A signature is taken in if the key has not signed, and it is one of the message under
/// the key, in a form that a witness can hold.
pub proof fn law_signature_is_checked(sigs: ThresholdSigView, i: int, sig: Seq<u8>)
    requires
        sigs.wf(),
        0 <= i < sigs.shares.len(),
    ensures
        sigs.sign(sigs.shares[i].pubkey, sig) == (if sigs.shares[i].sig is Some {
            Err::<ThresholdSigView, CheckpointError>(CheckpointError::AlreadySigned)
        } else if !signature_valid(sigs.shares[i].pubkey, sigs.message, sig) || der_encoding(
            sig,
        ) is None {
            Err(CheckpointError::InvalidSignature)
        } else {
            Ok(
                ThresholdSigView {
                    threshold: sigs.threshold,
                    message: sigs.message,
                    shares: sigs.shares.update(
                        i,
                        ShareView {
                            pubkey: sigs.shares[i].pubkey,
                            power: sigs.shares[i].power,
                            sig: Some(sig),
                        },
                    ),
                },
            )
        }),
{
    lemma_position(sigs, i);
}

/// The power of the signers is that of the shares with a signature: a share adds its power
/// if it is signed, and nothing if it is not. The signatures are enough exactly if it
/// exceeds the threshold.
pub proof fn law_power_of_signers(sigs: ThresholdSigView, share: ShareView)
    ensures
        (ThresholdSigView { shares: Seq::empty(), ..sigs }).signed_power() == 0,
        (ThresholdSigView { shares: sigs.shares.push(share), ..sigs }).signed_power()
            == sigs.signed_power() + match share.sig {
            Some(_) => share.power as int,
            None => 0,
        },
        sigs.done() <==> sigs.signed_power() > sigs.threshold,
{
    lemma_sum_push(sigs.shares, share, power_if_signed());
}

/// A signature that is recorded adds the power of its share to that of the signers.
pub proof fn law_signature_adds_power(sigs: ThresholdSigView, i: int, sig: Seq<u8>)
    requires
        sigs.wf(),
        0 <= i < sigs.shares.len(),
        sigs.shares[i].sig is None,
    ensures
        sigs.recorded(sigs.shares[i].pubkey, sig, true) matches Ok(after) && {
            &&& after.wf()
            &&& after.signed_power() == sigs.signed_power() + sigs.shares[i].power
        },
{
    lemma_position(sigs, i);
    lemma_signed_by(sigs, sigs.shares[i].pubkey, sig);
}

/// The witness is empty until the power of the signers exceeds the threshold. Then it has
/// one item for each share, in order: its signature, followed by the byte that says what it
/// covers, or nothing. It cannot be built if a signature cannot be encoded.
pub proof fn law_witness_has_an_item_for_each_share(sigs: ThresholdSigView)
    ensures
        sigs.signed_power() <= sigs.threshold ==> sigs.witness() == Ok::<
            Seq<Seq<u8>>,
            CheckpointError,
        >(Seq::empty()),
        sigs.signed_power() > sigs.threshold ==> match sigs.witness() {
            Ok(items) => {
                &&& items.len() == sigs.shares.len()
                &&& forall|i: int|
                    0 <= i < items.len() ==> match sigs.shares[i].sig {
                        Some(sig) => {
                            &&& der_encoding(sig) is Some
                            &&& #[trigger] items[i] == der_encoding(sig)->Some_0.push(1u8)
                        },
                        None => items[i].len() == 0,
                    }
            },
            Err(e) => {
                &&& e == CheckpointError::MalformedSignature
                &&& exists|i: int|
                    0 <= i < sigs.shares.len() && (#[trigger] sigs.shares[i]).sig is Some
                        && der_encoding(sigs.shares[i].sig->Some_0) is None
            },
        },
{
    if sigs.signed_power() > sigs.threshold {
        match sigs.witness() {
            Ok(items) => {
                assert forall|i: int| 0 <= i < items.len() implies match sigs.shares[i].sig {
                    Some(sig) => {
                        &&& der_encoding(sig) is Some
                        &&& #[trigger] items[i] == der_encoding(sig)->Some_0.push(1u8)
                    },
                    None => items[i].len() == 0,
                } by {
                    assert(sigs.shares[i].encodable());
                }
            },
            Err(_) => {
                let i = choose|i: int|
                    0 <= i < sigs.shares.len() && !(#[trigger] sigs.shares[i]).encodable();
                assert(sigs.shares[i].sig is Some);
            },
        }
    }
}

/// The input of the transaction spends what the input stands for. It has no witness until
/// there are enough signatures. Then the witness is that of the signatures, followed by the
/// script that is spent.
pub proof fn law_input_of_transaction(input: InputView)
    ensures
        match input.txin() {
            Ok(txin) => {
                &&& txin.previous_output == input.prevout
                &&& txin.script_sig.len() == 0
                &&& txin.sequence == 0xffff_ffff
                &&& input.sigs.signed_power() <= input.sigs.threshold ==> txin.witness.len() == 0
                &&& input.sigs.signed_power() > input.sigs.threshold ==> {
                    &&& input.sigs.witness() is Ok
                    &&& txin.witness.len() == input.sigs.shares.len() + 1
                    &&& txin.witness.last() == input.redeem_script
                    &&& txin.witness.drop_last() == input.sigs.witness()->Ok_0
                }
            },
            Err(e) => {
                &&& e == CheckpointError::MalformedSignature
                &&& input.sigs.witness() is Err
            },
        },
{
    law_witness_has_an_item_for_each_share(input.sigs);
    if input.txin() is Ok && input.sigs.signed_power() > input.sigs.threshold {
        assert(input.txin()->Ok_0.witness.drop_last() =~= input.sigs.witness()->Ok_0);
    }
}

/// A new threshold signature has a share for each signatory, in order, with its key and its
/// power and without a signature. It has no message yet.
pub proof fn law_new_signatures(sigset: SignatorySetView)
    ensures
        ({
            let sigs = ThresholdSigView::unsigned(sigset);
            &&& sigs.threshold == sigset.signature_threshold
            &&& sigs.message.len() == 32
            &&& forall|i: int| 0 <= i < 32 ==> #[trigger] sigs.message[i] == 0
            &&& sigs.shares.len() == sigset.signatories.len()
            &&& forall|i: int|
                0 <= i < sigs.shares.len() ==> {
                    &&& (#[trigger] sigs.shares[i]).pubkey == sigset.signatories[i].pubkey
                    &&& sigs.shares[i].power == sigset.signatories[i].voting_power
                    &&& sigs.shares[i].sig is None
                }
        }),
{
}

/// A new input is what it is given: its coins, its scripts, its owner, and the set that
/// holds it.
pub proof fn law_new_input(
    prevout: OutPointView,
    sigset: SignatorySetView,
    scripts: ScriptsView,
    dest: Seq<u8>,
    amount: u64,
)
    ensures
        ({
            let input = InputView::unsigned(prevout, sigset, scripts, dest, amount);
            &&& input.prevout == prevout
            &&& input.script_pubkey == scripts.output_script
            &&& input.redeem_script == scripts.redeem_script
            &&& input.sigset_index == sigset.index
            &&& input.dest == dest
            &&& input.amount == amount
            &&& input.est_witness_vsize == sigset.est_witness_vsize
            &&& input.sigs == ThresholdSigView::unsigned(sigset)
        }),
{
}

/// A signatory set is well formed exactly if no key is listed twice and the power of all
/// signatories together fits in 64 bits.
pub proof fn law_well_formed_set(sigset: SignatorySetView)
    ensures
        sigset.wf() <==> {
            &&& forall|i: int, j: int|
                0 <= i < sigset.signatories.len() && 0 <= j < sigset.signatories.len() && i != j ==> (
                #[trigger] sigset.signatories[i]).pubkey != (#[trigger] sigset.signatories[j]).pubkey
            &&& sum_by(sigset.signatories, |s: SignatoryView| s.voting_power as int) <= u64::MAX
        },
{
    assert(voting_power() =~= (|s: SignatoryView| s.voting_power as int));
    if sigset.wf() {
        assert forall|i: int, j: int|
            0 <= i < sigset.signatories.len() && 0 <= j < sigset.signatories.len() && i != j implies (
        #[trigger] sigset.signatories[i]).pubkey != (#[trigger] sigset.signatories[j]).pubkey by {
            if i < j {
                assert(sigset.signatories[i].pubkey != sigset.signatories[j].pubkey);
            } else {
                assert(sigset.signatories[j].pubkey != sigset.signatories[i].pubkey);
            }
        }
    }
}

/// The scripts of the reserve are the two that the set has for it, or the error of the first
/// one that it has not.
pub proof fn law_reserve_scripts(sigset: SignatorySetView)
    ensures
        match sigset.reserve_scripts() {
            Ok(scripts) => {
                &&& sigset.reserve_output_script == Ok::<Seq<u8>, CheckpointError>(
                    scripts.output_script,
                )
                &&& sigset.reserve_redeem_script == Ok::<Seq<u8>, CheckpointError>(
                    scripts.redeem_script,
                )
            },
            Err(e) => {
                ||| sigset.reserve_output_script == Err::<Seq<u8>, CheckpointError>(e)
                ||| sigset.reserve_output_script is Ok && sigset.reserve_redeem_script == Err::<
                    Seq<u8>,
                    CheckpointError,
                >(e)
            },
        },
{
}

/// A set can take over the reserve exactly if there is voting power at all and the
/// signatories have a quorum.
pub proof fn law_usable_set(sigset: SignatorySetView)
    ensures
        sigset.usable() <==> sigset.possible_vp > 0 && sigset.has_quorum,
{
}

/// A transaction without its witnesses is the same transaction with nothing in the witness of
/// each input.
pub proof fn law_stripped_transaction(tx: TransactionView)
    ensures
        ({
            let stripped = tx.stripped();
            &&& stripped.version == tx.version
            &&& stripped.lock_time == tx.lock_time
            &&& stripped.output == tx.output
            &&& stripped.input.len() == tx.input.len()
            &&& forall|i: int|
                0 <= i < tx.input.len() ==> {
                    &&& (#[trigger] stripped.input[i]).previous_output == tx.input[i].previous_output
                    &&& stripped.input[i].script_sig == tx.input[i].script_sig
                    &&& stripped.input[i].sequence == tx.input[i].sequence
                    &&& stripped.input[i].witness.len() == 0
                }
        }),
{
}

} // verus!
