//! The calls into the `bitcoin` crate.
use vstd::prelude::*;

use bitcoin::hashes;
use bitcoin::util::sighash::SighashCache;
use bitcoin::{EcdsaSighashType, Witness};
use bitcoin::{OutPoint as BtcOutPoint, Transaction as BtcTransaction, TxIn as BtcTxIn, TxOut as BtcTxOut};

use crate::keys::{Pubkey, Signature, Xpub};
use crate::tx::{Transaction, TransactionView};

verus! {

/// The error of `bitcoin`'s key derivation, carried and not looked into.
#[verifier::external_type_specification]
#[verifier::external_body]
pub struct ExBip32Error(bitcoin::util::bip32::Error);

/// The error of the curve library that `bitcoin` exports, carried and not looked into.
#[verifier::external_type_specification]
#[verifier::external_body]
pub struct ExSecpError(bitcoin::secp256k1::Error);

/// The error of `bitcoin`'s signature hashes, carried and not looked into.
#[verifier::external_type_specification]
#[verifier::external_body]
pub struct ExSighashError(bitcoin::util::sighash::Error);

/// The key that `derive_child_key` finds for the child `index` of an encoded
/// extended public key, or `None` where there is none.
pub uninterp spec fn child_key(xpub: Seq<u8>, index: u32) -> Option<Seq<u8>>;

/// Whether `verify_signature` accepts a signature of a message under a key.
pub uninterp spec fn signature_valid(pubkey: Seq<u8>, message: Seq<u8>, sig: Seq<u8>) -> bool;

/// The encoding that `der_signature` gives of a compact signature, or `None` where
/// the bytes are no signature.
pub uninterp spec fn der_encoding(sig: Seq<u8>) -> Option<Seq<u8>>;

/// The id of a transaction that has no witnesses.
pub uninterp spec fn transaction_id(tx: TransactionView) -> Seq<u8>;

/// The hash that a signature for one input of a transaction without witnesses
/// commits to: the input's position, its script and its amount count.
pub uninterp spec fn segwit_hash(tx: TransactionView, input: int, script: Seq<u8>, value: u64) -> Seq<
    u8,
>;

/// `ExtendedPubKey::derive_pub` with the one-element path that
/// `ChildNumber::from_normal_idx` makes of `index`, on the key that
/// `ExtendedPubKey::decode` reads. The contract names the compressed key that comes
/// out; an index of 31 bits or fewer is all that a normal child number can hold.
/// The derivation counts the depth up, which a key at the greatest depth does not
/// survive; an index that no child number can hold is refused before that.
#[verifier::external_body]
pub(crate) fn derive_child_key(xpub: &Xpub, index: u32) -> (key: Result<
    [u8; 33],
    bitcoin::util::bip32::Error,
>)
    requires
        xpub.depth() < 255 || index >= 0x8000_0000,
    ensures
        match key {
            Ok(bytes) => child_key(xpub@, index) == Some(bytes@) && index < 0x8000_0000,
            Err(_) => child_key(xpub@, index) == None::<Seq<u8>>,
        },
{
    let xpub = bitcoin::util::bip32::ExtendedPubKey::decode(&xpub.bytes)?;
    let child = bitcoin::util::bip32::ChildNumber::from_normal_idx(index)?;
    let secp = bitcoin::secp256k1::Secp256k1::verification_only();
    Ok(xpub.derive_pub(&secp, &[child])?.public_key.serialize())
}

/// `Secp256k1::verify_ecdsa`, on the values that `PublicKey::from_slice`,
/// `Message::from_slice` and `Signature::from_compact` read. The contract names
/// whether all of them accept. Where they do, the signature was read, so that
/// `der_signature`, which reads it the same way, can encode it.
#[verifier::external_body]
pub(crate) fn verify_signature(pubkey: &Pubkey, message: &[u8; 32], sig: &Signature) -> (verdict: Result<
    (),
    bitcoin::secp256k1::Error,
>)
    ensures
        verdict is Ok <==> signature_valid(pubkey@, message@, sig@),
        verdict is Ok ==> der_encoding(sig@) is Some,
{
    let pubkey = bitcoin::secp256k1::PublicKey::from_slice(&pubkey.bytes)?;
    let message = bitcoin::secp256k1::Message::from_slice(message)?;
    let sig = bitcoin::secp256k1::ecdsa::Signature::from_compact(&sig.bytes)?;
    bitcoin::secp256k1::Secp256k1::verification_only().verify_ecdsa(&message, &sig, &pubkey)
}

/// `Signature::serialize_der`, on the signature that `Signature::from_compact`
/// reads. The contract names the bytes that come out.
#[verifier::external_body]
pub(crate) fn der_signature(sig: &Signature) -> (der: Result<Vec<u8>, bitcoin::secp256k1::Error>)
    ensures
        match der {
            Ok(bytes) => der_encoding(sig@) == Some(bytes@),
            Err(_) => der_encoding(sig@) == None::<Seq<u8>>,
        },
{
    Ok(bitcoin::secp256k1::ecdsa::Signature::from_compact(&sig.bytes)?.serialize_der().to_vec())
}

/// `Transaction::size`: the size of the transaction in bytes, with the witnesses. The
/// contract gives it in full.
#[verifier::external_body]
pub(crate) fn transaction_size(tx: &Transaction) -> (size: usize)
    ensures
        size == tx@.bytes(),
{
    let tx = BtcTransaction {
        version: tx.version,
        lock_time: tx.lock_time,
        input: tx.input.iter().map(|i| BtcTxIn {
            previous_output: BtcOutPoint { txid: hashes::Hash::from_inner(i.previous_output.txid), vout: i.previous_output.vout },
            script_sig: i.script_sig.clone().into(),
            sequence: i.sequence,
            witness: Witness::from_vec(i.witness.clone()),
        }).collect(),
        output: tx.output.iter().map(|o| BtcTxOut { value: o.value, script_pubkey: o.script_pubkey.clone().into() }).collect(),
    };
    tx.size()
}

/// `Transaction::txid`: the id of the transaction, which leaves the witnesses out.
#[verifier::external_body]
pub(crate) fn transaction_hash(tx: &Transaction) -> (id: [u8; 32])
    ensures
        id@ == transaction_id(tx@.stripped()),
{
    let tx = BtcTransaction {
        version: tx.version,
        lock_time: tx.lock_time,
        input: tx.input.iter().map(|i| BtcTxIn {
            previous_output: BtcOutPoint { txid: hashes::Hash::from_inner(i.previous_output.txid), vout: i.previous_output.vout },
            script_sig: i.script_sig.clone().into(),
            sequence: i.sequence,
            witness: Witness::from_vec(i.witness.clone()),
        }).collect(),
        output: tx.output.iter().map(|o| BtcTxOut { value: o.value, script_pubkey: o.script_pubkey.clone().into() }).collect(),
    };
    hashes::Hash::into_inner(tx.txid())
}

/// `SighashCache::segwit_signature_hash` for the signature type that covers all
/// inputs and outputs. It fails only where the transaction has no input at
/// `input`; the witnesses are no part of what is hashed.
#[verifier::external_body]
pub(crate) fn signature_hash(tx: &Transaction, input: usize, script: &Vec<u8>, value: u64) -> (hash: Result<
    [u8; 32],
    bitcoin::util::sighash::Error,
>)
    ensures
        hash is Ok <==> input < tx@.input.len(),
        hash matches Ok(bytes) ==> bytes@ == segwit_hash(tx@.stripped(), input as int, script@, value),
{
    let tx = BtcTransaction {
        version: tx.version,
        lock_time: tx.lock_time,
        input: tx.input.iter().map(|i| BtcTxIn {
            previous_output: BtcOutPoint { txid: hashes::Hash::from_inner(i.previous_output.txid), vout: i.previous_output.vout },
            script_sig: i.script_sig.clone().into(),
            sequence: i.sequence,
            witness: Witness::from_vec(i.witness.clone()),
        }).collect(),
        output: tx.output.iter().map(|o| BtcTxOut { value: o.value, script_pubkey: o.script_pubkey.clone().into() }).collect(),
    };
    let hash = SighashCache::new(&tx).segwit_signature_hash(input, &script.clone().into(), value, EcdsaSighashType::All)?;
    Ok(hashes::Hash::into_inner(hash))
}

} // verus!
