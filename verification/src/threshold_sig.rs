//! Signatures that count once the keys behind them hold enough voting power.
use vstd::prelude::*;

use crate::error::CheckpointError;
use crate::keys::{Pubkey, Signature};
use crate::outside::{der_encoding, der_signature, signature_valid, verify_signature};
use crate::signatory::{voting_power, SignatorySet, SignatorySetView};
use crate::sums::{lemma_sum_same, sum_by};
use crate::tx::stack_view;

verus! {

/// The byte behind each signature of a witness: it covers all inputs and outputs.
pub const SIGHASH_ALL: u8 = 1;

/// A key's share in a threshold signature.
#[derive(Debug, Clone, Copy)]
pub struct Share {
    pub pubkey: Pubkey,
    pub power: u64,
    pub sig: Option<Signature>,
}

/// A message, the keys that may sign it, and the signatures given so far.
#[derive(Debug)]
pub struct ThresholdSig {
    threshold: u64,
    signed: u64,
    message: [u8; 32],
    shares: Vec<Share>,
}

/// What a `Share` stands for.
#[verifier::ext_equal]
pub struct ShareView {
    pub pubkey: Seq<u8>,
    pub power: u64,
    pub sig: Option<Seq<u8>>,
}

/// What a `ThresholdSig` stands for.
#[verifier::ext_equal]
pub struct ThresholdSigView {
    pub threshold: u64,
    pub message: Seq<u8>,
    pub shares: Seq<ShareView>,
}

impl View for Share {
    type V = ShareView;

    open spec fn view(&self) -> ShareView {
        ShareView {
            pubkey: self.pubkey@,
            power: self.power,
            sig: match self.sig {
                Some(sig) => Some(sig@),
                None => None,
            },
        }
    }
}

/// The power of a share.
pub open spec fn power() -> spec_fn(ShareView) -> int {
    |s: ShareView| s.power as int
}

/// The power of a share, if its key has signed.
pub open spec fn power_if_signed() -> spec_fn(ShareView) -> int {
    |s: ShareView|
        if s.sig is Some {
            s.power as int
        } else {
            0
        }
}

impl ShareView {
    /// What the share adds to a witness: nothing yet, or its signature in the
    /// encoding that scripts read.
    pub open spec fn witness_item(self) -> Seq<u8> {
        match self.sig {
            Some(sig) => der_encoding(sig)->Some_0.push(SIGHASH_ALL),
            None => Seq::empty(),
        }
    }

    /// Whether the share's signature, if there is one, can be encoded.
    pub open spec fn encodable(self) -> bool {
        self.sig matches Some(sig) ==> der_encoding(sig) is Some
    }
}

impl ThresholdSigView {
    /// The power of the keys that have signed.
    pub open spec fn signed_power(self) -> int {
        sum_by(self.shares, power_if_signed())
    }

    /// Whether the signers hold more power than the threshold.
    pub open spec fn done(self) -> bool {
        self.signed_power() > self.threshold
    }

    /// Whether `key` has a share.
    pub open spec fn has_key(self, key: Seq<u8>) -> bool {
        exists|i: int| 0 <= i < self.shares.len() && (#[trigger] self.shares[i]).pubkey == key
    }

    /// The position of the share of `key`.
    pub open spec fn position(self, key: Seq<u8>) -> int {
        choose|i: int| 0 <= i < self.shares.len() && (#[trigger] self.shares[i]).pubkey == key
    }

    /// Whether `key` has a share and has not signed.
    pub open spec fn needs_sig(self, key: Seq<u8>) -> bool {
        self.has_key(key) && self.shares[self.position(key)].sig is None
    }

    /// The threshold signature with the signature of `key` added.
    pub open spec fn signed_by(self, key: Seq<u8>, sig: Seq<u8>) -> ThresholdSigView {
        let i = self.position(key);
        ThresholdSigView {
            shares: self.shares.update(i, ShareView { sig: Some(sig), ..self.shares[i] }),
            ..self
        }
    }

    /// What adding a signature of `key` comes to, where `valid` says whether it is
    /// one of the message.
    pub open spec fn recorded(self, key: Seq<u8>, sig: Seq<u8>, valid: bool) -> Result<
        ThresholdSigView,
        CheckpointError,
    > {
        if !self.has_key(key) {
            Err(CheckpointError::UnknownSigner)
        } else if !self.needs_sig(key) {
            Err(CheckpointError::AlreadySigned)
        } else if !valid {
            Err(CheckpointError::InvalidSignature)
        } else {
            Ok(self.signed_by(key, sig))
        }
    }

    /// Whether `sig` is a signature of the message under `key`, which a witness can
    /// hold.
    pub open spec fn accepts(self, key: Seq<u8>, sig: Seq<u8>) -> bool {
        signature_valid(key, self.message, sig) && der_encoding(sig) is Some
    }

    /// What adding a signature of `key` comes to.
    pub open spec fn sign(self, key: Seq<u8>, sig: Seq<u8>) -> Result<
        ThresholdSigView,
        CheckpointError,
    > {
        self.recorded(key, sig, self.accepts(key, sig))
    }

    /// The witness that the signatures make: nothing before there are enough, then
    /// one item for each share.
    pub open spec fn witness(self) -> Result<Seq<Seq<u8>>, CheckpointError> {
        if !self.done() {
            Ok(Seq::empty())
        } else if forall|i: int| 0 <= i < self.shares.len() ==> (#[trigger] self.shares[i]).encodable() {
            Ok(Seq::new(self.shares.len(), |i: int| self.shares[i].witness_item()))
        } else {
            Err(CheckpointError::MalformedSignature)
        }
    }

    /// No key has two shares, and the power of all shares fits in 64 bits.
    pub open spec fn wf(self) -> bool {
        &&& forall|i: int, j: int|
            0 <= i < j < self.shares.len() ==> (#[trigger] self.shares[i]).pubkey != (
            #[trigger] self.shares[j]).pubkey
        &&& sum_by(self.shares, power()) <= u64::MAX
    }

    /// A threshold signature that nobody has signed, with a share for each
    /// signatory of `sigset`.
    pub open spec fn unsigned(sigset: SignatorySetView) -> ThresholdSigView {
        ThresholdSigView {
            threshold: sigset.signature_threshold,
            message: Seq::new(32, |i: int| 0u8),
            shares: Seq::new(
                sigset.signatories.len(),
                |i: int|
                    ShareView {
                        pubkey: sigset.signatories[i].pubkey,
                        power: sigset.signatories[i].voting_power,
                        sig: None,
                    },
            ),
        }
    }
}

/// The one share of a key is the one at its position.
pub(crate) proof fn lemma_position(s: ThresholdSigView, i: int)
    requires
        s.wf(),
        0 <= i < s.shares.len(),
    ensures
        s.has_key(s.shares[i].pubkey),
        s.position(s.shares[i].pubkey) == i,
{
    let key = s.shares[i].pubkey;
    let p = s.position(key);
    assert(0 <= p < s.shares.len() && s.shares[p].pubkey == key);
    if p < i {
        assert(s.shares[p].pubkey != s.shares[i].pubkey);
    } else if i < p {
        assert(s.shares[i].pubkey != s.shares[p].pubkey);
    }
}

/// Where one share of a sequence is replaced by one with a signature, the power of
/// the signers grows by its power.
proof fn lemma_signed_power_update(s: Seq<ShareView>, i: int, sig: Seq<u8>)
    requires
        0 <= i < s.len(),
        s[i].sig is None,
    ensures
        sum_by(s.update(i, ShareView { sig: Some(sig), ..s[i] }), power_if_signed()) == sum_by(
            s,
            power_if_signed(),
        ) + s[i].power,
        sum_by(s.update(i, ShareView { sig: Some(sig), ..s[i] }), power()) == sum_by(s, power()),
    decreases s.len(),
{
    let t = s.update(i, ShareView { sig: Some(sig), ..s[i] });
    if i == s.len() - 1 {
        assert(t.drop_last() =~= s.drop_last());
    } else {
        lemma_signed_power_update(s.drop_last(), i, sig);
        assert(t.drop_last() =~= s.drop_last().update(i, ShareView { sig: Some(sig), ..s[i] }));
        assert(t.last() == s.last());
    }
}

/// The signers never hold more power than all keys together.
proof fn lemma_signed_power_bound(s: Seq<ShareView>)
    ensures
        0 <= sum_by(s, power_if_signed()) <= sum_by(s, power()),
    decreases s.len(),
{
    if s.len() > 0 {
        lemma_signed_power_bound(s.drop_last());
    }
}

/// A signature of one more key leaves the threshold signature well formed and adds
/// the key's power to that of the signers.
pub(crate) proof fn lemma_signed_by(s: ThresholdSigView, key: Seq<u8>, sig: Seq<u8>)
    requires
        s.wf(),
        s.needs_sig(key),
    ensures
        s.signed_by(key, sig).wf(),
        s.signed_by(key, sig).signed_power() == s.signed_power() + s.shares[s.position(key)].power,
        s.signed_by(key, sig).signed_power() <= u64::MAX,
{
    let i = s.position(key);
    lemma_signed_power_update(s.shares, i, sig);
    let t = s.signed_by(key, sig);
    assert forall|a: int, b: int| 0 <= a < b < t.shares.len() implies (#[trigger] t.shares[a]).pubkey
        != (#[trigger] t.shares[b]).pubkey by {
        assert(s.shares[a].pubkey != s.shares[b].pubkey);
    }
    lemma_signed_power_bound(t.shares);
}

impl View for ThresholdSig {
    type V = ThresholdSigView;

    closed spec fn view(&self) -> ThresholdSigView {
        ThresholdSigView {
            threshold: self.threshold,
            message: self.message@,
            shares: Seq::new(self.shares@.len(), |i: int| self.shares@[i]@),
        }
    }
}

impl ThresholdSig {
    /// The power kept as signed is the power of the keys that have signed.
    pub closed spec fn wf(&self) -> bool {
        &&& self@.wf()
        &&& self.signed == self@.signed_power()
    }

    /// A well-formed threshold signature stands for one in which no key has two shares.
    pub proof fn lemma_wf(&self)
        requires
            self.wf(),
        ensures
            self@.wf(),
    {
    }

    /// A threshold signature that nobody has signed, with a share for each
    /// signatory of `sigset`.
    pub fn from_sigset(sigset: &SignatorySet) -> (sigs: ThresholdSig)
        requires
            sigset@.wf(),
        ensures
            sigs.wf(),
            sigs@ == ThresholdSigView::unsigned(sigset@),
    {
        let mut shares: Vec<Share> = Vec::new();
        let mut i: usize = 0;
        while i < sigset.signatories.len()
            invariant
                i <= sigset.signatories.len(),
                shares@.len() == i,
                forall|j: int|
                    0 <= j < i ==> (#[trigger] shares@[j])@ == ThresholdSigView::unsigned(sigset@).shares[j],
            decreases sigset.signatories.len() - i,
        {
            let signatory = sigset.signatories[i];
            shares.push(Share { pubkey: signatory.pubkey, power: signatory.voting_power, sig: None });
            i += 1;
        }
        let sigs = ThresholdSig {
            threshold: sigset.signature_threshold,
            signed: 0,
            message: [0u8; 32],
            shares,
        };
        proof {
            let model = ThresholdSigView::unsigned(sigset@);
            assert(sigs@.message =~= model.message);
            assert(sigs@.shares =~= model.shares);
            lemma_sum_same(model.shares, sigset@.signatories, power(), voting_power());
            lemma_unsigned_power(model.shares);
            assert forall|a: int, b: int| 0 <= a < b < model.shares.len() implies (
            #[trigger] model.shares[a]).pubkey != (#[trigger] model.shares[b]).pubkey by {
                assert(sigset@.signatories[a].pubkey != sigset@.signatories[b].pubkey);
            }
        }
        sigs
    }

    /// The message to sign.
    pub fn message(&self) -> (message: [u8; 32])
        ensures
            message@ == self@.message,
    {
        self.message
    }

    /// Replaces the message to sign.
    pub fn set_message(&mut self, message: [u8; 32])
        requires
            old(self).wf(),
        ensures
            final(self).wf(),
            final(self)@ == (ThresholdSigView { message: message@, ..old(self)@ }),
    {
        self.message = message;
        assert(self@.shares =~= old(self)@.shares);
    }

    /// Whether the signers hold more power than the threshold.
    pub fn done(&self) -> (done: bool)
        requires
            self.wf(),
        ensures
            done == self@.done(),
    {
        self.signed > self.threshold
    }

    /// The position of the share of `pubkey`, if it has one.
    fn find(&self, pubkey: &Pubkey) -> (found: Option<usize>)
        requires
            self@.wf(),
        ensures
            match found {
                Some(i) => i < self.shares@.len() && self@.has_key(pubkey@) && self@.position(pubkey@)
                    == i,
                None => !self@.has_key(pubkey@),
            },
    {
        let mut i: usize = 0;
        while i < self.shares.len()
            invariant
                i <= self.shares.len(),
                self@.wf(),
                forall|j: int| 0 <= j < i ==> (#[trigger] self@.shares[j]).pubkey != pubkey@,
            decreases self.shares.len() - i,
        {
            if self.shares[i].pubkey.same(pubkey) {
                proof {
                    assert(self@.shares[i as int].pubkey == pubkey@);
                    lemma_position(self@, i as int);
                }
                return Some(i);
            }
            assert(self@.shares[i as int].pubkey != pubkey@);
            i += 1;
        }
        None
    }

    /// Whether `pubkey` has a share.
    pub fn contains_key(&self, pubkey: Pubkey) -> (contains: bool)
        requires
            self.wf(),
        ensures
            contains == self@.has_key(pubkey@),
    {
        self.find(&pubkey).is_some()
    }

    /// Whether `pubkey` has a share and has not signed.
    pub fn needs_sig(&self, pubkey: Pubkey) -> (needs: bool)
        requires
            self.wf(),
        ensures
            needs == self@.needs_sig(pubkey@),
    {
        match self.find(&pubkey) {
            Some(i) => self.shares[i].sig.is_none(),
            None => false,
        }
    }

    /// Adds the signature of `pubkey`, where `valid` says whether it is one of the
    /// message.
    pub fn record(&mut self, pubkey: Pubkey, sig: Signature, valid: bool) -> (result: Result<
        (),
        CheckpointError,
    >)
        requires
            old(self).wf(),
        ensures
            final(self).wf(),
            match old(self)@.recorded(pubkey@, sig@, valid) {
                Ok(sigs) => result is Ok && final(self)@ == sigs,
                Err(e) => result == Err::<(), CheckpointError>(e) && final(self)@ == old(self)@,
            },
    {
        match self.find(&pubkey) {
            Some(i) => {
                if self.shares[i].sig.is_some() {
                    return Err(CheckpointError::AlreadySigned);
                }
                if !valid {
                    return Err(CheckpointError::InvalidSignature);
                }
                proof {
                    lemma_signed_by(self@, pubkey@, sig@);
                }
                let share = self.shares[i];
                self.signed = self.signed + share.power;
                self.shares[i] = Share { sig: Some(sig), ..share };
                assert(self@.shares =~= old(self)@.signed_by(pubkey@, sig@).shares);
                Ok(())
            },
            None => Err(CheckpointError::UnknownSigner),
        }
    }

    /// Whether `sig` is a signature of the message under `pubkey`.
    pub fn verify(&self, pubkey: Pubkey, sig: Signature) -> (valid: bool)
        ensures
            valid == self@.accepts(pubkey@, sig@),
    {
        verify_signature(&pubkey, &self.message, &sig).is_ok()
    }

    /// Adds the signature of `pubkey`, if it is one of the message.
    pub fn sign(&mut self, pubkey: Pubkey, sig: Signature) -> (result: Result<(), CheckpointError>)
        requires
            old(self).wf(),
        ensures
            final(self).wf(),
            match old(self)@.sign(pubkey@, sig@) {
                Ok(sigs) => result is Ok && final(self)@ == sigs,
                Err(e) => result == Err::<(), CheckpointError>(e) && final(self)@ == old(self)@,
            },
    {
        let valid: bool = self.verify(pubkey, sig);
        self.record(pubkey, sig, valid)
    }

    /// The witness that the signatures make: nothing before there are enough, then
    /// one item for each share.
    pub fn to_witness(&self) -> (witness: Result<Vec<Vec<u8>>, CheckpointError>)
        requires
            self.wf(),
        ensures
            match self@.witness() {
                Ok(items) => witness matches Ok(w) && stack_view(w@) == items,
                Err(e) => witness == Err::<Vec<Vec<u8>>, CheckpointError>(e),
            },
    {
        let mut witness: Vec<Vec<u8>> = Vec::new();
        if !self.done() {
            assert(stack_view(witness@) =~= Seq::empty());
            return Ok(witness);
        }
        let mut i: usize = 0;
        while i < self.shares.len()
            invariant
                i <= self.shares.len(),
                self@.done(),
                witness@.len() == i,
                forall|j: int|
                    0 <= j < i ==> (#[trigger] self@.shares[j]).encodable() && witness@[j]@
                        == self@.shares[j].witness_item(),
            decreases self.shares.len() - i,
        {
            let mut item: Vec<u8> = Vec::new();
            if let Some(sig) = self.shares[i].sig {
                match der_signature(&sig) {
                    Ok(der) => {
                        item = der;
                        item.push(SIGHASH_ALL);
                    },
                    Err(_) => {
                        assert(!self@.shares[i as int].encodable());
                        return Err(CheckpointError::MalformedSignature);
                    },
                }
            }
            assert(item@ =~= self@.shares[i as int].witness_item());
            witness.push(item);
            i += 1;
        }
        assert(stack_view(witness@) =~= self@.witness()->Ok_0);
        Ok(witness)
    }
}

impl Clone for ThresholdSig {
    fn clone(&self) -> (copy: ThresholdSig)
        ensures
            copy@ == self@,
            copy.wf() == self.wf(),
    {
        let mut shares: Vec<Share> = Vec::new();
        let mut i: usize = 0;
        while i < self.shares.len()
            invariant
                i <= self.shares.len(),
                shares@ =~= self.shares@.take(i as int),
            decreases self.shares.len() - i,
        {
            shares.push(self.shares[i]);
            i += 1;
        }
        assert(shares@ =~= self.shares@);
        ThresholdSig { threshold: self.threshold, signed: self.signed, message: self.message, shares }
    }
}

/// The power of the signers, where nobody has signed.
pub(crate) proof fn lemma_unsigned_power(s: Seq<ShareView>)
    requires
        forall|i: int| 0 <= i < s.len() ==> (#[trigger] s[i]).sig is None,
    ensures
        sum_by(s, power_if_signed()) == 0,
    decreases s.len(),
{
    if s.len() > 0 {
        assert(s[s.len() - 1].sig is None);
        assert forall|i: int| 0 <= i < s.drop_last().len() implies (#[trigger] s.drop_last()[i]).sig
            is None by {
            assert(s[i].sig is None);
        }
        lemma_unsigned_power(s.drop_last());
    }
}

} // verus!
