//! The sets of signatories that hold the reserve.
use vstd::prelude::*;

use crate::error::CheckpointError;
use crate::keys::Pubkey;
use crate::sums::{lemma_sum_prefix, lemma_sum_step, sum_by};

verus! {

/// One signatory: a key, and the voting power behind it.
#[derive(Debug, Clone, Copy)]
pub struct Signatory {
    pub voting_power: u64,
    pub pubkey: Pubkey,
}

/// The scripts with which a signatory set holds the coins of one destination.
#[derive(Debug)]
pub struct Scripts {
    /// The script of an output that pays to the set.
    pub output_script: Vec<u8>,
    /// The script that the output script commits to, which spends it.
    pub redeem_script: Vec<u8>,
}

/// A set of signatories, as it was taken from the validators at one time.
#[derive(Debug)]
pub struct SignatorySet {
    /// The index of the checkpoint that the set was made for.
    pub index: u32,
    /// When the set was made, in seconds.
    pub create_time: u64,
    /// The voting power of all validators, signatories or not.
    pub possible_vp: u64,
    /// Whether the signatories hold enough of it to take over the reserve.
    pub has_quorum: bool,
    /// The voting power that the signers of an input have to exceed.
    pub signature_threshold: u64,
    /// An estimate of the size that the set's signatures add to a transaction, per
    /// input.
    pub est_witness_vsize: u64,
    /// The signatories.
    pub signatories: Vec<Signatory>,
    /// The script of an output that pays to the set for nobody, to the reserve, or why
    /// it could not be built.
    pub reserve_output_script: Result<Vec<u8>, CheckpointError>,
    /// The script that spends the reserve, or why it could not be built.
    pub reserve_redeem_script: Result<Vec<u8>, CheckpointError>,
}

/// What a `Signatory` stands for.
#[verifier::ext_equal]
pub struct SignatoryView {
    pub voting_power: u64,
    pub pubkey: Seq<u8>,
}

/// What `Scripts` stand for.
#[verifier::ext_equal]
pub struct ScriptsView {
    pub output_script: Seq<u8>,
    pub redeem_script: Seq<u8>,
}

/// What a `SignatorySet` stands for.
#[verifier::ext_equal]
pub struct SignatorySetView {
    pub index: u32,
    pub create_time: u64,
    pub possible_vp: u64,
    pub has_quorum: bool,
    pub signature_threshold: u64,
    pub est_witness_vsize: u64,
    pub signatories: Seq<SignatoryView>,
    pub reserve_output_script: Result<Seq<u8>, CheckpointError>,
    pub reserve_redeem_script: Result<Seq<u8>, CheckpointError>,
}

impl View for Signatory {
    type V = SignatoryView;

    open spec fn view(&self) -> SignatoryView {
        SignatoryView { voting_power: self.voting_power, pubkey: self.pubkey@ }
    }
}

impl View for Scripts {
    type V = ScriptsView;

    open spec fn view(&self) -> ScriptsView {
        ScriptsView { output_script: self.output_script@, redeem_script: self.redeem_script@ }
    }
}

/// The contents of what came of building a script.
pub open spec fn script_view(script: Result<Vec<u8>, CheckpointError>) -> Result<
    Seq<u8>,
    CheckpointError,
> {
    match script {
        Ok(s) => Ok(s@),
        Err(e) => Err(e),
    }
}

/// The contents of what came of building scripts.
pub open spec fn scripts_view(scripts: Result<Scripts, CheckpointError>) -> Result<
    ScriptsView,
    CheckpointError,
> {
    match scripts {
        Ok(s) => Ok(s@),
        Err(e) => Err(e),
    }
}

impl View for SignatorySet {
    type V = SignatorySetView;

    open spec fn view(&self) -> SignatorySetView {
        SignatorySetView {
            index: self.index,
            create_time: self.create_time,
            possible_vp: self.possible_vp,
            has_quorum: self.has_quorum,
            signature_threshold: self.signature_threshold,
            est_witness_vsize: self.est_witness_vsize,
            signatories: Seq::new(self.signatories@.len(), |i: int| self.signatories@[i]@),
            reserve_output_script: script_view(self.reserve_output_script),
            reserve_redeem_script: script_view(self.reserve_redeem_script),
        }
    }
}

impl SignatorySetView {
    /// No key is listed twice, and the voting power of all signatories fits in 64
    /// bits.
    pub open spec fn wf(self) -> bool {
        &&& forall|i: int, j: int|
            0 <= i < j < self.signatories.len() ==> (#[trigger] self.signatories[i]).pubkey != (
            #[trigger] self.signatories[j]).pubkey
        &&& sum_by(self.signatories, voting_power()) <= u64::MAX
    }

    /// The scripts for coins that are held for nobody, the reserve, or why the first
    /// of them that could not be built was not.
    pub open spec fn reserve_scripts(self) -> Result<ScriptsView, CheckpointError> {
        match (self.reserve_output_script, self.reserve_redeem_script) {
            (Ok(output_script), Ok(redeem_script)) => Ok(
                ScriptsView { output_script, redeem_script },
            ),
            (Err(e), _) => Err(e),
            (_, Err(e)) => Err(e),
        }
    }
}

/// The voting power of a signatory.
pub open spec fn voting_power() -> spec_fn(SignatoryView) -> int {
    |s: SignatoryView| s.voting_power as int
}

impl SignatorySet {
    /// Whether no key is listed twice, and the voting power of all signatories fits
    /// in 64 bits.
    pub fn is_well_formed(&self) -> (well_formed: bool)
        ensures
            well_formed == self@.wf(),
    {
        let mut total: u64 = 0;
        let mut i: usize = 0;
        assert(self@.signatories.take(0) =~= Seq::empty());
        while i < self.signatories.len()
            invariant
                i <= self.signatories.len(),
                total == sum_by(self@.signatories.take(i as int), voting_power()),
                forall|a: int, b: int|
                    0 <= a < b < i ==> (#[trigger] self@.signatories[a]).pubkey != (
                    #[trigger] self@.signatories[b]).pubkey,
            decreases self.signatories.len() - i,
        {
            let mut k: usize = 0;
            while k < i
                invariant
                    k <= i < self.signatories.len(),
                    forall|a: int|
                        0 <= a < k ==> (#[trigger] self@.signatories[a]).pubkey
                            != self@.signatories[i as int].pubkey,
                decreases i - k,
            {
                if self.signatories[k].pubkey.same(&self.signatories[i].pubkey) {
                    assert(self@.signatories[k as int].pubkey == self@.signatories[i as int].pubkey);
                    return false;
                }
                assert(self@.signatories[k as int].pubkey != self@.signatories[i as int].pubkey);
                k += 1;
            }
            proof {
                lemma_sum_step(self@.signatories, i as int, voting_power());
                lemma_sum_prefix(self@.signatories, i + 1, voting_power());
            }
            match total.checked_add(self.signatories[i].voting_power) {
                Some(sum) => {
                    total = sum;
                },
                None => {
                    return false;
                },
            }
            i += 1;
        }
        assert(self@.signatories.take(i as int) =~= self@.signatories);
        true
    }

    /// The scripts for coins that are held for nobody, the reserve, or why the first
    /// of them that could not be built was not.
    pub fn reserve_scripts(&self) -> (scripts: Result<Scripts, CheckpointError>)
        ensures
            scripts_view(scripts) == self@.reserve_scripts(),
    {
        let output_script: Vec<u8> = match clone_script(&self.reserve_output_script) {
            Ok(script) => script,
            Err(e) => {
                return Err(e);
            },
        };
        let redeem_script: Vec<u8> = match clone_script(&self.reserve_redeem_script) {
            Ok(script) => script,
            Err(e) => {
                return Err(e);
            },
        };
        Ok(Scripts { output_script, redeem_script })
    }
}

/// A copy of what came of building a script.
pub(crate) fn clone_script(script: &Result<Vec<u8>, CheckpointError>) -> (copy: Result<
    Vec<u8>,
    CheckpointError,
>)
    ensures
        script_view(copy) == script_view(*script),
{
    match script {
        Ok(bytes) => {
            let copy: Vec<u8> = bytes.clone();
            assert(copy@ =~= bytes@);
            Ok(copy)
        },
        Err(e) => Err(*e),
    }
}

impl Clone for SignatorySet {
    fn clone(&self) -> (copy: SignatorySet)
        ensures
            copy@ == self@,
    {
        let mut signatories: Vec<Signatory> = Vec::new();
        let mut i: usize = 0;
        while i < self.signatories.len()
            invariant
                i <= self.signatories.len(),
                signatories@ =~= self.signatories@.take(i as int),
            decreases self.signatories.len() - i,
        {
            signatories.push(self.signatories[i]);
            i += 1;
        }
        assert(signatories@ =~= self.signatories@);
        SignatorySet {
            index: self.index,
            create_time: self.create_time,
            possible_vp: self.possible_vp,
            has_quorum: self.has_quorum,
            signature_threshold: self.signature_threshold,
            est_witness_vsize: self.est_witness_vsize,
            signatories,
            reserve_output_script: clone_script(&self.reserve_output_script),
            reserve_redeem_script: clone_script(&self.reserve_redeem_script),
        }
    }
}

} // verus!
