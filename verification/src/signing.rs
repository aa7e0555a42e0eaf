//! The checkpoint whose transaction waits for signatures.
use vstd::prelude::*;

use crate::checkpoint::{Checkpoint, CheckpointStatus, CheckpointView};
use crate::error::CheckpointError;
use crate::input::{inputs_view, Input, InputView};
use crate::keys::{Pubkey, Signature, Xpub};
use crate::outside::{child_key, derive_child_key};
use crate::threshold_sig::{ShareView, ThresholdSig, ThresholdSigView};

verus! {

/// A checkpoint that is signed.
#[derive(Debug)]
pub struct CompletedCheckpoint<'a>(pub &'a Checkpoint);

/// A checkpoint that is being signed.
#[derive(Debug)]
pub struct SigningCheckpoint<'a>(pub &'a Checkpoint);

/// A checkpoint that is being signed, to be changed.
#[derive(Debug)]
pub struct SigningCheckpointMut<'a>(pub &'a mut Checkpoint);

/// The keys that a signatory's extended key gives for the inputs.
pub open spec fn input_keys(xpub: Seq<u8>, inputs: Seq<InputView>) -> Seq<Option<Seq<u8>>> {
    Seq::new(inputs.len(), |i: int| child_key(xpub, inputs[i].sigset_index))
}

/// Whether a signatory's extended key can have a key for each input: it has none for the
/// upper half of the indices.
pub open spec fn derivable(inputs: Seq<InputView>) -> bool {
    forall|i: int| 0 <= i < inputs.len() ==> (#[trigger] inputs[i]).sigset_index < 0x8000_0000
}

/// Whether keys can be derived for the inputs: a key at the greatest depth has no child,
/// unless there is nothing to derive because the first input is refused for its index.
pub open spec fn can_derive(xpub: Xpub, inputs: Seq<InputView>) -> bool {
    inputs.len() > 0 && inputs[0].sigset_index < 0x8000_0000 ==> xpub.depth() < 255
}

/// Whether the first input is refused for its index, before anything is done.
pub open spec fn refused_at_once(inputs: Seq<InputView>) -> bool {
    inputs.len() > 0 && inputs[0].sigset_index >= 0x8000_0000
}

/// The contents of a list of keys.
pub open spec fn keys_view(keys: Seq<Option<Pubkey>>) -> Seq<Option<Seq<u8>>> {
    Seq::new(
        keys.len(),
        |i: int|
            match keys[i] {
                Some(key) => Some(key@),
                None => None,
            },
    )
}

/// The contents of a list of signatures.
pub open spec fn sigs_view(sigs: Seq<Signature>) -> Seq<Seq<u8>> {
    Seq::new(sigs.len(), |i: int| sigs[i]@)
}

/// The contents of a list of messages.
pub open spec fn messages_view(messages: Seq<([u8; 32], u32)>) -> Seq<(Seq<u8>, u32)> {
    Seq::new(messages.len(), |i: int| (messages[i].0@, messages[i].1))
}

/// The messages of those among the first `n` inputs that wait for a signature of
/// their key, each with the index of the signatory set that the key is derived for.
pub open spec fn messages(inputs: Seq<InputView>, keys: Seq<Option<Seq<u8>>>, n: int) -> Seq<
    (Seq<u8>, u32),
>
    decreases n,
{
    if n <= 0 {
        Seq::empty()
    } else if inputs[n - 1].sigs.needs_sig(keys[n - 1]->Some_0) {
        messages(inputs, keys, n - 1).push(
            (inputs[n - 1].sigs.message, inputs[n - 1].sigset_index),
        )
    } else {
        messages(inputs, keys, n - 1)
    }
}

/// The messages that a signatory is to sign, given its key for each input.
pub open spec fn to_sign(inputs: Seq<InputView>, keys: Seq<Option<Seq<u8>>>) -> Result<
    Seq<(Seq<u8>, u32)>,
    CheckpointError,
> {
    if forall|i: int| 0 <= i < inputs.len() ==> (#[trigger] keys[i]) is Some {
        Ok(messages(inputs, keys, inputs.len() as int))
    } else {
        Err(CheckpointError::KeyDerivation)
    }
}

/// Why a signatory's signatures were not all taken in.
pub enum SignStop {
    /// An error came up.
    Failed(CheckpointError),
    /// An input waited for a signature, and all of them were used.
    RanOut,
}

/// How far the signatures of one signatory have been taken in.
#[verifier::ext_equal]
pub struct SignRun {
    /// The inputs, with the signatures that were taken in.
    pub inputs: Seq<InputView>,
    /// How many signatures have been passed.
    pub used: int,
    /// How many inputs have got enough signatures on the way.
    pub newly_done: int,
    /// What came in the way, if anything.
    pub stop: Option<SignStop>,
}

impl SignRun {
    /// Before anything is taken in.
    pub open spec fn start(inputs: Seq<InputView>) -> SignRun {
        SignRun { inputs, used: 0, newly_done: 0, stop: None }
    }

    /// After the input at `i`, for which the signatory has `key`.
    pub open spec fn step(self, i: int, key: Option<Seq<u8>>, sigs: Seq<Seq<u8>>) -> SignRun {
        let input = self.inputs[i];
        match key {
            None => SignRun { stop: Some(SignStop::Failed(CheckpointError::KeyDerivation)), ..self },
            Some(k) => if !input.sigs.has_key(k) {
                // not this signatory's to sign
                self
            } else if input.sigs.done() {
                // signed by enough others, so that the signature is not needed
                SignRun { used: self.used + 1, ..self }
            } else if self.used > sigs.len() {
                SignRun {
                    stop: Some(SignStop::Failed(CheckpointError::NotEnoughSignatures)),
                    ..self
                }
            } else if self.used == sigs.len() {
                SignRun { stop: Some(SignStop::RanOut), ..self }
            } else {
                match input.sigs.sign(k, sigs[self.used]) {
                    Ok(signed) => SignRun {
                        inputs: self.inputs.update(i, InputView { sigs: signed, ..input }),
                        used: self.used + 1,
                        newly_done: self.newly_done + if signed.done() {
                            1int
                        } else {
                            0
                        },
                        stop: None,
                    },
                    Err(e) => SignRun { stop: Some(SignStop::Failed(e)), ..self },
                }
            },
        }
    }

    /// What the signatory is told after the last input, unless the signatures ran out.
    pub open spec fn result(self, sigs: Seq<Seq<u8>>) -> Result<(), CheckpointError> {
        match self.stop {
            Some(SignStop::Failed(e)) => Err(e),
            _ => if self.used != sigs.len() {
                Err(CheckpointError::ExcessSignatures)
            } else {
                Ok(())
            },
        }
    }
}

/// Takes in a signatory's signatures, up to the input at `n`. The inputs are gone
/// through in order; each that the signatory has a share in uses up one signature.
pub open spec fn sign_run(
    inputs: Seq<InputView>,
    keys: Seq<Option<Seq<u8>>>,
    sigs: Seq<Seq<u8>>,
    n: int,
) -> SignRun
    decreases n,
{
    if n <= 0 {
        SignRun::start(inputs)
    } else {
        let run = sign_run(inputs, keys, sigs, n - 1);
        if run.stop is Some {
            run
        } else {
            run.step(n - 1, keys[n - 1], sigs)
        }
    }
}

/// Takes in all of a signatory's signatures.
pub open spec fn sign_all(
    inputs: Seq<InputView>,
    keys: Seq<Option<Seq<u8>>>,
    sigs: Seq<Seq<u8>>,
) -> SignRun {
    sign_run(inputs, keys, sigs, inputs.len() as int)
}

/// What was reached stays: inputs yet to come are as they were, and no more than
/// one signature is passed, and one input done, for each input.
pub(crate) proof fn lemma_sign_run(
    inputs: Seq<InputView>,
    keys: Seq<Option<Seq<u8>>>,
    sigs: Seq<Seq<u8>>,
    n: int,
)
    requires
        0 <= n <= inputs.len(),
    ensures
        ({
            let run = sign_run(inputs, keys, sigs, n);
            &&& run.inputs.len() == inputs.len()
            &&& forall|i: int| n <= i < inputs.len() ==> #[trigger] run.inputs[i] == inputs[i]
            &&& 0 <= run.used <= n
            &&& 0 <= run.newly_done <= n
        }),
    decreases n,
{
    if n > 0 {
        lemma_sign_run(inputs, keys, sigs, n - 1);
    }
}

/// What signatories sign does not change under their signatures: the inputs, but for
/// the signatures, stay as they are.
pub(crate) proof fn lemma_sign_keeps_inputs(
    inputs: Seq<InputView>,
    keys: Seq<Option<Seq<u8>>>,
    sigs: Seq<Seq<u8>>,
    n: int,
)
    requires
        0 <= n <= inputs.len(),
    ensures
        ({
            let run = sign_run(inputs, keys, sigs, n);
            &&& run.inputs.len() == inputs.len()
            &&& forall|i: int|
                0 <= i < inputs.len() ==> (#[trigger] run.inputs[i]).without_signatures()
                    == inputs[i].without_signatures()
        }),
    decreases n,
{
    if n > 0 {
        lemma_sign_keeps_inputs(inputs, keys, sigs, n - 1);
        let before = sign_run(inputs, keys, sigs, n - 1);
        let after = sign_run(inputs, keys, sigs, n);
        assert forall|i: int| 0 <= i < inputs.len() implies (
        #[trigger] after.inputs[i]).without_signatures() == inputs[i].without_signatures() by {
            assert(before.inputs[i].without_signatures() == inputs[i].without_signatures());
            assert(after.inputs[i].without_signatures()
                =~= before.inputs[i].without_signatures());
        }
    }
}

/// Once something came in the way, nothing more is taken in.
pub(crate) proof fn lemma_sign_stops(
    inputs: Seq<InputView>,
    keys: Seq<Option<Seq<u8>>>,
    sigs: Seq<Seq<u8>>,
    n: int,
    m: int,
)
    requires
        0 <= n <= m,
        sign_run(inputs, keys, sigs, n).stop is Some,
    ensures
        sign_run(inputs, keys, sigs, m) == sign_run(inputs, keys, sigs, n),
    decreases m - n,
{
    if n < m {
        lemma_sign_stops(inputs, keys, sigs, n, m - 1);
    }
}

/// Inputs that have got enough signatures stay counted.
proof fn lemma_sign_counts(
    inputs: Seq<InputView>,
    keys: Seq<Option<Seq<u8>>>,
    sigs: Seq<Seq<u8>>,
    n: int,
    m: int,
)
    requires
        0 <= n <= m,
    ensures
        sign_run(inputs, keys, sigs, n).newly_done <= sign_run(inputs, keys, sigs, m).newly_done,
    decreases m - n,
{
    if n < m {
        lemma_sign_counts(inputs, keys, sigs, n, m - 1);
    }
}

/// Signatures are not all taken in where the signatory has no key for an input.
pub(crate) proof fn lemma_sign_needs_keys(
    inputs: Seq<InputView>,
    keys: Seq<Option<Seq<u8>>>,
    sigs: Seq<Seq<u8>>,
    i: int,
)
    requires
        0 <= i < inputs.len(),
        keys[i] is None,
    ensures
        sign_all(inputs, keys, sigs).stop is Some,
{
    lemma_sign_stops(inputs, keys, sigs, i + 1, inputs.len() as int);
}

/// Nothing is taken in where the signatory has no key for the first input.
pub(crate) proof fn lemma_refused_at_once(
    inputs: Seq<InputView>,
    keys: Seq<Option<Seq<u8>>>,
    sigs: Seq<Seq<u8>>,
)
    requires
        inputs.len() > 0,
        keys[0] is None,
    ensures
        sign_all(inputs, keys, sigs) == (SignRun {
            stop: Some(SignStop::Failed(CheckpointError::KeyDerivation)),
            ..SignRun::start(inputs)
        }),
{
    reveal_with_fuel(sign_run, 2);
    lemma_sign_stops(inputs, keys, sigs, 1, inputs.len() as int);
}

/// The first inputs are treated alike where the signatory's keys for them are the same.
proof fn lemma_sign_run_same(
    inputs: Seq<InputView>,
    a: Seq<Option<Seq<u8>>>,
    b: Seq<Option<Seq<u8>>>,
    sigs: Seq<Seq<u8>>,
    n: int,
)
    requires
        forall|j: int| 0 <= j < n ==> #[trigger] a[j] == b[j],
    ensures
        sign_run(inputs, a, sigs, n) == sign_run(inputs, b, sigs, n),
    decreases n,
{
    if n > 0 {
        lemma_sign_run_same(inputs, a, b, sigs, n - 1);
        assert(a[n - 1] == b[n - 1]);
    }
}

/// Keys behind the first one that is missing do not count.
proof fn lemma_keys_behind_missing(
    inputs: Seq<InputView>,
    a: Seq<Option<Seq<u8>>>,
    b: Seq<Option<Seq<u8>>>,
    n: int,
)
    requires
        0 <= n < inputs.len(),
        forall|j: int| 0 <= j <= n ==> #[trigger] a[j] == b[j],
        a[n] is None,
    ensures
        to_sign(inputs, a) == to_sign(inputs, b),
        forall|sigs: Seq<Seq<u8>>| #[trigger]
            sign_all(inputs, a, sigs) == sign_all(inputs, b, sigs),
{
    assert(b[n] is None);
    assert forall|sigs: Seq<Seq<u8>>| #[trigger]
        sign_all(inputs, a, sigs) == sign_all(inputs, b, sigs) by {
        lemma_sign_run_same(inputs, a, b, sigs, n + 1);
        lemma_sign_stops(inputs, a, sigs, n + 1, inputs.len() as int);
        lemma_sign_stops(inputs, b, sigs, n + 1, inputs.len() as int);
    }
}

/// The keys that `xpub` gives for the inputs, up to the first one that it does not have.
/// From there on all are left out, which makes no difference to what is signed.
fn derive_keys(xpub: &Xpub, inputs: &Vec<Input>) -> (keys: Vec<Option<Pubkey>>)
    requires
        can_derive(*xpub, inputs_view(inputs@)),
    ensures
        keys@.len() == inputs@.len(),
        ({
            let view = inputs_view(inputs@);
            let derived = input_keys(xpub@, view);
            &&& to_sign(view, keys_view(keys@)) == to_sign(view, derived)
            &&& forall|sigs: Seq<Seq<u8>>| #[trigger]
                sign_all(view, keys_view(keys@), sigs) == sign_all(view, derived, sigs)
        }),
        forall|i: int|
            0 <= i < keys@.len() && (#[trigger] keys@[i]) is Some ==> inputs@[i].sigset_index
                < 0x8000_0000,
{
    let ghost view = inputs_view(inputs@);
    let ghost derived = input_keys(xpub@, view);
    let mut keys: Vec<Option<Pubkey>> = Vec::new();
    let mut missing: bool = false;
    let ghost mut first: int = 0;
    let mut i: usize = 0;
    while i < inputs.len()
        invariant
            i <= inputs.len(),
            view == inputs_view(inputs@),
            derived == input_keys(xpub@, view),
            can_derive(*xpub, view),
            i > 0 && !missing ==> xpub.depth() < 255,
            keys@.len() == i,
            missing ==> 0 <= first < i && keys@[first] is None,
            forall|j: int|
                0 <= j < i && (missing ==> j <= first) ==> (#[trigger] keys_view(keys@)[j]) == derived[j],
            forall|j: int|
                0 <= j < i && (#[trigger] keys@[j]) is Some ==> inputs@[j].sigset_index < 0x8000_0000,
        decreases inputs.len() - i,
    {
        let ghost before = keys@;
        let mut key: Option<Pubkey> = None;
        if !missing {
            match derive_child_key(xpub, inputs[i].sigset_index) {
                Ok(bytes) => {
                    key = Some(Pubkey { bytes });
                },
                Err(_) => {
                    missing = true;
                    proof {
                        first = i as int;
                    }
                },
            }
        }
        keys.push(key);
        assert forall|j: int| 0 <= j < i + 1 && (missing ==> j <= first) implies (
        #[trigger] keys_view(keys@)[j]) == derived[j] by {
            if j < i {
                assert(keys_view(before)[j] == keys_view(keys@)[j]);
            }
        }
        i += 1;
    }
    proof {
        if missing {
            assert forall|j: int| 0 <= j <= first implies #[trigger] keys_view(keys@)[j]
                == derived[j] by {}
            lemma_keys_behind_missing(view, keys_view(keys@), derived, first);
        } else {
            assert(keys_view(keys@) =~= derived);
        }
    }
    keys
}

impl<'a> SigningCheckpoint<'a> {
    /// The messages that a signatory is to sign, each with the index of the signatory
    /// set that its key is derived for.
    pub fn to_sign(&self, xpub: Xpub) -> (msgs: Result<Vec<([u8; 32], u32)>, CheckpointError>)
        requires
            self.0.wf(),
            can_derive(xpub, self.0@.inputs),
        ensures
            match to_sign(self.0@.inputs, input_keys(xpub@, self.0@.inputs)) {
                Ok(model) => msgs matches Ok(m) && messages_view(m@) == model,
                Err(e) => msgs == Err::<Vec<([u8; 32], u32)>, CheckpointError>(e),
            },
            !derivable(self.0@.inputs) ==> msgs == Err::<Vec<([u8; 32], u32)>, CheckpointError>(
                CheckpointError::KeyDerivation,
            ),
    {
        let keys: Vec<Option<Pubkey>> = derive_keys(&xpub, &self.0.inputs);
        proof {
            if !derivable(self.0@.inputs) {
                let i = choose|i: int|
                    0 <= i < self.0@.inputs.len() && (#[trigger] self.0@.inputs[i]).sigset_index
                        >= 0x8000_0000;
                assert(keys@[i] is None);
                assert(keys_view(keys@)[i] is None);
            }
        }
        self.to_sign_with_keys(&keys)
    }

    /// The messages that a signatory is to sign, given its key for each input.
    pub fn to_sign_with_keys(&self, keys: &Vec<Option<Pubkey>>) -> (msgs: Result<
        Vec<([u8; 32], u32)>,
        CheckpointError,
    >)
        requires
            self.0.wf(),
            keys@.len() == self.0@.inputs.len(),
        ensures
            match to_sign(self.0@.inputs, keys_view(keys@)) {
                Ok(model) => msgs matches Ok(m) && messages_view(m@) == model,
                Err(e) => msgs == Err::<Vec<([u8; 32], u32)>, CheckpointError>(e),
            },
    {
        let ghost inputs = self.0@.inputs;
        let ghost model = keys_view(keys@);
        let mut msgs: Vec<([u8; 32], u32)> = Vec::new();
        assert(messages_view(msgs@) =~= Seq::empty());
        let mut i: usize = 0;
        while i < self.0.inputs.len()
            invariant
                i <= self.0.inputs.len(),
                self.0.wf(),
                keys@.len() == inputs.len(),
                inputs == self.0@.inputs,
                model == keys_view(keys@),
                forall|j: int| 0 <= j < i ==> (#[trigger] model[j]) is Some,
                messages_view(msgs@) == messages(inputs, model, i as int),
            decreases self.0.inputs.len() - i,
        {
            let ghost before = msgs@;
            match keys[i] {
                Some(key) => {
                    if self.0.inputs[i].sigs.needs_sig(key) {
                        msgs.push((self.0.inputs[i].sigs.message(), self.0.inputs[i].sigset_index));
                        assert(messages_view(msgs@) =~= messages_view(before).push(
                            (inputs[i as int].sigs.message, inputs[i as int].sigset_index),
                        ));
                    }
                },
                None => {
                    assert(model[i as int] is None);
                    return Err(CheckpointError::KeyDerivation);
                },
            }
            i += 1;
        }
        Ok(msgs)
    }
}

impl Checkpoint {
    /// Whether the signatures do not run out before all inputs that wait for one have
    /// got one, and the count of signed inputs fits in 16 bits, given the signatory's
    /// key for each input.
    pub fn signatures_fit(&self, keys: &Vec<Option<Pubkey>>, sigs: &Vec<Signature>) -> (fit: bool)
        requires
            self.wf(),
            keys@.len() == self@.inputs.len(),
        ensures
            fit == self@.signatures_fit(keys_view(keys@), sigs_view(sigs@)),
    {
        let ghost inputs = self@.inputs;
        let ghost k = keys_view(keys@);
        let ghost s = sigs_view(sigs@);
        let mut used: usize = 0;
        let mut newly_done: usize = 0;
        let mut i: usize = 0;
        while i < self.inputs.len()
            invariant
                i <= self.inputs.len(),
                self.wf(),
                inputs == self@.inputs,
                k == keys_view(keys@),
                s == sigs_view(sigs@),
                keys@.len() == inputs.len(),
                sign_run(inputs, k, s, i as int).stop is None,
                used == sign_run(inputs, k, s, i as int).used,
                used <= i,
                newly_done == sign_run(inputs, k, s, i as int).newly_done,
                newly_done <= i,
            ensures
                sign_all(inputs, k, s).stop != Some(SignStop::RanOut),
                newly_done == sign_all(inputs, k, s).newly_done,
            decreases self.inputs.len() - i,
        {
            let ghost next = sign_run(inputs, k, s, i + 1);
            proof {
                lemma_sign_run(inputs, k, s, i as int);
                if next.stop is Some {
                    lemma_sign_stops(inputs, k, s, i + 1, inputs.len() as int);
                }
                assert(k[i as int] == keys_view(keys@)[i as int]);
            }
            let input: &Input = &self.inputs[i];
            assert(input@ == inputs[i as int]);
            match keys[i] {
                Some(key) => {
                    if input.sigs.contains_key(key) {
                        if input.sigs.done() {
                            used += 1;
                        } else if used > sigs.len() {
                            break;
                        } else if used == sigs.len() {
                            return false;
                        } else {
                            let mut signed: ThresholdSig = input.sigs.clone();
                            assert(s[used as int] == sigs@[used as int]@);
                            match signed.sign(key, sigs[used]) {
                                Ok(()) => {},
                                Err(_) => {
                                    break;
                                },
                            }
                            used += 1;
                            if signed.done() {
                                newly_done += 1;
                            }
                        }
                    }
                },
                None => {
                    break;
                },
            }
            i += 1;
        }
        newly_done <= (u16::MAX - self.signed_inputs) as usize
    }
}

impl<'a> SigningCheckpointMut<'a> {
    /// Takes in a signatory's signatures, one for each input that the signatory has a
    /// share in, in order.
    pub fn sign(&mut self, xpub: Xpub, sigs: Vec<Signature>) -> (result: Result<(), CheckpointError>)
        requires
            (*old(self).0).wf(),
            (*old(self).0)@.can_sign(xpub, sigs_view(sigs@)),
        ensures
            (*final(self).0).wf(),
            ({
                let run = sign_all(
                    (*old(self).0)@.inputs,
                    input_keys(xpub@, (*old(self).0)@.inputs),
                    sigs_view(sigs@),
                );
                &&& (*final(self).0)@ == (*old(self).0)@.signed(run)
                &&& result == run.result(sigs_view(sigs@))
            }),
            (*old(self).0)@.differs_in_signatures((*final(self).0)@),
            !derivable((*old(self).0)@.inputs) ==> result is Err,
            refused_at_once((*old(self).0)@.inputs) ==> {
                &&& result == Err::<(), CheckpointError>(CheckpointError::KeyDerivation)
                &&& (*final(self).0)@ == (*old(self).0)@
            },
            *final(final(self).0) == *final(old(self).0),
    {
        let keys: Vec<Option<Pubkey>> = derive_keys(&xpub, &self.0.inputs);
        proof {
            let inputs = self.0@.inputs;
            let k = keys_view(keys@);
            let s = sigs_view(sigs@);
            assert(sign_all(inputs, k, s) == sign_all(inputs, input_keys(xpub@, inputs), s));
            if !derivable(inputs) {
                let i = choose|i: int|
                    0 <= i < inputs.len() && (#[trigger] inputs[i]).sigset_index >= 0x8000_0000;
                assert(keys@[i] is None);
                assert(k[i] is None);
                lemma_sign_needs_keys(inputs, k, s, i);
            }
            if refused_at_once(inputs) {
                assert(keys@[0] is None);
                lemma_refused_at_once(inputs, k, s);
            }
        }
        self.sign_with_keys(&keys, &sigs)
    }

    /// Takes in a signatory's signatures, given the signatory's key for each input.
    pub fn sign_with_keys(&mut self, keys: &Vec<Option<Pubkey>>, sigs: &Vec<Signature>) -> (result: Result<
        (),
        CheckpointError,
    >)
        requires
            (*old(self).0).wf(),
            keys@.len() == (*old(self).0)@.inputs.len(),
            (*old(self).0)@.signatures_fit(keys_view(keys@), sigs_view(sigs@)),
        ensures
            (*final(self).0).wf(),
            ({
                let run = sign_all((*old(self).0)@.inputs, keys_view(keys@), sigs_view(sigs@));
                &&& (*final(self).0)@ == (*old(self).0)@.signed(run)
                &&& result == run.result(sigs_view(sigs@))
            }),
            (*old(self).0)@.differs_in_signatures((*final(self).0)@),
            *final(final(self).0) == *final(old(self).0),
    {
        let ghost before = self.0@;
        let ghost inputs = before.inputs;
        let ghost k = keys_view(keys@);
        let ghost s = sigs_view(sigs@);
        proof {
            lemma_sign_keeps_inputs(inputs, k, s, inputs.len() as int);
        }
        let mut sig_index: usize = 0;
        let mut i: usize = 0;
        while i < self.0.inputs.len()
            invariant
                i <= self.0.inputs@.len(),
                self.0.inputs@.len() == inputs.len(),
                before == (*old(self).0)@,
                inputs == before.inputs,
                self.0.wf(),
                k == keys_view(keys@),
                s == sigs_view(sigs@),
                keys@.len() == inputs.len(),
                before.signatures_fit(k, s),
                before.differs_in_signatures(before.signed(sign_all(inputs, k, s))),
                sign_run(inputs, k, s, i as int).stop is None,
                sig_index == sign_run(inputs, k, s, i as int).used,
                sig_index <= i,
                self.0@ == before.signed(sign_run(inputs, k, s, i as int)),
                *final(self.0) == *final(old(self).0),
            decreases self.0.inputs.len() - i,
        {
            let ghost run = sign_run(inputs, k, s, i as int);
            let ghost next = sign_run(inputs, k, s, i + 1);
            proof {
                lemma_sign_run(inputs, k, s, i as int);
                lemma_sign_run(inputs, k, s, i + 1);
                lemma_sign_counts(inputs, k, s, i + 1, inputs.len() as int);
                if next.stop is Some {
                    lemma_sign_stops(inputs, k, s, i + 1, inputs.len() as int);
                }
                assert(k[i as int] == keys_view(keys@)[i as int]);
                assert(self.0.inputs@[i as int]@ == run.inputs[i as int]);
            }
            match keys[i] {
                Some(key) => {
                    if self.0.inputs[i].sigs.contains_key(key) {
                        if self.0.inputs[i].sigs.done() {
                            sig_index += 1;
                        } else {
                            if sig_index > sigs.len() {
                                return Err(CheckpointError::NotEnoughSignatures);
                            }
                            let sig: Signature = sigs[sig_index];
                            assert(s[sig_index as int] == sig@);
                            sig_index += 1;
                            match self.0.inputs[i].sigs.sign(key, sig) {
                                Ok(()) => {},
                                Err(e) => {
                                    assert(self.0@.inputs =~= run.inputs);
                                    return Err(e);
                                },
                            }
                            assert(self.0@.inputs =~= next.inputs);
                            if self.0.inputs[i].sigs.done() {
                                self.0.signed_inputs = self.0.signed_inputs + 1;
                            }
                        }
                    }
                },
                None => {
                    return Err(CheckpointError::KeyDerivation);
                },
            }
            i += 1;
        }
        if sig_index != sigs.len() {
            return Err(CheckpointError::ExcessSignatures);
        }
        Ok(())
    }

    /// Whether all inputs have enough signatures.
    pub fn done(&self) -> (done: bool)
        ensures
            done == ((*old(self.0))@.signed_inputs == (*old(self.0))@.inputs.len()),
    {
        self.0.signed_inputs as u64 == self.0.inputs.len() as u64
    }

    /// Marks the checkpoint as signed.
    pub fn advance(self) -> (result: Result<(), CheckpointError>)
        ensures
            (*final(self.0))@ == (CheckpointView {
                status: CheckpointStatus::Complete,
                ..(*old(self.0))@
            }),
            (*old(self.0)).wf() ==> (*final(self.0)).wf(),
            result is Ok,
    {
        let checkpoint = self.0;
        checkpoint.status = CheckpointStatus::Complete;
        Ok(())
    }
}

impl Checkpoint {
    /// Whether a signatory's signatures can be taken in.
    pub fn can_sign(&self, xpub: &Xpub, sigs: &Vec<Signature>) -> (can: bool)
        requires
            self.wf(),
        ensures
            can == self@.can_sign(*xpub, sigs_view(sigs@)),
    {
        if self.inputs.len() > 0 {
            assert(self.inputs@[0]@ == self@.inputs[0]);
            if self.inputs[0].sigset_index >= 0x8000_0000 {
                return true;
            }
            if xpub.bytes[4] == 255 {
                return false;
            }
        }
        let keys: Vec<Option<Pubkey>> = derive_keys(xpub, &self.inputs);
        proof {
            let inputs = self@.inputs;
            let k = keys_view(keys@);
            let s = sigs_view(sigs@);
            assert(sign_all(inputs, k, s) == sign_all(inputs, input_keys(xpub@, inputs), s));
        }
        self.signatures_fit(&keys, sigs)
    }
}

impl InputView {
    /// The input as it would be if nobody had signed it.
    pub open spec fn without_signatures(self) -> InputView {
        InputView {
            sigs: ThresholdSigView {
                shares: Seq::new(
                    self.sigs.shares.len(),
                    |i: int| ShareView { sig: None, ..self.sigs.shares[i] },
                ),
                ..self.sigs
            },
            ..self
        }
    }
}

impl CheckpointView {
    /// Whether `after` is the checkpoint, but for signatures and the count of signed
    /// inputs.
    pub open spec fn differs_in_signatures(self, after: CheckpointView) -> bool {
        &&& after.status == self.status
        &&& after.outputs == self.outputs
        &&& after.sigset == self.sigset
        &&& after.inputs.len() == self.inputs.len()
        &&& forall|i: int|
            0 <= i < self.inputs.len() ==> (#[trigger] after.inputs[i]).without_signatures()
                == self.inputs[i].without_signatures()
    }

    /// Whether the signatures do not run out, and the count of signed inputs fits in
    /// 16 bits, given the signatory's key for each input.
    pub open spec fn signatures_fit(self, keys: Seq<Option<Seq<u8>>>, sigs: Seq<Seq<u8>>) -> bool {
        let run = sign_all(self.inputs, keys, sigs);
        &&& run.stop != Some(SignStop::RanOut)
        &&& self.signed_inputs + run.newly_done <= u16::MAX
    }

    /// Whether a signatory's signatures can be taken in: keys can be derived from the
    /// signatory's, and the signatures fit. Where the first input is refused at once
    /// nothing has to hold of them.
    pub open spec fn can_sign(self, xpub: Xpub, sigs: Seq<Seq<u8>>) -> bool {
        refused_at_once(self.inputs) || {
            &&& can_derive(xpub, self.inputs)
            &&& self.signatures_fit(input_keys(xpub@, self.inputs), sigs)
        }
    }

    /// The checkpoint once signatures have been taken in.
    pub open spec fn signed(self, run: SignRun) -> CheckpointView {
        CheckpointView {
            inputs: run.inputs,
            signed_inputs: (self.signed_inputs + run.newly_done) as u16,
            ..self
        }
    }
}

} // verus!
