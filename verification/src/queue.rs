//! The queue of checkpoints: those that are signed, at most one that is being
//! signed, and the one that is being built.
use vstd::prelude::*;

use crate::building::{BuildingCheckpoint, BuildingCheckpointMut};
use crate::checkpoint::{Checkpoint, CheckpointStatus, CheckpointView};
use crate::error::CheckpointError;
use crate::keys::{Signature, Xpub};
use crate::signatory::{SignatorySet, SignatorySetView};
use crate::signing::{
    can_derive,
    derivable,
    input_keys,
    messages_view,
    refused_at_once,
    sign_all,
    sigs_view,
    to_sign,
    CompletedCheckpoint,
    SigningCheckpoint,
    SigningCheckpointMut,
};
use crate::tx::{Transaction, TransactionView};

verus! {

/// The seconds that a checkpoint is built for at the least.
pub const MIN_CHECKPOINT_INTERVAL: u64 = 60 * 5;

/// The seconds after which a checkpoint is closed though nothing is pending.
pub const MAX_CHECKPOINT_INTERVAL: u64 = 60 * 60 * 8;

/// A queue of checkpoints. The last one has the index of the queue, and each has an
/// index one above that of the one before it.
#[derive(Debug)]
pub struct CheckpointQueue {
    queue: Vec<Checkpoint>,
    index: u32,
}

/// What a `CheckpointQueue` stands for.
#[verifier::ext_equal]
pub struct QueueView {
    pub queue: Seq<CheckpointView>,
    pub index: u32,
}

impl View for CheckpointQueue {
    type V = QueueView;

    closed spec fn view(&self) -> QueueView {
        QueueView {
            queue: Seq::new(self.queue@.len(), |i: int| self.queue@[i]@),
            index: self.index,
        }
    }
}

impl SignatorySetView {
    /// Whether the set can take over the reserve.
    pub open spec fn usable(self) -> bool {
        self.possible_vp != 0 && self.has_quorum
    }
}

impl QueueView {
    /// The index of the first checkpoint.
    pub open spec fn start(self) -> int {
        self.index + 1 - self.queue.len()
    }

    /// Whether a checkpoint has the index.
    pub open spec fn contains(self, index: u32) -> bool {
        self.start() <= index <= self.index
    }

    /// The checkpoint with the index.
    pub open spec fn at(self, index: u32) -> CheckpointView {
        self.queue[index - self.start()]
    }

    /// The queue with the checkpoint at the index replaced.
    pub open spec fn with(self, index: u32, checkpoint: CheckpointView) -> QueueView {
        QueueView { queue: self.queue.update(index - self.start(), checkpoint), ..self }
    }

    /// No checkpoint is left out behind the first, and the index of the next one
    /// fits in 32 bits.
    pub open spec fn wf(self) -> bool {
        self.queue.len() <= self.index + 1 <= u32::MAX
    }

    /// Whether a checkpoint is being signed: the one before the last.
    pub open spec fn has_signing(self) -> bool {
        &&& self.queue.len() >= 2
        &&& self.at((self.index - 1) as u32).status == CheckpointStatus::Signing
    }

    /// The checkpoint that is being signed.
    pub open spec fn signing(self) -> CheckpointView {
        self.at((self.index - 1) as u32)
    }

    /// The queue with the checkpoint that is being signed replaced.
    pub open spec fn with_signing(self, checkpoint: CheckpointView) -> QueueView {
        self.with((self.index - 1) as u32, checkpoint)
    }

    /// The queue with a new checkpoint for `sigset`.
    pub open spec fn pushed(self, sigset: SignatorySetView) -> QueueView {
        QueueView {
            queue: self.queue.push(CheckpointView::empty(sigset)),
            index: self.next_index(),
        }
    }

    /// The index that a new checkpoint would get.
    pub open spec fn next_index(self) -> u32 {
        if self.queue.len() == 0 {
            self.index
        } else {
            (self.index + 1) as u32
        }
    }

    /// How many checkpoints at the front of the queue are signed.
    pub open spec fn completed(self) -> nat {
        self.completed_from(0)
    }

    /// How many checkpoints from the position on are signed, without a gap.
    pub open spec fn completed_from(self, i: int) -> nat
        decreases self.queue.len() - i,
    {
        if 0 <= i < self.queue.len() && self.queue[i].status == CheckpointStatus::Complete {
            1 + self.completed_from(i + 1)
        } else {
            0
        }
    }

    /// The index of the last checkpoint that is signed, as far as the index of the
    /// queue tells.
    pub open spec fn last_completed_index(self) -> Option<u32> {
        let behind: int = if self.has_signing() {
            2
        } else {
            1
        };
        if self.index < behind {
            None
        } else {
            Some((self.index - behind) as u32)
        }
    }

    /// The transaction of the last checkpoint that is signed.
    pub open spec fn last_completed_tx(self) -> Result<TransactionView, CheckpointError> {
        match self.last_completed_index() {
            Some(index) => if self.contains(index) {
                self.at(index).tx()
            } else {
                Err(CheckpointError::IndexOutOfBounds)
            },
            None => Err(CheckpointError::NoCompletedCheckpoints),
        }
    }

    /// The transactions of the signed checkpoints at the front of the queue.
    pub open spec fn completed_txs(self) -> Result<Seq<TransactionView>, CheckpointError> {
        if forall|i: int| 0 <= i < self.completed() ==> (#[trigger] self.queue[i]).tx() is Ok {
            Ok(Seq::new(self.completed(), |i: int| self.queue[i].tx()->Ok_0))
        } else {
            Err(CheckpointError::MalformedSignature)
        }
    }

    /// The queue after a signatory's signatures have been taken in, and what the
    /// signatory is told: the transaction, if it is complete now.
    pub open spec fn sign(self, xpub: Seq<u8>, sigs: Seq<Seq<u8>>) -> (
        QueueView,
        Result<Option<TransactionView>, CheckpointError>,
    ) {
        if !self.has_signing() {
            (self, Err(CheckpointError::NoCheckpointToSign))
        } else {
            let before = self.signing();
            let run = sign_all(before.inputs, input_keys(xpub, before.inputs), sigs);
            let signed = before.signed(run);
            match run.result(sigs) {
                Err(e) => (self.with_signing(signed), Err(e)),
                Ok(()) => if signed.signed_inputs != signed.inputs.len() {
                    (self.with_signing(signed), Ok(None))
                } else {
                    match signed.tx() {
                        Err(e) => (self.with_signing(signed), Err(e)),
                        Ok(tx) => (
                            self.with_signing(
                                CheckpointView { status: CheckpointStatus::Complete, ..signed },
                            ),
                            Ok(Some(tx)),
                        ),
                    }
                },
            }
        }
    }

    /// Whether a signatory's signatures can be taken in.
    pub open spec fn can_sign(self, xpub: Xpub, sigs: Seq<Seq<u8>>) -> bool {
        self.has_signing() ==> self.signing().can_sign(xpub, sigs)
    }
}

/// The contents of a list of transactions.
pub open spec fn transactions_view(txs: Seq<Transaction>) -> Seq<TransactionView> {
    Seq::new(txs.len(), |i: int| txs[i]@)
}

impl CheckpointQueue {
    /// The indices are in order, and all checkpoints are well formed.
    pub closed spec fn wf(&self) -> bool {
        &&& self@.wf()
        &&& forall|i: int| 0 <= i < self.queue@.len() ==> (#[trigger] self.queue@[i]).wf()
    }

    /// A well-formed queue stands for one whose indices are in order, and whose signatory
    /// sets and threshold signatures are well formed.
    pub proof fn lemma_wf(&self)
        requires
            self.wf(),
        ensures
            self@.wf(),
            forall|i: int|
                0 <= i < self@.queue.len() ==> (#[trigger] self@.queue[i]).sigset.wf(),
            forall|i: int, j: int|
                0 <= i < self@.queue.len() && 0 <= j < self@.queue[i].inputs.len() ==> (
                #[trigger] self@.queue[i].inputs[j]).sigs.wf(),
    {
        assert forall|i: int| 0 <= i < self@.queue.len() implies (
        #[trigger] self@.queue[i]).sigset.wf() by {
            assert(self.queue@[i].wf());
        }
        assert forall|i: int, j: int|
            0 <= i < self@.queue.len() && 0 <= j < self@.queue[i].inputs.len() implies (
        #[trigger] self@.queue[i].inputs[j]).sigs.wf() by {
            assert(self.queue@[i].wf());
            assert(self.queue@[i].inputs@[j].wf());
            self.queue@[i].inputs@[j].sigs.lemma_wf();
        }
    }

    /// A queue without checkpoints.
    pub fn new() -> (queue: CheckpointQueue)
        ensures
            queue.wf(),
            queue@ == (QueueView { queue: Seq::empty(), index: 0 }),
    {
        let queue = CheckpointQueue { queue: Vec::new(), index: 0 };
        assert(queue@.queue =~= Seq::empty());
        queue
    }

    /// A queue of given checkpoints, the last of which has the index.
    pub fn from_parts(checkpoints: Vec<Checkpoint>, index: u32) -> (queue: CheckpointQueue)
        requires
            checkpoints@.len() <= index + 1 <= u32::MAX,
            forall|i: int| 0 <= i < checkpoints@.len() ==> (#[trigger] checkpoints@[i]).wf(),
        ensures
            queue.wf(),
            queue@.index == index,
            queue@.queue == Seq::new(checkpoints@.len(), |i: int| checkpoints@[i]@),
    {
        CheckpointQueue { queue: checkpoints, index }
    }

    /// The position of the checkpoint with the index.
    fn get_deque_index(&self, index: u32) -> (position: Result<u32, CheckpointError>)
        requires
            self@.wf(),
        ensures
            match position {
                Ok(p) => self@.contains(index) && p == index - self@.start(),
                Err(e) => !self@.contains(index) && e == CheckpointError::IndexOutOfBounds,
            },
    {
        let start: u32 = self.index + 1 - (self.queue.len() as u32);
        if index > self.index || index < start {
            Err(CheckpointError::IndexOutOfBounds)
        } else {
            Ok(index - start)
        }
    }

    /// The checkpoint with the index.
    pub fn get(&self, index: u32) -> (checkpoint: Result<&Checkpoint, CheckpointError>)
        requires
            self.wf(),
        ensures
            match checkpoint {
                Ok(c) => self@.contains(index) && c@ == self@.at(index) && c.wf(),
                Err(e) => !self@.contains(index) && e == CheckpointError::IndexOutOfBounds,
            },
    {
        match self.get_deque_index(index) {
            Ok(position) => Ok(&self.queue[position as usize]),
            Err(e) => Err(e),
        }
    }

    /// The checkpoint with the index, to be changed.
    pub fn get_mut(&mut self, index: u32) -> (checkpoint: Result<&mut Checkpoint, CheckpointError>)
        requires
            old(self).wf(),
        ensures
            match checkpoint {
                Ok(c) => {
                    &&& old(self)@.contains(index)
                    &&& (*c)@ == old(self)@.at(index)
                    &&& (*c).wf()
                    &&& final(self)@ == old(self)@.with(index, (*final(c))@)
                    &&& (*final(c)).wf() ==> final(self).wf()
                },
                Err(e) => {
                    &&& !old(self)@.contains(index)
                    &&& e == CheckpointError::IndexOutOfBounds
                    &&& *final(self) == *old(self)
                },
            },
    {
        match self.get_deque_index(index) {
            Ok(position) => Ok(&mut self.queue[position as usize]),
            Err(e) => Err(e),
        }
    }

    /// How many checkpoints the queue holds.
    pub fn len(&self) -> (len: Result<u32, CheckpointError>)
        ensures
            match len {
                Ok(n) => n == self@.queue.len(),
                Err(e) => self@.queue.len() > u32::MAX && e == CheckpointError::LengthOverflow,
            },
    {
        if self.queue.len() > u32::MAX as usize {
            Err(CheckpointError::LengthOverflow)
        } else {
            Ok(self.queue.len() as u32)
        }
    }

    /// The index of the last checkpoint.
    pub fn index(&self) -> (index: u32)
        ensures
            index == self@.index,
    {
        self.index
    }

    /// All checkpoints with their indices, the last one first.
    pub fn all(&self) -> (checkpoints: Result<Vec<(u32, &Checkpoint)>, CheckpointError>)
        requires
            self.wf(),
            self@.queue.len() == 0 || self@.start() == 0,
        ensures
            checkpoints matches Ok(c) && {
                &&& c@.len() == self@.queue.len()
                &&& forall|i: int|
                    0 <= i < c@.len() ==> {
                        &&& (#[trigger] c@[i]).0 == self@.index - i
                        &&& c@[i].1@ == self@.at(c@[i].0)
                        &&& c@[i].1.wf()
                    }
            },
    {
        let mut out: Vec<(u32, &Checkpoint)> = Vec::with_capacity(self.queue.len());
        let mut i: usize = 0;
        while i < self.queue.len()
            invariant
                i <= self.queue.len(),
                self.wf(),
                self@.queue.len() == 0 || self@.start() == 0,
                out@.len() == i,
                forall|j: int|
                    0 <= j < i ==> {
                        &&& (#[trigger] out@[j]).0 == self@.index - j
                        &&& out@[j].1@ == self@.at(out@[j].0)
                        &&& out@[j].1.wf()
                    },
            decreases self.queue.len() - i,
        {
            let index: u32 = self.index - (i as u32);
            out.push((index, &self.queue[index as usize]));
            i += 1;
        }
        Ok(out)
    }

    /// The signed checkpoints at the front of the queue.
    pub fn completed(&self) -> (checkpoints: Result<Vec<CompletedCheckpoint<'_>>, CheckpointError>)
        requires
            self.wf(),
        ensures
            checkpoints matches Ok(c) && {
                &&& c@.len() == self@.completed()
                &&& forall|i: int|
                    0 <= i < c@.len() ==> (#[trigger] c@[i]).0@ == self@.queue[i] && c@[i].0.wf()
            },
    {
        let mut out: Vec<CompletedCheckpoint> = Vec::new();
        let mut i: usize = 0;
        while i < self.queue.len()
            invariant
                i <= self.queue.len(),
                self.wf(),
                out@.len() == i,
                forall|j: int| 0 <= j < i ==> (#[trigger] self@.queue[j]).status == CheckpointStatus::Complete,
                forall|j: int|
                    0 <= j < i ==> (#[trigger] out@[j]).0@ == self@.queue[j] && out@[j].0.wf(),
            decreases self.queue.len() - i,
        {
            let checkpoint: &Checkpoint = &self.queue[i];
            match checkpoint.status {
                CheckpointStatus::Complete => {},
                _ => {
                    proof {
                        lemma_completed(self@, i as int);
                    }
                    return Ok(out);
                },
            }
            out.push(CompletedCheckpoint(checkpoint));
            i += 1;
        }
        proof {
            lemma_completed(self@, i as int);
        }
        Ok(out)
    }

    /// The checkpoint that is being signed, if there is one.
    pub fn signing(&self) -> (signing: Result<Option<SigningCheckpoint<'_>>, CheckpointError>)
        requires
            self.wf(),
        ensures
            match signing {
                Ok(Some(s)) => self@.has_signing() && s.0@ == self@.signing() && s.0.wf(),
                Ok(None) => !self@.has_signing(),
                Err(_) => false,
            },
    {
        if self.queue.len() < 2 {
            return Ok(None);
        }
        let second: &Checkpoint = match self.get(self.index - 1) {
            Ok(second) => second,
            Err(e) => {
                return Err(e);
            },
        };
        match second.status {
            CheckpointStatus::Signing => Ok(Some(SigningCheckpoint(second))),
            _ => Ok(None),
        }
    }

    /// The checkpoint that is being signed, if there is one, to be changed.
    pub fn signing_mut(&mut self) -> (signing: Result<
        Option<SigningCheckpointMut<'_>>,
        CheckpointError,
    >)
        requires
            old(self).wf(),
        ensures
            match signing {
                Ok(Some(s)) => {
                    &&& old(self)@.has_signing()
                    &&& (*s.0)@ == old(self)@.signing()
                    &&& (*s.0).wf()
                    &&& final(self)@ == old(self)@.with_signing((*final(s.0))@)
                    &&& (*final(s.0)).wf() ==> final(self).wf()
                },
                Ok(None) => !old(self)@.has_signing() && final(self)@ == old(self)@ && final(self).wf(),
                Err(_) => false,
            },
    {
        if self.queue.len() < 2 {
            return Ok(None);
        }
        let index: u32 = self.index - 1;
        let second: &mut Checkpoint = match self.get_mut(index) {
            Ok(second) => second,
            Err(e) => {
                return Err(e);
            },
        };
        match second.status {
            CheckpointStatus::Signing => Ok(Some(SigningCheckpointMut(second))),
            _ => {
                proof {
                    let view = old(self)@;
                    assert(view.with(index, view.at(index)) =~= view);
                }
                Ok(None)
            },
        }
    }

    /// The checkpoint that is being built.
    pub fn building(&self) -> (building: Result<BuildingCheckpoint<'_>, CheckpointError>)
        requires
            self.wf(),
        ensures
            match building {
                Ok(b) => self@.queue.len() > 0 && b.0@ == self@.at(self@.index) && b.0.wf(),
                Err(e) => self@.queue.len() == 0 && e == CheckpointError::IndexOutOfBounds,
            },
    {
        match self.get(self.index) {
            Ok(last) => Ok(BuildingCheckpoint(last)),
            Err(e) => Err(e),
        }
    }

    /// The checkpoint that is being built, to be changed.
    pub fn building_mut(&mut self) -> (building: Result<BuildingCheckpointMut<'_>, CheckpointError>)
        requires
            old(self).wf(),
        ensures
            match building {
                Ok(b) => {
                    &&& old(self)@.queue.len() > 0
                    &&& (*b.0)@ == old(self)@.at(old(self)@.index)
                    &&& (*b.0).wf()
                    &&& final(self)@ == old(self)@.with(old(self)@.index, (*final(b.0))@)
                    &&& (*final(b.0)).wf() ==> final(self).wf()
                },
                Err(e) => {
                    &&& old(self)@.queue.len() == 0
                    &&& e == CheckpointError::IndexOutOfBounds
                    &&& *final(self) == *old(self)
                },
            },
    {
        let index: u32 = self.index;
        match self.get_mut(index) {
            Ok(last) => Ok(BuildingCheckpointMut(last)),
            Err(e) => Err(e),
        }
    }

    /// Whether the queue holds no checkpoint.
    pub fn is_empty(&self) -> (empty: bool)
        ensures
            empty == (self@.queue.len() == 0),
    {
        self.queue.len() == 0
    }

    /// The index that a new checkpoint would get, which its signatory set is to be made
    /// for.
    pub fn next_index(&self) -> (index: u32)
        requires
            self.wf(),
        ensures
            index == self@.next_index(),
    {
        let mut index: u32 = self.index;
        if !self.is_empty() {
            index = index + 1;
        }
        index
    }

    /// Starts a new checkpoint for `sigset`, if it can take over the reserve. A new
    /// checkpoint behind another one gets the next index.
    pub(crate) fn maybe_push(&mut self, sigset: Result<SignatorySet, CheckpointError>) -> (building: Result<
        Option<BuildingCheckpointMut<'_>>,
        CheckpointError,
    >)
        requires
            old(self).wf(),
            sigset matches Ok(s) ==> s@.wf(),
            sigset matches Ok(s) && s@.usable() && old(self)@.queue.len() > 0 ==> old(self)@.index + 2
                <= u32::MAX,
        ensures
            match sigset {
                Ok(s) => if s@.usable() {
                    &&& building matches Ok(Some(b))
                    &&& (*b.0)@ == CheckpointView::empty(s@)
                    &&& (*b.0).wf()
                    &&& final(self)@ == old(self)@.pushed(s@).with(
                        old(self)@.pushed(s@).index,
                        (*final(b.0))@,
                    )
                    &&& (*final(b.0)).wf() ==> final(self).wf()
                } else {
                    &&& building matches Ok(None)
                    &&& *final(self) == *old(self)
                },
                Err(e) => {
                    &&& building matches Err(x)
                    &&& x == e
                    &&& *final(self) == *old(self)
                },
            },
    {
        let index: u32 = self.next_index();
        let sigset: SignatorySet = match sigset {
            Ok(sigset) => sigset,
            Err(e) => {
                return Err(e);
            },
        };
        if sigset.possible_vp == 0 {
            return Ok(None);
        }
        if !sigset.has_quorum {
            return Ok(None);
        }
        self.index = index;
        self.queue.push(Checkpoint::new(sigset));
        assert(self@ =~= old(self)@.pushed(sigset@));
        match self.building_mut() {
            Ok(building) => Ok(Some(building)),
            Err(e) => Err(e),
        }
    }

    /// The signatory set of the checkpoint that is being built.
    pub fn active_sigset(&self) -> (sigset: Result<SignatorySet, CheckpointError>)
        requires
            self.wf(),
        ensures
            match sigset {
                Ok(s) => self@.queue.len() > 0 && s@ == self@.at(self@.index).sigset,
                Err(e) => self@.queue.len() == 0 && e == CheckpointError::IndexOutOfBounds,
            },
    {
        match self.building() {
            Ok(building) => Ok(building.0.sigset.clone()),
            Err(e) => Err(e),
        }
    }

    /// The signatory set of the checkpoint with the index.
    pub fn sigset(&self, index: u32) -> (sigset: Result<SignatorySet, CheckpointError>)
        requires
            self.wf(),
        ensures
            match sigset {
                Ok(s) => self@.contains(index) && s@ == self@.at(index).sigset,
                Err(e) => !self@.contains(index) && e == CheckpointError::IndexOutOfBounds,
            },
    {
        match self.get(index) {
            Ok(checkpoint) => Ok(checkpoint.sigset.clone()),
            Err(e) => Err(e),
        }
    }
}

impl CheckpointQueue {
    /// The transaction of the last checkpoint that is signed: the one before that
    /// which is being built and, if there is one, that which is being signed.
    pub fn last_completed_tx(&self) -> (tx: Result<Transaction, CheckpointError>)
        requires
            self.wf(),
        ensures
            match self@.last_completed_tx() {
                Ok(model) => tx matches Ok(t) && t@ == model,
                Err(e) => tx == Err::<Transaction, CheckpointError>(e),
            },
    {
        let behind: u32 = match self.signing() {
            Ok(Some(_)) => 2,
            Ok(None) => 1,
            Err(e) => {
                return Err(e);
            },
        };
        if self.index < behind {
            return Err(CheckpointError::NoCompletedCheckpoints);
        }
        match self.get(self.index - behind) {
            Ok(checkpoint) => checkpoint.transaction(),
            Err(e) => Err(e),
        }
    }

    /// The transactions of the signed checkpoints at the front of the queue.
    pub fn completed_txs(&self) -> (txs: Result<Vec<Transaction>, CheckpointError>)
        requires
            self.wf(),
        ensures
            match self@.completed_txs() {
                Ok(model) => txs matches Ok(t) && transactions_view(t@) == model,
                Err(e) => txs == Err::<Vec<Transaction>, CheckpointError>(e),
            },
    {
        let completed: Vec<CompletedCheckpoint> = match self.completed() {
            Ok(completed) => completed,
            Err(e) => {
                return Err(e);
            },
        };
        proof {
            lemma_completed_bound(self@, 0);
        }
        let mut txs: Vec<Transaction> = Vec::new();
        let mut i: usize = 0;
        while i < completed.len()
            invariant
                i <= completed.len(),
                completed@.len() == self@.completed(),
                forall|j: int|
                    0 <= j < completed@.len() ==> (#[trigger] completed@[j]).0@ == self@.queue[j]
                        && completed@[j].0.wf(),
                txs@.len() == i,
                forall|j: int|
                    0 <= j < i ==> (#[trigger] self@.queue[j]).tx() is Ok && txs@[j]@
                        == self@.queue[j].tx()->Ok_0,
            decreases completed.len() - i,
        {
            match completed[i].0.transaction() {
                Ok(tx) => {
                    assert(self@.queue[i as int].tx() is Ok);
                    txs.push(tx);
                },
                Err(e) => {
                    assert(self@.queue[i as int].tx() is Err);
                    return Err(e);
                },
            }
            i += 1;
        }
        assert(transactions_view(txs@) =~= self@.completed_txs()->Ok_0);
        Ok(txs)
    }

    /// The messages that a signatory is to sign in the checkpoint that is being
    /// signed.
    pub fn to_sign(&self, xpub: Xpub) -> (msgs: Result<Vec<([u8; 32], u32)>, CheckpointError>)
        requires
            self.wf(),
            self@.has_signing() ==> can_derive(xpub, self@.signing().inputs),
        ensures
            if self@.has_signing() {
                match to_sign(
                    self@.signing().inputs,
                    input_keys(xpub@, self@.signing().inputs),
                ) {
                    Ok(model) => msgs matches Ok(m) && messages_view(m@) == model,
                    Err(e) => msgs == Err::<Vec<([u8; 32], u32)>, CheckpointError>(e),
                }
            } else {
                msgs == Err::<Vec<([u8; 32], u32)>, CheckpointError>(
                    CheckpointError::NoCheckpointToSign,
                )
            },
            self@.has_signing() && !derivable(self@.signing().inputs) ==> msgs == Err::<
                Vec<([u8; 32], u32)>,
                CheckpointError,
            >(CheckpointError::KeyDerivation),
    {
        match self.signing() {
            Ok(Some(signing)) => signing.to_sign(xpub),
            Ok(None) => Err(CheckpointError::NoCheckpointToSign),
            Err(e) => Err(e),
        }
    }

    /// Takes in a signatory's signatures for the checkpoint that is being signed.
    /// With the last one that it needs the checkpoint is complete, and its
    /// transaction is handed out.
    pub fn sign(&mut self, xpub: Xpub, sigs: Vec<Signature>) -> (result: Result<
        Option<Transaction>,
        CheckpointError,
    >)
        requires
            old(self).wf(),
            old(self)@.can_sign(xpub, sigs_view(sigs@)),
        ensures
            final(self).wf(),
            ({
                let (queue, model) = old(self)@.sign(xpub@, sigs_view(sigs@));
                &&& final(self)@ == queue
                &&& match model {
                    Ok(Some(tx)) => result matches Ok(Some(t)) && t@ == tx,
                    Ok(None) => result matches Ok(None),
                    Err(e) => result == Err::<Option<Transaction>, CheckpointError>(e),
                }
            }),
            old(self)@.has_signing() && !derivable(old(self)@.signing().inputs) ==> result is Err,
            old(self)@.has_signing() && refused_at_once(old(self)@.signing().inputs) ==> {
                &&& result == Err::<Option<Transaction>, CheckpointError>(
                    CheckpointError::KeyDerivation,
                )
                &&& final(self)@ == old(self)@
            },
    {
        let mut signing: SigningCheckpointMut = match self.signing_mut() {
            Ok(Some(signing)) => signing,
            Ok(None) => {
                return Err(CheckpointError::NoCheckpointToSign);
            },
            Err(e) => {
                return Err(e);
            },
        };
        match signing.sign(xpub, sigs) {
            Ok(()) => {},
            Err(e) => {
                return Err(e);
            },
        }
        if signing.done() {
            let tx: Transaction = match signing.0.transaction() {
                Ok(tx) => tx,
                Err(e) => {
                    return Err(e);
                },
            };
            match signing.advance() {
                Ok(()) => {},
                Err(e) => {
                    return Err(e);
                },
            }
            return Ok(Some(tx));
        }
        Ok(None)
    }

    /// Takes in a signatory's signatures as `sign` does, unless they run out or a
    /// count does not fit. Where they do, nothing is changed and there is no result.
    pub fn try_sign(&mut self, xpub: Xpub, sigs: Vec<Signature>) -> (result: Option<
        Result<Option<Transaction>, CheckpointError>,
    >)
        requires
            old(self).wf(),
        ensures
            final(self).wf(),
            if old(self)@.can_sign(xpub, sigs_view(sigs@)) {
                let (queue, model) = old(self)@.sign(xpub@, sigs_view(sigs@));
                &&& final(self)@ == queue
                &&& match model {
                    Ok(Some(tx)) => result matches Some(Ok(Some(t))) && t@ == tx,
                    Ok(None) => result matches Some(Ok(None)),
                    Err(e) => result == Some(Err::<Option<Transaction>, CheckpointError>(e)),
                }
            } else {
                &&& result is None
                &&& *final(self) == *old(self)
            },
            old(self)@.has_signing() && !derivable(old(self)@.signing().inputs) && result is Some
                ==> result->Some_0 is Err,
            old(self)@.has_signing() && refused_at_once(old(self)@.signing().inputs) ==> {
                &&& result == Some(
                    Err::<Option<Transaction>, CheckpointError>(CheckpointError::KeyDerivation),
                )
                &&& final(self)@ == old(self)@
            },
    {
        if let Ok(Some(signing)) = self.signing() {
            if !signing.0.can_sign(&xpub, &sigs) {
                return None;
            }
        }
        Some(self.sign(xpub, sigs))
    }
}

/// No more checkpoints are signed than there are.
pub(crate) proof fn lemma_completed_bound(view: QueueView, i: int)
    requires
        0 <= i <= view.queue.len(),
    ensures
        view.completed_from(i) <= view.queue.len() - i,
    decreases view.queue.len() - i,
{
    if i < view.queue.len() {
        lemma_completed_bound(view, i + 1);
    }
}

/// The checkpoints that are counted are signed, and the one behind them is not.
pub(crate) proof fn lemma_completed_stop(view: QueueView, i: int)
    requires
        0 <= i <= view.queue.len(),
    ensures
        forall|j: int|
            i <= j < i + view.completed_from(i) ==> (#[trigger] view.queue[j]).status
                == CheckpointStatus::Complete,
        i + view.completed_from(i) < view.queue.len() ==> view.queue[i + view.completed_from(
            i,
        )].status != CheckpointStatus::Complete,
    decreases view.queue.len() - i,
{
    if i < view.queue.len() && view.queue[i].status == CheckpointStatus::Complete {
        lemma_completed_stop(view, i + 1);
    }
}

/// The count of signed checkpoints ends at the first one that is not.
pub(crate) proof fn lemma_completed(view: QueueView, n: int)
    requires
        0 <= n <= view.queue.len(),
        forall|i: int| 0 <= i < n ==> (#[trigger] view.queue[i]).status == CheckpointStatus::Complete,
        n == view.queue.len() || view.queue[n].status != CheckpointStatus::Complete,
    ensures
        view.completed() == n,
{
    lemma_completed_from(view, 0, n);
}

/// The count of signed checkpoints from the position on.
proof fn lemma_completed_from(view: QueueView, i: int, n: int)
    requires
        0 <= i <= n <= view.queue.len(),
        forall|j: int| 0 <= j < n ==> (#[trigger] view.queue[j]).status == CheckpointStatus::Complete,
        n == view.queue.len() || view.queue[n].status != CheckpointStatus::Complete,
    ensures
        view.completed_from(i) == n - i,
    decreases n - i,
{
    if i < n {
        assert(view.queue[i].status == CheckpointStatus::Complete);
        lemma_completed_from(view, i + 1, n);
    }
}

} // verus!
