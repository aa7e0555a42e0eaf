//! How the queue moves on in time: when a checkpoint is closed, and what the next
//! one takes over.
use vstd::prelude::*;

use crate::building::BuildingCheckpointMut;
use crate::checkpoint::{Checkpoint, CheckpointView};
use crate::error::CheckpointError;
use crate::input::InputView;
use crate::keys::Address;
use crate::outside::transaction_id;
use crate::queue::{CheckpointQueue, QueueView, MAX_CHECKPOINT_INTERVAL, MIN_CHECKPOINT_INTERVAL};
use crate::signatory::{Scripts, SignatorySet, SignatorySetView};
use crate::tx::OutPointView;

verus! {

impl CheckpointView {
    /// Where the closed checkpoint's transaction holds the reserve.
    pub open spec fn reserve_outpoint(self) -> OutPointView {
        OutPointView { txid: transaction_id(self.signing_tx().stripped()), vout: 0 }
    }

    /// The input with which the next checkpoint takes over the reserve.
    pub open spec fn reserve_input(self) -> InputView {
        InputView::unsigned(
            self.reserve_outpoint(),
            self.sigset,
            self.sigset.reserve_scripts()->Ok_0,
            Address::null_bytes(),
            self.reserve_value() as u64,
        )
    }

    /// The checkpoint that follows: it takes over the reserve, and the inputs and
    /// outputs that did not fit.
    pub open spec fn successor(self, sigset: SignatorySetView) -> CheckpointView {
        CheckpointView {
            inputs: seq![self.reserve_input()] + self.excess_inputs(),
            outputs: self.excess_outputs(),
            ..CheckpointView::empty(sigset)
        }
    }
}

/// The contents of what came of building a signatory set.
pub open spec fn sigset_view(sigset: Result<SignatorySet, CheckpointError>) -> Result<
    SignatorySetView,
    CheckpointError,
> {
    match sigset {
        Ok(s) => Ok(s@),
        Err(e) => Err(e),
    }
}

impl QueueView {
    /// The checkpoint that is being built.
    pub open spec fn building(self) -> CheckpointView {
        self.queue.last()
    }

    /// Whether the checkpoint that is being built has something to move, besides
    /// the reserve that all checkpoints but the first one start with.
    pub open spec fn pending(self) -> bool {
        ||| self.building().inputs.len() > if self.index == 0 {
            0int
        } else {
            1
        }
        ||| self.building().outputs.len() > 0
    }

    /// Whether the checkpoint that is being built has been so for long enough: for
    /// the shorter interval where something is pending, else for the longer one,
    /// which never ends for the first checkpoint.
    pub open spec fn due(self, now: u64) -> bool {
        let elapsed = now - self.building().sigset.create_time;
        &&& elapsed >= MIN_CHECKPOINT_INTERVAL
        &&& self.pending() || elapsed >= MAX_CHECKPOINT_INTERVAL && self.index > 0
    }

    /// Whether it is time for a new checkpoint.
    pub open spec fn ready(self, now: Option<u64>) -> Result<bool, CheckpointError> {
        if self.has_signing() {
            Ok(false)
        } else if self.queue.len() == 0 {
            Ok(true)
        } else {
            match now {
                Some(seconds) => Ok(self.due(seconds)),
                None => Err(CheckpointError::NoTimeContext),
            }
        }
    }

    /// The signatory set that a new checkpoint is started for, if one is.
    pub open spec fn starts(
        self,
        now: Option<u64>,
        sigset: Result<SignatorySetView, CheckpointError>,
    ) -> Option<SignatorySetView> {
        match (self.ready(now), sigset) {
            (Ok(true), Ok(s)) if s.usable() => Some(s),
            _ => None,
        }
    }

    /// The queue with the last checkpoint replaced by two.
    pub open spec fn split_last(self, closed: CheckpointView, next: CheckpointView) -> QueueView {
        QueueView {
            queue: self.queue.drop_last().push(closed).push(next),
            index: (self.index + 1) as u32,
        }
    }

    /// The queue after a step, and what the step returns.
    pub open spec fn step(
        self,
        now: Option<u64>,
        sigset: Result<SignatorySetView, CheckpointError>,
    ) -> (QueueView, Result<(), CheckpointError>) {
        match self.starts(now, sigset) {
            Some(s) => if self.queue.len() == 0 {
                (
                    self.pushed(s),
                    if self.index == 0 {
                        Ok(())
                    } else {
                        Err(CheckpointError::IndexOutOfBounds)
                    },
                )
            } else {
                match (self.building().closing(), self.building().sigset.reserve_scripts()) {
                    (Ok(()), Ok(_)) => (
                        self.split_last(self.building().advanced(), self.building().successor(s)),
                        Ok(()),
                    ),
                    (Ok(()), Err(e)) => (
                        self.split_last(self.building().advanced(), CheckpointView::empty(s)),
                        Err(e),
                    ),
                    (Err(e), _) => (
                        self.split_last(self.building().stopped(), CheckpointView::empty(s)),
                        Err(e),
                    ),
                }
            },
            None => (
                self,
                match (self.ready(now), sigset) {
                    (Err(e), _) => Err(e),
                    (Ok(true), Err(e)) => Err(e),
                    _ => Ok(()),
                },
            ),
        }
    }

    /// Whether the numbers that a step works with fit: time has not gone back, there
    /// is an index for a new checkpoint, and what it closes covers its fee.
    pub open spec fn can_step(
        self,
        now: Option<u64>,
        sigset: Result<SignatorySetView, CheckpointError>,
    ) -> bool {
        &&& !self.has_signing() && self.queue.len() > 0 && now is Some ==> now->Some_0
            >= self.building().sigset.create_time
        &&& self.starts(now, sigset) is Some && self.queue.len() > 0 ==> {
            &&& self.index + 2 <= u32::MAX
            &&& self.building().can_advance()
            &&& self.building().closing() is Ok && self.building().sigset.reserve_scripts() is Ok
                ==> self.building().sigset.est_witness_vsize + 40 <= u64::MAX
        }
    }
}

impl CheckpointQueue {
    /// Whether it is time for a new checkpoint.
    pub fn ready(&self, now: Option<u64>) -> (ready: Result<bool, CheckpointError>)
        requires
            self.wf(),
            !self@.has_signing() && self@.queue.len() > 0 && now is Some ==> now->Some_0
                >= self@.building().sigset.create_time,
        ensures
            ready == self@.ready(now),
    {
        match self.signing() {
            Ok(Some(_)) => {
                return Ok(false);
            },
            Ok(None) => {},
            Err(e) => {
                return Err(e);
            },
        }
        if !self.is_empty() {
            let now: u64 = match now {
                Some(seconds) => seconds,
                None => {
                    return Err(CheckpointError::NoTimeContext);
                },
            };
            let building: &Checkpoint = match self.building() {
                Ok(building) => building.0,
                Err(e) => {
                    return Err(e);
                },
            };
            let elapsed: u64 = now - building.create_time();
            if elapsed < MIN_CHECKPOINT_INTERVAL {
                return Ok(false);
            }
            if elapsed < MAX_CHECKPOINT_INTERVAL || self.index() == 0 {
                let has_pending_deposit: bool = if self.index() == 0 {
                    building.inputs.len() > 0
                } else {
                    building.inputs.len() > 1
                };
                let has_pending_withdrawal: bool = building.outputs.len() > 0;
                if !has_pending_deposit && !has_pending_withdrawal {
                    return Ok(false);
                }
            }
        }
        Ok(true)
    }

    /// Closes the checkpoint that is being built and starts the next one, if it is
    /// time to. `now` is the time of the block, and `sigset` what came of building
    /// the signatory set for the next checkpoint.
    pub fn maybe_step(
        &mut self,
        now: Option<u64>,
        sigset: Result<SignatorySet, CheckpointError>,
    ) -> (result: Result<(), CheckpointError>)
        requires
            old(self).wf(),
            sigset matches Ok(s) ==> s@.wf(),
            old(self)@.can_step(now, sigset_view(sigset)),
        ensures
            final(self).wf(),
            (final(self)@, result) == old(self)@.step(now, sigset_view(sigset)),
    {
        let ghost view = self@;
        match self.ready(now) {
            Ok(true) => {},
            Ok(false) => {
                return Ok(());
            },
            Err(e) => {
                return Err(e);
            },
        }
        let ghost set = sigset_view(sigset);
        match self.maybe_push(sigset) {
            Ok(Some(_)) => {},
            Ok(None) => {
                return Ok(());
            },
            Err(e) => {
                return Err(e);
            },
        }
        let ghost pushed = view.pushed(set->Ok_0);
        assert(self@ =~= pushed);
        if self.index() > 0 {
            let index: u32 = self.index() - 1;
            let second: &mut Checkpoint = match self.get_mut(index) {
                Ok(second) => second,
                Err(e) => {
                    return Err(e);
                },
            };
            assert(second@ == view.building());
            let sigset: SignatorySet = second.sigset.clone();
            let (reserve_outpoint, reserve_value, mut excess_inputs, mut excess_outputs) =
                match BuildingCheckpointMut(second).advance() {
                Ok(advanced) => advanced,
                Err(e) => {
                    assert(self@ =~= view.step(now, set).0);
                    return Err(e);
                },
            };
            let mut building: BuildingCheckpointMut = match self.building_mut() {
                Ok(building) => building,
                Err(e) => {
                    return Err(e);
                },
            };
            let scripts: Result<Scripts, CheckpointError> = sigset.reserve_scripts();
            match building.push_input(
                reserve_outpoint,
                &sigset,
                scripts,
                Address::null(),
                reserve_value,
            ) {
                Ok(_) => {},
                Err(e) => {
                    assert(self@ =~= view.step(now, set).0);
                    return Err(e);
                },
            }
            building.0.inputs.append(&mut excess_inputs);
            building.0.outputs.append(&mut excess_outputs);
            assert(building.0@ =~= view.building().successor(set->Ok_0));
        }
        assert(self@ =~= view.step(now, set).0);
        Ok(())
    }

    /// Whether the numbers that a step works with fit.
    pub fn can_step(&self, now: Option<u64>, sigset: &Result<SignatorySet, CheckpointError>) -> (can: bool)
        requires
            self.wf(),
        ensures
            can == self@.can_step(now, sigset_view(*sigset)),
    {
        match self.signing() {
            Ok(None) => {},
            _ => {
                return true;
            },
        }
        let building: &Checkpoint = match self.building() {
            Ok(building) => building.0,
            Err(_) => {
                return true;
            },
        };
        if let Some(seconds) = now {
            if seconds < building.create_time() {
                return false;
            }
        }
        let starts: bool = match (self.ready(now), sigset) {
            (Ok(true), Ok(s)) => s.possible_vp != 0 && s.has_quorum,
            _ => false,
        };
        if !starts {
            return true;
        }
        if self.index() >= u32::MAX - 1 {
            return false;
        }
        if !building.can_advance() {
            return false;
        }
        if building.sigset.est_witness_vsize <= u64::MAX - 40 {
            return true;
        }
        building.closing_fails() || building.sigset.reserve_scripts().is_err()
    }

    /// Makes a step as `maybe_step` does, where the numbers that it works with fit.
    /// Where they do not, nothing is changed and there is no result.
    pub fn try_maybe_step(
        &mut self,
        now: Option<u64>,
        sigset: Result<SignatorySet, CheckpointError>,
    ) -> (result: Option<Result<(), CheckpointError>>)
        requires
            old(self).wf(),
            sigset matches Ok(s) ==> s@.wf(),
        ensures
            final(self).wf(),
            if old(self)@.can_step(now, sigset_view(sigset)) {
                &&& result matches Some(r)
                &&& (final(self)@, r) == old(self)@.step(now, sigset_view(sigset))
            } else {
                &&& result is None
                &&& *final(self) == *old(self)
            },
    {
        if self.can_step(now, &sigset) {
            Some(self.maybe_step(now, sigset))
        } else {
            None
        }
    }
}

} // verus!
