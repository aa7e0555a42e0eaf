use bitcoin::secp256k1::{Message, PublicKey, Secp256k1};
use bitcoin::util::bip32::{ChildNumber, ExtendedPrivKey, ExtendedPubKey};
use bitcoin::Network;
use checkpoint::{
    Address, BuildingCheckpointMut, Checkpoint, CheckpointError, CheckpointQueue, CheckpointStatus,
    OutPoint, Pubkey, Scripts, Signatory, SignatorySet, Signature, SigningCheckpoint,
    SigningCheckpointMut, TxOut, Xpub, MAX_CHECKPOINT_INTERVAL, MIN_CHECKPOINT_INTERVAL,
};

/// A signatory's extended key.
fn master(n: u8) -> ExtendedPrivKey {
    ExtendedPrivKey::new_master(Network::Testnet, &[n; 32]).unwrap()
}

fn xpub(n: u8) -> Xpub {
    let secp = Secp256k1::new();
    Xpub { bytes: ExtendedPubKey::from_priv(&secp, &master(n)).encode() }
}

fn child(n: u8, index: u32) -> ExtendedPrivKey {
    let secp = Secp256k1::new();
    let path = [ChildNumber::from_normal_idx(index).unwrap()];
    master(n).derive_priv(&secp, &path).unwrap()
}

fn pubkey(n: u8, index: u32) -> Pubkey {
    let secp = Secp256k1::new();
    Pubkey { bytes: PublicKey::from_secret_key(&secp, &child(n, index).private_key).serialize() }
}

fn sign(n: u8, index: u32, message: [u8; 32]) -> Signature {
    let secp = Secp256k1::new();
    let message = Message::from_slice(&message).unwrap();
    let sig = secp.sign_ecdsa(&message, &child(n, index).private_key);
    Signature { bytes: sig.serialize_compact() }
}

/// The signatures for all messages that a signatory is asked to sign.
fn sign_all(queue: &CheckpointQueue, n: u8) -> Vec<Signature> {
    let messages = queue.to_sign(xpub(n)).unwrap();
    messages.iter().map(|(message, index)| sign(n, *index, *message)).collect()
}

/// A set of two signatories, both of whom have to sign.
fn sigset(index: u32, create_time: u64) -> SignatorySet {
    SignatorySet {
        index,
        create_time,
        possible_vp: 30,
        has_quorum: true,
        signature_threshold: 20,
        est_witness_vsize: 100,
        signatories: vec![
            Signatory { voting_power: 10, pubkey: pubkey(1, index) },
            Signatory { voting_power: 20, pubkey: pubkey(2, index) },
        ],
        reserve_output_script: Ok(vec![7; 34]),
        reserve_redeem_script: Ok(vec![8; 70]),
    }
}

fn scripts() -> Scripts {
    Scripts { output_script: vec![5; 34], redeem_script: vec![6; 90] }
}

fn deposit(queue: &mut CheckpointQueue, n: u8, amount: u64) {
    let set = queue.active_sigset().unwrap();
    let prevout = OutPoint { txid: [n; 32], vout: 1 };
    let mut building = queue.building_mut().unwrap();
    building.push_input(prevout, &set, Ok(scripts()), Address { bytes: [n; 20] }, amount).unwrap();
}

fn withdraw(queue: &mut CheckpointQueue, value: u64) {
    let output = TxOut { value, script_pubkey: vec![4; 22] };
    queue.building_mut().unwrap().0.outputs.push(output);
}

/// A queue whose first checkpoint, made at 1000 seconds, holds a deposit.
fn started() -> CheckpointQueue {
    let mut queue = CheckpointQueue::new();
    assert_eq!(queue.maybe_step(None, Ok(sigset(0, 1_000))), Ok(()));
    deposit(&mut queue, 9, 50_000);
    queue
}

/// A queue whose first checkpoint is being signed.
fn signing() -> CheckpointQueue {
    let mut queue = started();
    assert_eq!(queue.maybe_step(Some(1_300), Ok(sigset(1, 1_300))), Ok(()));
    queue
}

/// A queue whose first checkpoint is complete.
fn completed() -> CheckpointQueue {
    let mut queue = signing();
    for n in [1, 2] {
        let sigs = sign_all(&queue, n);
        queue.sign(xpub(n), sigs).unwrap();
    }
    queue
}

fn show(queue: &CheckpointQueue) -> String {
    format!("{:?}", queue)
}

#[test]
fn new_queue_is_empty() {
    let queue = CheckpointQueue::new();
    assert!(queue.is_empty());
    assert_eq!(queue.len(), Ok(0));
    assert_eq!(queue.index(), 0);
    assert_eq!(queue.next_index(), 0);
    assert_eq!(queue.get(0).err(), Some(CheckpointError::IndexOutOfBounds));
    assert_eq!(queue.building().err(), Some(CheckpointError::IndexOutOfBounds));
    assert_eq!(queue.active_sigset().err(), Some(CheckpointError::IndexOutOfBounds));
    assert!(queue.signing().unwrap().is_none());
    assert_eq!(queue.all().unwrap().len(), 0);
    assert_eq!(queue.completed().unwrap().len(), 0);
    assert_eq!(queue.completed_txs().unwrap().len(), 0);
    assert_eq!(
        queue.last_completed_tx().err(),
        Some(CheckpointError::NoCompletedCheckpoints)
    );
    assert_eq!(queue.to_sign(xpub(1)).err(), Some(CheckpointError::NoCheckpointToSign));
    assert_eq!(queue.ready(None), Ok(true));
}

#[test]
fn first_checkpoint_needs_no_time() {
    let queue = started();
    assert_eq!(queue.len(), Ok(1));
    assert_eq!(queue.index(), 0);
    assert_eq!(queue.next_index(), 1);
    assert_eq!(queue.building().unwrap().0.status, CheckpointStatus::Building);
    assert_eq!(queue.building().unwrap().0.create_time(), 1_000);
    assert_eq!(queue.active_sigset().unwrap().index, 0);
}

#[test]
fn later_checkpoints_need_the_time() {
    let mut queue = started();
    let before = show(&queue);
    assert_eq!(
        queue.maybe_step(None, Ok(sigset(1, 1_300))),
        Err(CheckpointError::NoTimeContext)
    );
    assert_eq!(show(&queue), before);
}

#[test]
fn a_checkpoint_is_built_for_the_shorter_interval() {
    assert_eq!(MIN_CHECKPOINT_INTERVAL, 300);
    let mut queue = started();
    let before = show(&queue);
    assert_eq!(queue.ready(Some(1_299)), Ok(false));
    assert_eq!(queue.maybe_step(Some(1_299), Ok(sigset(1, 1_299))), Ok(()));
    assert_eq!(show(&queue), before);
    assert_eq!(queue.ready(Some(1_300)), Ok(true));
    assert_eq!(queue.maybe_step(Some(1_300), Ok(sigset(1, 1_300))), Ok(()));
    assert_eq!(queue.len(), Ok(2));
    assert_eq!(queue.index(), 1);
}

#[test]
fn the_first_checkpoint_waits_for_something_to_move() {
    let mut queue = CheckpointQueue::new();
    queue.maybe_step(None, Ok(sigset(0, 1_000))).unwrap();
    assert_eq!(queue.ready(Some(1_000_000)), Ok(false));
    withdraw(&mut queue, 5);
    assert_eq!(queue.ready(Some(1_000_000)), Ok(true));
}

#[test]
fn later_checkpoints_wait_for_the_longer_interval_at_most() {
    assert_eq!(MAX_CHECKPOINT_INTERVAL, 28_800);
    let mut queue = completed();
    assert_eq!(queue.building().unwrap().0.inputs.len(), 1);
    assert_eq!(queue.ready(Some(1_300 + 28_799)), Ok(false));
    assert_eq!(queue.ready(Some(1_300 + 28_800)), Ok(true));
    deposit(&mut queue, 3, 1_000);
    assert_eq!(queue.ready(Some(1_300 + 299)), Ok(false));
    assert_eq!(queue.ready(Some(1_300 + 300)), Ok(true));
}

#[test]
fn nothing_is_started_for_an_unusable_set() {
    let mut queue = started();
    let before = show(&queue);
    let powerless = SignatorySet { possible_vp: 0, ..sigset(1, 1_300) };
    assert_eq!(queue.maybe_step(Some(1_300), Ok(powerless)), Ok(()));
    assert_eq!(show(&queue), before);
    let few = SignatorySet { has_quorum: false, ..sigset(1, 1_300) };
    assert_eq!(queue.maybe_step(Some(1_300), Ok(few)), Ok(()));
    assert_eq!(show(&queue), before);
    assert_eq!(
        queue.maybe_step(Some(1_300), Err(CheckpointError::SignatorySet)),
        Err(CheckpointError::SignatorySet)
    );
    assert_eq!(show(&queue), before);
    // before it is time, the set is not looked at
    assert_eq!(queue.maybe_step(Some(1_299), Err(CheckpointError::SignatorySet)), Ok(()));
}

#[test]
fn the_next_checkpoint_takes_over_the_reserve() {
    let mut queue = started();
    withdraw(&mut queue, 700);
    queue.maybe_step(Some(1_300), Ok(sigset(1, 1_300))).unwrap();
    let closed = queue.get(0).unwrap();
    let building = queue.building().unwrap().0;
    assert_eq!(closed.status, CheckpointStatus::Signing);
    assert_eq!(closed.outputs.len(), 2);
    // 4 + 1 + 41 + 1 + 43 + 31 + 4 for the encoding, 100 for the witness
    let fee = 225;
    assert_eq!(closed.outputs[0].value, 50_000 - 700 - fee);
    assert_eq!(closed.outputs[0].script_pubkey, vec![7; 34]);
    assert_eq!(building.inputs.len(), 1);
    assert_eq!(building.outputs.len(), 0);
    let reserve = &building.inputs[0];
    assert_eq!(reserve.amount, closed.outputs[0].value);
    assert_eq!(reserve.script_pubkey, vec![7; 34]);
    assert_eq!(reserve.redeem_script, vec![8; 70]);
    assert_eq!(reserve.dest.bytes, [0; 20]);
    assert_eq!(reserve.sigset_index, 0);
    assert_eq!(reserve.prevout.vout, 0);
    assert!(reserve.sigs.contains_key(pubkey(1, 0)));
    assert!(!reserve.sigs.contains_key(pubkey(1, 1)));
    assert_ne!(reserve.prevout.txid, [0; 32]);
    assert_eq!(building.sigset.index, 1);
}

#[test]
fn what_does_not_fit_moves_to_the_next_checkpoint() {
    let mut queue = started();
    for n in 0..41u8 {
        deposit(&mut queue, 100 + n, 20_000 + n as u64);
    }
    for n in 0..201u64 {
        withdraw(&mut queue, n);
    }
    queue.maybe_step(Some(1_300), Ok(sigset(1, 1_300))).unwrap();
    let closed = queue.get(0).unwrap();
    assert_eq!(closed.inputs.len(), 40);
    assert_eq!(closed.outputs.len(), 200);
    let building = queue.building().unwrap().0;
    let amounts: Vec<u64> = building.inputs.iter().map(|i| i.amount).collect();
    assert_eq!(amounts, vec![closed.outputs[0].value, 20_040, 20_039]);
    let values: Vec<u64> = building.outputs.iter().map(|o| o.value).collect();
    assert_eq!(values, vec![200, 199]);

    // no coin is lost: 50000 and 41 deposits came in
    let came_in: u64 = 50_000 + (0..41).map(|n| 20_000 + n).sum::<u64>();
    let paid: u64 = (0..199).sum();
    let fee = 4 + 1 + 40 * 41 + 1 + 43 + 199 * 31 + 4 + 40 * 100;
    assert_eq!(came_in, amounts.iter().sum::<u64>() + paid + fee);
}

#[test]
fn a_step_waits_for_signatures() {
    let mut queue = signing();
    deposit(&mut queue, 4, 1_000);
    let before = show(&queue);
    assert_eq!(queue.ready(None), Ok(false));
    assert_eq!(queue.maybe_step(Some(1_000_000), Ok(sigset(2, 1_000_000))), Ok(()));
    assert_eq!(show(&queue), before);
}

#[test]
fn signatories_are_asked_for_their_messages() {
    let queue = signing();
    let message = queue.get(0).unwrap().inputs[0].sigs.message();
    assert_ne!(message, [0; 32]);
    assert_eq!(queue.to_sign(xpub(1)).unwrap(), vec![(message, 0)]);
    assert_eq!(queue.to_sign(xpub(2)).unwrap(), vec![(message, 0)]);
    assert_eq!(queue.to_sign(xpub(3)).unwrap(), vec![]);
}

#[test]
fn enough_signatures_complete_a_checkpoint() {
    let mut queue = signing();
    let sigs = sign_all(&queue, 1);
    assert!(matches!(queue.sign(xpub(1), sigs), Ok(None)));
    assert_eq!(queue.get(0).unwrap().signed_inputs, 0);
    assert_eq!(queue.get(0).unwrap().status, CheckpointStatus::Signing);
    assert_eq!(queue.to_sign(xpub(1)).unwrap(), vec![]);

    let sigs = sign_all(&queue, 2);
    let tx = queue.sign(xpub(2), sigs).unwrap().unwrap();
    let closed = queue.get(0).unwrap();
    assert_eq!(closed.signed_inputs, 1);
    assert_eq!(closed.status, CheckpointStatus::Complete);
    assert_eq!(tx.input[0].witness.len(), 3);
    assert_eq!(tx.input[0].witness[2], vec![6; 90]);
    assert_eq!(format!("{:?}", queue.last_completed_tx().unwrap()), format!("{:?}", tx));
    assert_eq!(format!("{:?}", queue.completed_txs().unwrap()), format!("[{:?}]", tx));
    assert!(queue.signing().unwrap().is_none());
    assert_eq!(queue.completed().unwrap().len(), 1);
    assert_eq!(
        queue.sign(xpub(2), vec![]).err(),
        Some(CheckpointError::NoCheckpointToSign)
    );
}

#[test]
fn the_reserve_moves_through_many_checkpoints() {
    let mut queue = completed();
    for round in 2..5u32 {
        let now = round as u64 * 100_000;
        let before = queue.get(round - 1).unwrap().inputs[0].amount;
        queue.maybe_step(Some(now), Ok(sigset(round, now))).unwrap();
        let sigs = sign_all(&queue, 2);
        // the second signatory alone does not exceed the threshold
        assert!(matches!(queue.sign(xpub(2), sigs), Ok(None)));
        let sigs = sign_all(&queue, 1);
        assert!(matches!(queue.sign(xpub(1), sigs), Ok(Some(_))));
        // 4 + 1 + 41 + 1 + 43 + 4 for the encoding, 100 for the witness
        assert_eq!(queue.building().unwrap().0.inputs[0].amount, before - 194);
    }
    assert_eq!(queue.len(), Ok(5));
    assert_eq!(queue.index(), 4);
    assert_eq!(queue.completed().unwrap().len(), 4);
    let indices: Vec<u32> = queue.all().unwrap().iter().map(|(index, _)| *index).collect();
    assert_eq!(indices, vec![4, 3, 2, 1, 0]);
    for (index, checkpoint) in queue.all().unwrap() {
        assert_eq!(checkpoint.sigset.index, index);
        assert_eq!(queue.sigset(index).unwrap().index, index);
    }
    for (a, b) in queue.completed_txs().unwrap().iter().zip(1..5) {
        let next = queue.get(b).unwrap();
        assert_eq!(next.inputs[0].amount, a.output[0].value);
    }
}

#[test]
fn signatures_do_not_change_the_id() {
    let queue = completed();
    let tx = queue.last_completed_tx().unwrap();
    let signed = bitcoin::Transaction {
        version: tx.version,
        lock_time: tx.lock_time,
        input: tx
            .input
            .iter()
            .map(|i| bitcoin::TxIn {
                previous_output: bitcoin::OutPoint {
                    txid: bitcoin::hashes::Hash::from_inner(i.previous_output.txid),
                    vout: i.previous_output.vout,
                },
                script_sig: bitcoin::Script::new(),
                sequence: i.sequence,
                witness: bitcoin::Witness::from_vec(i.witness.clone()),
            })
            .collect(),
        output: tx
            .output
            .iter()
            .map(|o| bitcoin::TxOut {
                value: o.value,
                script_pubkey: o.script_pubkey.clone().into(),
            })
            .collect(),
    };
    let id: [u8; 32] = bitcoin::hashes::Hash::into_inner(signed.txid());
    assert_eq!(queue.building().unwrap().0.inputs[0].prevout.txid, id);
}

#[test]
fn refused_signatures_leave_their_input_alone() {
    let mut queue = signing();
    let before = show(&queue);
    let foreign = vec![sign(2, 0, queue.to_sign(xpub(1)).unwrap()[0].0)];
    assert_eq!(
        queue.sign(xpub(1), foreign).err(),
        Some(CheckpointError::InvalidSignature)
    );
    assert_eq!(show(&queue), before);
    let garbage = vec![Signature { bytes: [0xff; 64] }];
    assert_eq!(
        queue.sign(xpub(1), garbage).err(),
        Some(CheckpointError::InvalidSignature)
    );
    assert_eq!(show(&queue), before);

    let sigs = sign_all(&queue, 1);
    assert!(matches!(queue.sign(xpub(1), sigs.clone()), Ok(None)));
    assert_eq!(queue.sign(xpub(1), sigs).err(), Some(CheckpointError::AlreadySigned));
}

#[test]
fn too_many_signatures_are_taken_in_and_reported() {
    let mut queue = signing();
    let mut sigs = sign_all(&queue, 1);
    sigs.push(sigs[0]);
    assert_eq!(queue.sign(xpub(1), sigs).err(), Some(CheckpointError::ExcessSignatures));
    assert!(!queue.get(0).unwrap().inputs[0].sigs.needs_sig(pubkey(1, 0)));

    // one who has no share has nothing to hand in
    let sig = sign(3, 0, [1; 32]);
    assert_eq!(queue.sign(xpub(3), vec![sig]).err(), Some(CheckpointError::ExcessSignatures));
    assert!(matches!(queue.sign(xpub(3), vec![]), Ok(None)));
}

#[test]
fn inputs_that_others_signed_use_up_signatures() {
    let mut queue = started();
    deposit(&mut queue, 8, 60_000);
    deposit(&mut queue, 7, 70_000);
    queue.maybe_step(Some(1_300), Ok(sigset(1, 1_300))).unwrap();
    let messages = queue.to_sign(xpub(2)).unwrap();
    assert_eq!(messages.len(), 3);
    {
        // the first two inputs have enough signatures without the second signatory
        let checkpoint = queue.get_mut(0).unwrap();
        let enough = Signature { bytes: [1; 64] };
        for i in 0..2 {
            checkpoint.inputs[i].sigs.record(pubkey(1, 0), enough, true).unwrap();
            checkpoint.inputs[i].sigs.record(pubkey(2, 0), enough, true).unwrap();
            checkpoint.signed_inputs += 1;
        }
    }
    // two signatures passed, none handed in
    assert_eq!(
        queue.sign(xpub(2), vec![]).err(),
        Some(CheckpointError::NotEnoughSignatures)
    );
    let sigs: Vec<Signature> = messages.iter().map(|(m, index)| sign(2, *index, *m)).collect();
    assert!(matches!(queue.sign(xpub(2), sigs), Ok(None)));
    assert_eq!(queue.get(0).unwrap().signed_inputs, 2);
    assert!(!queue.get(0).unwrap().inputs[2].sigs.needs_sig(pubkey(2, 0)));
}

#[test]
fn signatures_that_run_out_give_no_result() {
    let mut queue = signing();
    let before = show(&queue);
    assert!(queue.try_sign(xpub(1), vec![]).is_none());
    assert_eq!(show(&queue), before);
    let sigs = sign_all(&queue, 1);
    assert!(matches!(queue.try_sign(xpub(1), sigs), Some(Ok(None))));
    let sigs = sign_all(&queue, 2);
    assert!(matches!(queue.try_sign(xpub(2), sigs), Some(Ok(Some(_)))));
    assert!(matches!(
        queue.try_sign(xpub(2), vec![]),
        Some(Err(CheckpointError::NoCheckpointToSign))
    ));
}

#[test]
fn a_count_that_does_not_fit_gives_no_result() {
    let mut queue = signing();
    let sigs = sign_all(&queue, 1);
    queue.sign(xpub(1), sigs).unwrap();
    queue.get_mut(0).unwrap().signed_inputs = u16::MAX;
    let sigs = sign_all(&queue, 2);
    assert!(queue.try_sign(xpub(2), sigs.clone()).is_none());
    queue.get_mut(0).unwrap().signed_inputs = u16::MAX - 1;
    assert!(matches!(queue.try_sign(xpub(2), sigs), Some(Ok(None))));
    assert_eq!(queue.get(0).unwrap().signed_inputs, u16::MAX);
}

#[test]
fn keys_at_the_greatest_depth_give_no_result() {
    let mut queue = signing();
    let mut deep = xpub(1);
    deep.bytes[4] = 255;
    assert!(queue.try_sign(deep, vec![]).is_none());
}

#[test]
fn an_index_that_no_key_has_is_refused_at_any_depth() {
    let mut queue = started();
    deposit(&mut queue, 8, 60_000);
    queue.maybe_step(Some(1_300), Ok(sigset(1, 1_300))).unwrap();
    queue.get_mut(0).unwrap().inputs[0].sigset_index = 0x8000_0000;
    let before = show(&queue);
    let mut deep = xpub(1);
    deep.bytes[4] = 255;
    for key in [xpub(1), deep] {
        assert_eq!(queue.to_sign(key).err(), Some(CheckpointError::KeyDerivation));
        assert_eq!(queue.sign(key, vec![]).err(), Some(CheckpointError::KeyDerivation));
        assert!(matches!(
            queue.try_sign(key, vec![]),
            Some(Err(CheckpointError::KeyDerivation))
        ));
        assert!(queue.get(0).unwrap().can_sign(&key, &vec![]));
        assert_eq!(show(&queue), before);
    }
}

#[test]
fn signing_keeps_all_but_the_signatures() {
    let mut queue = signing();
    let before = queue.get(0).unwrap().clone();
    let sigs = sign_all(&queue, 1);
    queue.sign(xpub(1), sigs).unwrap();
    let after = queue.get(0).unwrap();
    assert_eq!(after.status, before.status);
    assert_eq!(format!("{:?}", after.outputs), format!("{:?}", before.outputs));
    assert_eq!(format!("{:?}", after.sigset), format!("{:?}", before.sigset));
    assert_eq!(after.inputs.len(), before.inputs.len());
    assert_eq!(after.inputs[0].prevout.txid, before.inputs[0].prevout.txid);
    assert_eq!(after.inputs[0].redeem_script, before.inputs[0].redeem_script);
    assert_eq!(after.inputs[0].amount, before.inputs[0].amount);
    assert_eq!(after.inputs[0].sigs.message(), before.inputs[0].sigs.message());
    assert!(before.inputs[0].sigs.needs_sig(pubkey(1, 0)));
    assert!(!after.inputs[0].sigs.needs_sig(pubkey(1, 0)));
}

#[test]
fn keys_that_cannot_be_derived_are_reported() {
    let mut queue = signing();
    let mut bad = xpub(1);
    bad.bytes[0] = 0;
    assert_eq!(queue.to_sign(bad).err(), Some(CheckpointError::KeyDerivation));
    assert_eq!(queue.sign(bad, vec![]).err(), Some(CheckpointError::KeyDerivation));

    queue.get_mut(0).unwrap().inputs[0].sigset_index = 0x8000_0000;
    assert_eq!(queue.to_sign(xpub(1)).err(), Some(CheckpointError::KeyDerivation));
    assert_eq!(queue.sign(xpub(1), vec![]).err(), Some(CheckpointError::KeyDerivation));
    queue.get_mut(0).unwrap().inputs[0].sigset_index = 0x7fff_ffff;
    assert_eq!(queue.to_sign(xpub(1)), Ok(vec![]));
}

#[test]
fn given_keys_take_the_place_of_derived_ones() {
    let mut queue = signing();
    let message = queue.get(0).unwrap().inputs[0].sigs.message();
    let checkpoint = queue.get_mut(0).unwrap();
    let keys = vec![Some(pubkey(1, 0))];
    assert_eq!(
        SigningCheckpoint(checkpoint).to_sign_with_keys(&keys),
        Ok(vec![(message, 0)])
    );
    assert_eq!(
        SigningCheckpoint(checkpoint).to_sign_with_keys(&vec![None]),
        Err(CheckpointError::KeyDerivation)
    );
    let mut signing = SigningCheckpointMut(checkpoint);
    assert_eq!(
        signing.sign_with_keys(&vec![None], &vec![]),
        Err(CheckpointError::KeyDerivation)
    );
    assert_eq!(signing.sign_with_keys(&keys, &vec![sign(1, 0, message)]), Ok(()));
    assert!(!signing.done());
    let keys = vec![Some(pubkey(2, 0))];
    assert_eq!(signing.sign_with_keys(&keys, &vec![sign(2, 0, message)]), Ok(()));
    assert!(signing.done());
    assert_eq!(signing.advance(), Ok(()));
    assert_eq!(queue.get(0).unwrap().status, CheckpointStatus::Complete);
}

#[test]
fn the_first_inputs_are_signed_before_a_key_fails() {
    let mut queue = started();
    deposit(&mut queue, 8, 60_000);
    queue.maybe_step(Some(1_300), Ok(sigset(1, 1_300))).unwrap();
    let message = queue.get(0).unwrap().inputs[0].sigs.message();
    let mut signing = queue.signing_mut().unwrap().unwrap();
    let keys = vec![Some(pubkey(1, 0)), None];
    assert_eq!(
        signing.sign_with_keys(&keys, &vec![sign(1, 0, message)]),
        Err(CheckpointError::KeyDerivation)
    );
    assert!(!queue.get(0).unwrap().inputs[0].sigs.needs_sig(pubkey(1, 0)));
    assert!(queue.get(0).unwrap().inputs[1].sigs.needs_sig(pubkey(1, 0)));
}

#[test]
fn a_queue_can_start_at_a_later_index() {
    let mut queue =
        CheckpointQueue::from_parts(vec![Checkpoint::new(sigset(7, 500))], 7);
    assert_eq!(queue.index(), 7);
    assert_eq!(queue.next_index(), 8);
    assert_eq!(queue.get(6).err(), Some(CheckpointError::IndexOutOfBounds));
    assert_eq!(queue.get(8).err(), Some(CheckpointError::IndexOutOfBounds));
    assert_eq!(queue.get_mut(8).err(), Some(CheckpointError::IndexOutOfBounds));
    assert_eq!(queue.get(7).unwrap().sigset.index, 7);
    assert_eq!(queue.get_mut(7).unwrap().sigset.index, 7);
    assert_eq!(queue.sigset(6).err(), Some(CheckpointError::IndexOutOfBounds));
    assert_eq!(
        queue.last_completed_tx().err(),
        Some(CheckpointError::IndexOutOfBounds)
    );
    deposit(&mut queue, 1, 10_000);
    deposit(&mut queue, 2, 10_000);
    queue.maybe_step(Some(800), Ok(sigset(8, 800))).unwrap();
    assert_eq!(queue.index(), 8);
    assert_eq!(queue.get(7).unwrap().status, CheckpointStatus::Signing);
}

#[test]
fn a_first_checkpoint_needs_the_first_index() {
    let mut queue = CheckpointQueue::from_parts(vec![], 3);
    assert_eq!(queue.next_index(), 3);
    assert_eq!(
        queue.maybe_step(None, Ok(sigset(3, 0))),
        Err(CheckpointError::IndexOutOfBounds)
    );
    assert_eq!(queue.len(), Ok(1));
    assert_eq!(queue.index(), 3);
}

#[test]
fn a_step_that_does_not_pay_gives_no_result() {
    let mut queue = CheckpointQueue::new();
    assert_eq!(queue.try_maybe_step(None, Ok(sigset(0, 1_000))), Some(Ok(())));
    // 4 + 1 + 41 + 1 + 43 + 4 for the encoding, 100 for the witness
    deposit(&mut queue, 9, 193);
    let before = show(&queue);
    assert_eq!(queue.try_maybe_step(Some(1_300), Ok(sigset(1, 1_300))), None);
    assert_eq!(show(&queue), before);
    // nor does one into the past
    assert_eq!(queue.try_maybe_step(Some(999), Ok(sigset(1, 999))), None);
    assert_eq!(show(&queue), before);
    queue.building_mut().unwrap().0.inputs[0].amount += 1;
    assert_eq!(queue.try_maybe_step(Some(1_300), Ok(sigset(1, 1_300))), Some(Ok(())));
    assert_eq!(queue.building().unwrap().0.inputs[0].amount, 0);
}

#[test]
fn sums_that_do_not_fit_give_no_result() {
    let mut queue = started();
    deposit(&mut queue, 1, u64::MAX);
    assert_eq!(queue.try_maybe_step(Some(1_300), Ok(sigset(1, 1_300))), None);

    let mut queue = started();
    queue.building_mut().unwrap().0.inputs[0].est_witness_vsize = u64::MAX;
    assert_eq!(queue.try_maybe_step(Some(1_300), Ok(sigset(1, 1_300))), None);

    let mut queue = started();
    queue.building_mut().unwrap().0.sigset.est_witness_vsize = u64::MAX;
    assert_eq!(queue.try_maybe_step(Some(1_300), Ok(sigset(1, 1_300))), None);

    let mut full =
        CheckpointQueue::from_parts(vec![Checkpoint::new(sigset(9, 0))], u32::MAX - 1);
    withdraw(&mut full, 0);
    assert_eq!(full.try_maybe_step(Some(300), Ok(sigset(10, 300))), None);
}

#[test]
fn a_missing_script_stops_the_step() {
    let mut queue = started();
    queue.building_mut().unwrap().0.sigset.reserve_output_script = Err(CheckpointError::Script);
    assert!(queue.can_step(Some(1_300), &Ok(sigset(1, 1_300))));
    assert_eq!(
        queue.maybe_step(Some(1_300), Ok(sigset(1, 1_300))),
        Err(CheckpointError::Script)
    );
    assert_eq!(queue.get(0).unwrap().status, CheckpointStatus::Signing);
    assert_eq!(queue.get(0).unwrap().outputs.len(), 0);
    assert_eq!(queue.get(0).unwrap().inputs[0].sigs.message(), [0; 32]);
    assert_eq!(queue.get(1).unwrap().inputs.len(), 0);

    let mut queue = started();
    queue.building_mut().unwrap().0.sigset.reserve_redeem_script = Err(CheckpointError::Script);
    assert_eq!(
        queue.maybe_step(Some(1_300), Ok(sigset(1, 1_300))),
        Err(CheckpointError::Script)
    );
    assert_eq!(queue.get(0).unwrap().status, CheckpointStatus::Signing);
    assert_eq!(queue.get(0).unwrap().outputs[0].value, 50_000 - 194);
    assert_ne!(queue.get(0).unwrap().inputs[0].sigs.message(), [0; 32]);
    assert_eq!(queue.get(1).unwrap().inputs.len(), 0);
}

#[test]
fn signatures_go_to_their_inputs_in_order() {
    let mut queue = started();
    deposit(&mut queue, 8, 60_000);
    deposit(&mut queue, 7, 70_000);
    queue.maybe_step(Some(1_300), Ok(sigset(1, 1_300))).unwrap();
    // the second input is not the signatory's to sign
    let others = checkpoint::ThresholdSig::from_sigset(&sigset(5, 0));
    queue.get_mut(0).unwrap().inputs[1].sigs = others;
    let sigs = sign_all(&queue, 1);
    assert_eq!(sigs.len(), 2);
    let swapped = vec![sigs[1], sigs[0]];
    assert_eq!(
        queue.sign(xpub(1), swapped).err(),
        Some(CheckpointError::InvalidSignature)
    );
    assert!(matches!(queue.sign(xpub(1), sigs), Ok(None)));
    let closed = queue.get(0).unwrap();
    assert!(!closed.inputs[0].sigs.needs_sig(pubkey(1, 0)));
    assert!(closed.inputs[1].sigs.needs_sig(pubkey(1, 5)));
    assert!(!closed.inputs[2].sigs.needs_sig(pubkey(1, 0)));
}

#[test]
fn the_last_completed_transaction_may_be_held_no_more() {
    let queue = completed();
    let tx = format!("{:?}", queue.last_completed_tx().unwrap());
    let first = queue.get(0).unwrap().clone();
    let second = queue.get(1).unwrap().clone();
    let later = CheckpointQueue::from_parts(vec![first, second.clone()], 4);
    assert_eq!(format!("{:?}", later.last_completed_tx().unwrap()), tx);
    let pruned = CheckpointQueue::from_parts(vec![second], 4);
    assert_eq!(
        pruned.last_completed_tx().err(),
        Some(CheckpointError::IndexOutOfBounds)
    );
}

#[test]
fn a_malformed_signature_stops_the_step() {
    let mut queue = started();
    {
        let building = queue.building_mut().unwrap();
        let garbage = Signature { bytes: [0xff; 64] };
        building.0.inputs[0].sigs.record(pubkey(1, 0), garbage, true).unwrap();
        building.0.inputs[0].sigs.record(pubkey(2, 0), garbage, true).unwrap();
    }
    assert_eq!(
        queue.try_maybe_step(Some(1_300), Ok(sigset(1, 1_300))),
        Some(Err(CheckpointError::MalformedSignature))
    );
    assert_eq!(queue.get(0).unwrap().status, CheckpointStatus::Signing);
    assert_eq!(queue.get(1).unwrap().inputs.len(), 0);
}

#[test]
fn building_checkpoints_can_be_closed_by_hand() {
    let mut queue = started();
    let (outpoint, value, inputs, outputs) =
        BuildingCheckpointMut(queue.get_mut(0).unwrap()).advance().unwrap();
    assert_eq!(value, 50_000 - 194);
    assert_eq!(outpoint.vout, 0);
    assert!(inputs.is_empty() && outputs.is_empty());
}
