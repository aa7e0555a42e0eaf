use bitcoin::secp256k1::{ecdsa, Message, PublicKey, Secp256k1, SecretKey};
use checkpoint::{
    Address, BuildingCheckpointMut, Checkpoint, CheckpointError, CheckpointStatus, Input, OutPoint,
    Pubkey, Scripts, Signatory, SignatorySet, Signature, ThresholdSig, TxOut,
};

fn secret(n: u8) -> SecretKey {
    SecretKey::from_slice(&[n; 32]).unwrap()
}

fn pubkey(n: u8) -> Pubkey {
    let secp = Secp256k1::new();
    Pubkey { bytes: PublicKey::from_secret_key(&secp, &secret(n)).serialize() }
}

fn signature(n: u8, message: [u8; 32]) -> Signature {
    let secp = Secp256k1::new();
    let message = Message::from_slice(&message).unwrap();
    Signature { bytes: secp.sign_ecdsa(&message, &secret(n)).serialize_compact() }
}

fn sigset(powers: &[(u8, u64)], threshold: u64) -> SignatorySet {
    SignatorySet {
        index: 3,
        create_time: 1_000,
        possible_vp: 100,
        has_quorum: true,
        signature_threshold: threshold,
        est_witness_vsize: 100,
        signatories: powers
            .iter()
            .map(|(n, power)| Signatory { voting_power: *power, pubkey: pubkey(*n) })
            .collect(),
        reserve_output_script: Ok(vec![7; 34]),
        reserve_redeem_script: Ok(vec![8; 70]),
    }
}

fn outpoint(n: u8) -> OutPoint {
    OutPoint { txid: [n; 32], vout: n as u32 }
}

fn input(set: &SignatorySet, n: u8, amount: u64) -> Input {
    Input {
        prevout: outpoint(n),
        script_pubkey: vec![1, 2],
        redeem_script: vec![3, 4, 5],
        sigset_index: set.index,
        dest: Address { bytes: [9; 20] },
        amount,
        est_witness_vsize: set.est_witness_vsize,
        sigs: ThresholdSig::from_sigset(set),
    }
}

#[test]
fn null_address_is_all_zeros() {
    assert_eq!(Address::null().bytes, [0u8; 20]);
}

#[test]
fn keys_are_compared_byte_by_byte() {
    assert!(pubkey(1).same(&pubkey(1)));
    assert!(!pubkey(1).same(&pubkey(2)));
    let mut last = pubkey(1);
    last.bytes[32] ^= 1;
    assert!(!pubkey(1).same(&last));
}

#[test]
fn errors_have_texts() {
    assert_eq!(CheckpointError::NotEnoughSignatures.message(), "Not enough signatures supplied");
    assert_eq!(CheckpointError::ExcessSignatures.message(), "Excess signatures supplied");
    assert_eq!(CheckpointError::IndexOutOfBounds.message(), "Index out of bounds");
    assert_eq!(CheckpointError::NoCompletedCheckpoints.message(), "No completed checkpoints yet");
    assert_eq!(CheckpointError::NoTimeContext.message(), "No time context");
    assert_eq!(CheckpointError::NoCheckpointToSign.message(), "No checkpoint to be signed");
    assert_eq!(CheckpointError::LengthOverflow.message(), "Length does not fit in 32 bits");
    assert_eq!(CheckpointError::KeyDerivation.message(), "Signatory key could not be derived");
    assert_eq!(CheckpointError::Sighash.message(), "Signature hash could not be computed");
    assert_eq!(CheckpointError::MalformedSignature.message(), "Malformed signature");
    assert_eq!(
        CheckpointError::UnknownSigner.message(),
        "Key is not part of the threshold signature"
    );
    assert_eq!(CheckpointError::AlreadySigned.message(), "Key has already signed");
    assert_eq!(CheckpointError::InvalidSignature.message(), "Invalid signature");
    assert_eq!(CheckpointError::SignatorySet.message(), "Signatory set could not be built");
    assert_eq!(CheckpointError::Script.message(), "Script could not be built");
}

#[test]
fn signatory_sets_list_no_key_twice() {
    assert!(sigset(&[], 0).is_well_formed());
    assert!(sigset(&[(1, u64::MAX - 1), (2, 1)], 5).is_well_formed());
    assert!(!sigset(&[(1, u64::MAX), (2, 1)], 5).is_well_formed());
    assert!(!sigset(&[(1, 10), (2, 10), (1, 10)], 5).is_well_formed());
}

#[test]
fn new_checkpoints_are_being_built() {
    assert_eq!(CheckpointStatus::default(), CheckpointStatus::Building);
    let checkpoint = Checkpoint::new(sigset(&[(1, 10)], 5));
    assert_eq!(checkpoint.status, CheckpointStatus::Building);
    assert_eq!(checkpoint.inputs.len(), 0);
    assert_eq!(checkpoint.outputs.len(), 0);
    assert_eq!(checkpoint.signed_inputs, 0);
    assert_eq!(checkpoint.create_time(), 1_000);
}

#[test]
fn threshold_has_to_be_exceeded() {
    let set = sigset(&[(1, 10), (2, 20), (3, 5)], 30);
    let mut sigs = ThresholdSig::from_sigset(&set);
    sigs.set_message([6; 32]);
    assert_eq!(sigs.message(), [6; 32]);
    assert!(sigs.contains_key(pubkey(1)));
    assert!(!sigs.contains_key(pubkey(4)));
    assert!(sigs.needs_sig(pubkey(1)));
    assert!(!sigs.needs_sig(pubkey(4)));

    assert_eq!(sigs.sign(pubkey(1), signature(1, [6; 32])), Ok(()));
    assert!(!sigs.needs_sig(pubkey(1)));
    assert_eq!(sigs.sign(pubkey(2), signature(2, [6; 32])), Ok(()));
    assert!(!sigs.done());
    assert_eq!(sigs.to_witness(), Ok(vec![]));
    assert_eq!(sigs.sign(pubkey(3), signature(3, [6; 32])), Ok(()));
    assert!(sigs.done());
}

#[test]
fn bad_signatures_are_refused() {
    let set = sigset(&[(1, 10), (2, 20)], 25);
    let mut sigs = ThresholdSig::from_sigset(&set);
    sigs.set_message([6; 32]);
    assert_eq!(
        sigs.sign(pubkey(4), signature(4, [6; 32])),
        Err(CheckpointError::UnknownSigner)
    );
    assert_eq!(
        sigs.sign(pubkey(1), signature(1, [5; 32])),
        Err(CheckpointError::InvalidSignature)
    );
    assert_eq!(
        sigs.sign(pubkey(1), signature(2, [6; 32])),
        Err(CheckpointError::InvalidSignature)
    );
    assert!(sigs.needs_sig(pubkey(1)));
    assert_eq!(sigs.sign(pubkey(1), signature(1, [6; 32])), Ok(()));
    assert_eq!(
        sigs.sign(pubkey(1), signature(1, [6; 32])),
        Err(CheckpointError::AlreadySigned)
    );
    assert!(!sigs.done());
}

#[test]
fn verdicts_decide_what_is_recorded() {
    let set = sigset(&[(1, 10), (2, 20)], 9);
    let mut sigs = ThresholdSig::from_sigset(&set);
    let sig = Signature { bytes: [1; 64] };
    assert_eq!(sigs.record(pubkey(1), sig, false), Err(CheckpointError::InvalidSignature));
    assert_eq!(sigs.record(pubkey(1), sig, true), Ok(()));
    assert_eq!(sigs.record(pubkey(1), sig, true), Err(CheckpointError::AlreadySigned));
    assert_eq!(sigs.record(pubkey(3), sig, true), Err(CheckpointError::UnknownSigner));
    assert!(sigs.done());
}

#[test]
fn witness_holds_signatures_in_der() {
    let set = sigset(&[(1, 10), (2, 20), (3, 30)], 35);
    let mut sigs = ThresholdSig::from_sigset(&set);
    sigs.set_message([6; 32]);
    sigs.sign(pubkey(3), signature(3, [6; 32])).unwrap();
    sigs.sign(pubkey(1), signature(1, [6; 32])).unwrap();
    let der = |n: u8| {
        let sig = ecdsa::Signature::from_compact(&signature(n, [6; 32]).bytes).unwrap();
        let mut der = sig.serialize_der().to_vec();
        der.push(1);
        der
    };
    assert_eq!(sigs.to_witness(), Ok(vec![der(1), vec![], der(3)]));

    let copy = sigs.clone();
    assert!(copy.done());
    assert_eq!(copy.to_witness(), sigs.to_witness());
}

#[test]
fn malformed_signatures_have_no_witness() {
    let set = sigset(&[(1, 10)], 5);
    let mut input = input(&set, 1, 50);
    input.sigs.record(pubkey(1), Signature { bytes: [0xff; 64] }, true).unwrap();
    assert_eq!(input.sigs.to_witness(), Err(CheckpointError::MalformedSignature));
    assert_eq!(input.to_txin().err(), Some(CheckpointError::MalformedSignature));

    let mut checkpoint = Checkpoint::new(set);
    checkpoint.inputs.push(input);
    assert_eq!(checkpoint.tx().err(), Some(CheckpointError::MalformedSignature));
    let building = BuildingCheckpointMut(&mut checkpoint);
    assert_eq!(building.advance().err(), Some(CheckpointError::MalformedSignature));
    assert_eq!(checkpoint.status, CheckpointStatus::Signing);
    assert_eq!(checkpoint.outputs[0].value, 0);
}

#[test]
fn redeem_script_follows_enough_signatures() {
    let set = sigset(&[(1, 10)], 5);
    let mut input = input(&set, 2, 50);
    assert_eq!(input.est_vsize(), 140);

    let txin = input.to_txin().unwrap();
    assert_eq!(txin.previous_output.txid, [2; 32]);
    assert_eq!(txin.previous_output.vout, 2);
    assert_eq!(txin.script_sig, Vec::<u8>::new());
    assert_eq!(txin.sequence, 0xffff_ffff);
    assert_eq!(txin.witness, Vec::<Vec<u8>>::new());

    let message = input.sigs.message();
    assert_eq!(message, [0; 32]);
    input.sigs.sign(pubkey(1), signature(1, message)).unwrap();
    let txin = input.to_txin().unwrap();
    assert_eq!(txin.witness.len(), 2);
    assert_eq!(txin.witness[1], vec![3, 4, 5]);
}

#[test]
fn transaction_has_the_size_of_its_encoding() {
    let set = sigset(&[(1, 10)], 5);
    let mut checkpoint = Checkpoint::new(set.clone());
    let (tx, est_vsize) = checkpoint.tx().unwrap();
    assert_eq!((tx.version, tx.lock_time), (1, 0));
    assert_eq!(est_vsize, 10);

    checkpoint.inputs.push(input(&set, 1, 500));
    checkpoint.outputs.push(TxOut { value: 20, script_pubkey: vec![7; 34] });
    let (tx, est_vsize) = checkpoint.tx().unwrap();
    assert_eq!(tx.input.len(), 1);
    assert_eq!(tx.output[0].value, 20);
    assert_eq!(tx.output[0].script_pubkey, vec![7; 34]);
    // 4 + 1 + 41 + 1 + 43 + 4 for the encoding, 100 for the witness
    assert_eq!(est_vsize, 194);

    let message = checkpoint.inputs[0].sigs.message();
    let sig = signature(1, message);
    checkpoint.inputs[0].sigs.sign(pubkey(1), sig).unwrap();
    let item = checkpoint.inputs[0].sigs.to_witness().unwrap()[0].len() as u64;
    let (_, est_vsize) = checkpoint.tx().unwrap();
    // a marker, a flag, the count of items, and two items behind their lengths
    assert_eq!(est_vsize, 194 + 2 + 1 + (1 + item) + (1 + 3));
}

#[test]
fn transaction_size_counts_long_scripts() {
    let set = sigset(&[(1, 10)], 5);
    let mut checkpoint = Checkpoint::new(set.clone());
    checkpoint.outputs.push(TxOut { value: 1, script_pubkey: vec![0; 300] });
    let (_, est_vsize) = checkpoint.tx().unwrap();
    assert_eq!(est_vsize, 4 + 1 + 1 + (8 + 3 + 300) + 4);
    for n in 0..253u32 {
        checkpoint.inputs.push(input(&set, (n % 250) as u8, 1));
    }
    let (_, est_vsize) = checkpoint.tx().unwrap();
    assert_eq!(est_vsize, 4 + 3 + 253 * 41 + 1 + 311 + 4 + 253 * 100);
}

#[test]
fn transaction_size_counts_all_witnesses() {
    let set = sigset(&[(1, 10)], 5);
    let mut checkpoint = Checkpoint::new(set.clone());
    checkpoint.inputs.push(input(&set, 1, 500));
    checkpoint.inputs.push(input(&set, 2, 500));
    checkpoint.inputs[0].redeem_script = vec![8; 300];
    let message = checkpoint.inputs[0].sigs.message();
    checkpoint.inputs[0].sigs.sign(pubkey(1), signature(1, message)).unwrap();
    let item = checkpoint.inputs[0].sigs.to_witness().unwrap()[0].len() as u64;
    let (_, est_vsize) = checkpoint.tx().unwrap();
    let base = 4 + 1 + 2 * 41 + 1 + 4;
    let signed = 1 + (1 + item) + (3 + 300);
    let unsigned = 1;
    assert_eq!(est_vsize, base + 2 + signed + unsigned + 200);
}

#[test]
fn tvl_is_the_sum_of_the_inputs() {
    let set = sigset(&[(1, 10)], 5);
    let mut checkpoint = Checkpoint::new(set.clone());
    assert_eq!(checkpoint.get_tvl(), Ok(0));
    checkpoint.inputs.push(input(&set, 1, 500));
    checkpoint.inputs.push(input(&set, 2, 70));
    assert_eq!(checkpoint.get_tvl(), Ok(570));
}

#[test]
fn pushed_inputs_carry_what_they_are_given() {
    let set = sigset(&[(1, 10), (2, 20)], 15);
    let other = SignatorySet { index: 8, est_witness_vsize: 77, ..sigset(&[(5, 1)], 0) };
    let mut checkpoint = Checkpoint::new(set);
    let mut building = BuildingCheckpointMut(&mut checkpoint);
    let scripts = Scripts { output_script: vec![1; 3], redeem_script: vec![2; 4] };
    let vsize = building.push_input(outpoint(4), &other, Ok(scripts), Address { bytes: [3; 20] }, 99);
    assert_eq!(vsize, Ok(117));
    let input = &checkpoint.inputs[0];
    assert_eq!(input.prevout.txid, [4; 32]);
    assert_eq!(input.script_pubkey, vec![1; 3]);
    assert_eq!(input.redeem_script, vec![2; 4]);
    assert_eq!(input.sigset_index, 8);
    assert_eq!(input.dest.bytes, [3; 20]);
    assert_eq!(input.amount, 99);
    assert_eq!(input.est_witness_vsize, 77);
    assert!(input.sigs.contains_key(pubkey(5)));
    assert!(!input.sigs.contains_key(pubkey(1)));
    assert!(!input.sigs.done());
}

#[test]
fn no_input_is_pushed_without_scripts() {
    let set = sigset(&[(1, 10)], 5);
    let mut checkpoint = Checkpoint::new(set.clone());
    checkpoint.inputs.push(input(&set, 1, 500));
    let before = format!("{:?}", checkpoint);
    let mut building = BuildingCheckpointMut(&mut checkpoint);
    let scripts = Err(CheckpointError::Script);
    let vsize = building.push_input(outpoint(4), &set, scripts, Address { bytes: [3; 20] }, 99);
    assert_eq!(vsize, Err(CheckpointError::Script));
    assert_eq!(format!("{:?}", checkpoint), before);
}

#[test]
fn closing_stops_without_a_script_for_the_reserve() {
    let set = SignatorySet {
        reserve_output_script: Err(CheckpointError::Script),
        ..sigset(&[(1, 10)], 5)
    };
    assert_eq!(set.reserve_scripts().err(), Some(CheckpointError::Script));
    let mut checkpoint = Checkpoint::new(set.clone());
    for n in 0..43u8 {
        checkpoint.inputs.push(input(&set, n, 10_000));
    }
    assert!(checkpoint.can_advance());
    let result = BuildingCheckpointMut(&mut checkpoint).advance();
    assert_eq!(result.err(), Some(CheckpointError::Script));
    assert_eq!(checkpoint.status, CheckpointStatus::Signing);
    assert_eq!(checkpoint.inputs.len(), 43);
    assert_eq!(checkpoint.outputs.len(), 0);
}

#[test]
fn what_has_to_fit_can_be_asked() {
    let set = sigset(&[(1, 10)], 5);
    let mut checkpoint = Checkpoint::new(set.clone());
    // 4 + 1 + 41 + 1 + 43 + 4 for the encoding, 100 for the witness
    checkpoint.inputs.push(input(&set, 1, 193));
    assert!(!checkpoint.can_advance());
    checkpoint.inputs[0].amount = 194;
    assert!(checkpoint.can_advance());
    assert_eq!(checkpoint.checked_in_amount(), Some(194));
    checkpoint.inputs.push(input(&set, 2, u64::MAX));
    assert_eq!(checkpoint.checked_in_amount(), None);
    assert!(!checkpoint.can_advance());
    // 4 + 1 + 2 * 41 + 1 + 4 for the encoding
    assert!(checkpoint.tx_fits());
    checkpoint.inputs[1].est_witness_vsize = u64::MAX - 100 - 92;
    assert!(checkpoint.tx_fits());
    assert_eq!(checkpoint.tx().unwrap().1, u64::MAX);
    checkpoint.inputs[1].est_witness_vsize += 1;
    assert!(!checkpoint.tx_fits());
}

#[test]
fn txid_and_hashes_are_those_of_the_transaction() {
    let set = sigset(&[(1, 10)], 5);
    let mut checkpoint = Checkpoint::new(set.clone());
    checkpoint.inputs.push(input(&set, 1, 5_000));
    checkpoint.inputs.push(input(&set, 2, 700));
    checkpoint.outputs.push(TxOut { value: 300, script_pubkey: vec![5; 22] });
    let (outpoint, value, inputs, outputs) =
        BuildingCheckpointMut(&mut checkpoint).advance().unwrap();
    // 4 + 1 + 2 * 41 + 1 + 43 + 31 + 4 for the encoding, 200 for the witnesses
    assert_eq!(value, 5_700 - 300 - 366);
    assert_eq!(outpoint.vout, 0);
    assert_eq!((inputs.len(), outputs.len()), (0, 0));
    assert_eq!(checkpoint.outputs[0].value, value);
    assert_eq!(checkpoint.outputs[0].script_pubkey, vec![7; 34]);
    assert_eq!(checkpoint.status, CheckpointStatus::Signing);

    let txin = |n: u8| bitcoin::TxIn {
        previous_output: bitcoin::OutPoint {
            txid: bitcoin::hashes::Hash::from_inner([n; 32]),
            vout: n as u32,
        },
        script_sig: bitcoin::Script::new(),
        sequence: u32::MAX,
        witness: bitcoin::Witness::new(),
    };
    let txout = |value: u64, script: Vec<u8>| bitcoin::TxOut { value, script_pubkey: script.into() };
    let tx = bitcoin::Transaction {
        version: 1,
        lock_time: 0,
        input: vec![txin(1), txin(2)],
        output: vec![txout(value, vec![7; 34]), txout(300, vec![5; 22])],
    };
    let txid: [u8; 32] = bitcoin::hashes::Hash::into_inner(tx.txid());
    assert_eq!(outpoint.txid, txid);
    let mut cache = bitcoin::util::sighash::SighashCache::new(&tx);
    for (i, amount) in [5_000, 700].iter().enumerate() {
        let script: bitcoin::Script = vec![3u8, 4, 5].into();
        let hash = cache
            .segwit_signature_hash(i, &script, *amount, bitcoin::EcdsaSighashType::All)
            .unwrap();
        let bytes: [u8; 32] = bitcoin::hashes::Hash::into_inner(hash);
        assert_eq!(checkpoint.inputs[i].sigs.message(), bytes);
    }
}

#[test]
fn closing_hands_out_what_does_not_fit() {
    let set = sigset(&[(1, 10)], 5);
    let mut checkpoint = Checkpoint::new(set.clone());
    for n in 0..43u8 {
        checkpoint.inputs.push(input(&set, n, 10_000 + n as u64));
    }
    for n in 0..202u64 {
        checkpoint.outputs.push(TxOut { value: n, script_pubkey: vec![] });
    }
    let before = checkpoint.get_tvl().unwrap();
    let (_, value, inputs, outputs) = BuildingCheckpointMut(&mut checkpoint).advance().unwrap();
    assert_eq!(checkpoint.inputs.len(), 40);
    assert_eq!(checkpoint.outputs.len(), 200);
    let handed_out: Vec<u64> = inputs.iter().map(|i| i.amount).collect();
    assert_eq!(handed_out, vec![10_042, 10_041, 10_040]);
    let unpaid: Vec<u64> = outputs.iter().map(|o| o.value).collect();
    assert_eq!(unpaid, vec![201, 200, 199]);

    // what came in is kept, paid out, handed on, or the fee
    let paid: u64 = (0..199).sum();
    let fee = 4 + 1 + 40 * 41 + 1 + 43 + 199 * 9 + 4 + 40 * 100;
    assert_eq!(before, value + paid + fee + handed_out.iter().sum::<u64>());
}

#[test]
fn copies_equal_what_they_are_copied_from() {
    let set = sigset(&[(1, 10), (2, 20)], 15);
    let mut checkpoint = Checkpoint::new(set.clone());
    checkpoint.inputs.push(input(&set, 1, 500));
    checkpoint.outputs.push(TxOut { value: 5, script_pubkey: vec![1, 2] });
    let copy = checkpoint.clone();
    assert_eq!(format!("{:?}", copy), format!("{:?}", checkpoint));
}
