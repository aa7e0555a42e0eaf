# checkpoint

Checkpoints of a Bitcoin reserve that is held by a changing set of signatories, written
and proved in Verus.

Deposits and withdrawals are gathered in a checkpoint. When enough time has gone by, the
checkpoint is closed: one transaction spends all of its inputs, pays its outputs, and
leaves what remains, after the fee, to the reserve. The signatories sign it, and the next
checkpoint, which is being built meanwhile, starts with the reserve as its first input.

- `src/queue.rs`, `src/step.rs`: the queue of checkpoints, and how it moves on in time
- `src/building.rs`, `src/signing.rs`: a checkpoint that is being built, and one that is
  being signed
- `src/checkpoint.rs`, `src/input.rs`: one checkpoint, and one input of it
- `src/threshold_sig.rs`, `src/signatory.rs`, `src/keys.rs`: who signs, and how much a
  signature weighs
- `src/tx.rs`: transactions, and their size
- `src/outside.rs`: the calls into the `bitcoin` crate, with what is believed of them
- `src/sums.rs`: sums over sequences
- `src/laws.rs`: what holds of the whole: no coin is lost, what is signed is the
  transaction that is sent, a complete checkpoint has enough genuine signatures on every
  input, and every checkpoint takes over the reserve of the one before it
- `app/`: the queue in a running chain

Functions that need sums to fit, time to go forward or signatures to suffice say so in
their `requires`. `try_maybe_step` and `try_sign` test for it themselves, and have no
result where it does not hold.
