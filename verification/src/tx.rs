//! Bitcoin transactions, as far as checkpoints build them.
use vstd::prelude::*;

use crate::sums::sum_by;

verus! {

/// The place of an output: the transaction that made it, and its position there.
#[derive(Debug, Clone, Copy)]
pub struct OutPoint {
    pub txid: [u8; 32],
    pub vout: u32,
}

/// An output: an amount, and the script that locks it.
#[derive(Debug)]
pub struct TxOut {
    pub value: u64,
    pub script_pubkey: Vec<u8>,
}

/// An input: the output that it spends, and what unlocks it.
#[derive(Debug)]
pub struct TxIn {
    pub previous_output: OutPoint,
    pub script_sig: Vec<u8>,
    pub sequence: u32,
    pub witness: Vec<Vec<u8>>,
}

/// A transaction.
#[derive(Debug)]
pub struct Transaction {
    pub version: i32,
    pub lock_time: u32,
    pub input: Vec<TxIn>,
    pub output: Vec<TxOut>,
}

/// What an `OutPoint` stands for.
#[verifier::ext_equal]
pub struct OutPointView {
    pub txid: Seq<u8>,
    pub vout: u32,
}

/// What a `TxOut` stands for.
#[verifier::ext_equal]
pub struct TxOutView {
    pub value: u64,
    pub script_pubkey: Seq<u8>,
}

/// What a `TxIn` stands for.
#[verifier::ext_equal]
pub struct TxInView {
    pub previous_output: OutPointView,
    pub script_sig: Seq<u8>,
    pub sequence: u32,
    pub witness: Seq<Seq<u8>>,
}

/// What a `Transaction` stands for.
#[verifier::ext_equal]
pub struct TransactionView {
    pub version: i32,
    pub lock_time: u32,
    pub input: Seq<TxInView>,
    pub output: Seq<TxOutView>,
}

impl View for OutPoint {
    type V = OutPointView;

    open spec fn view(&self) -> OutPointView {
        OutPointView { txid: self.txid@, vout: self.vout }
    }
}

impl View for TxOut {
    type V = TxOutView;

    open spec fn view(&self) -> TxOutView {
        TxOutView { value: self.value, script_pubkey: self.script_pubkey@ }
    }
}

impl View for TxIn {
    type V = TxInView;

    open spec fn view(&self) -> TxInView {
        TxInView {
            previous_output: self.previous_output@,
            script_sig: self.script_sig@,
            sequence: self.sequence,
            witness: stack_view(self.witness@),
        }
    }
}

impl View for Transaction {
    type V = TransactionView;

    open spec fn view(&self) -> TransactionView {
        TransactionView {
            version: self.version,
            lock_time: self.lock_time,
            input: Seq::new(self.input@.len(), |i: int| self.input@[i]@),
            output: outputs_view(self.output@),
        }
    }
}

/// The contents of a stack of byte strings.
pub open spec fn stack_view(stack: Seq<Vec<u8>>) -> Seq<Seq<u8>> {
    Seq::new(stack.len(), |i: int| stack[i]@)
}

/// The contents of a list of outputs.
pub open spec fn outputs_view(outputs: Seq<TxOut>) -> Seq<TxOutView> {
    Seq::new(outputs.len(), |i: int| outputs[i]@)
}

impl Clone for TxOut {
    fn clone(&self) -> (copy: TxOut)
        ensures
            copy@ == self@,
    {
        let copy = TxOut { value: self.value, script_pubkey: self.script_pubkey.clone() };
        assert(copy@ =~= self@);
        copy
    }
}

/// The length of the variable-length integer that encodes `n`.
pub open spec fn varint_bytes(n: nat) -> int {
    if n < 0xfd {
        1
    } else if n <= 0xffff {
        3
    } else if n <= 0xffff_ffff {
        5
    } else {
        9
    }
}

/// The length of the encoding of a byte string behind its own length.
pub open spec fn string_bytes(string: Seq<u8>) -> int {
    varint_bytes(string.len()) + string.len()
}

impl TxInView {
    /// The length of the encoding of the input, without its witness.
    pub open spec fn base_bytes(self) -> int {
        36 + string_bytes(self.script_sig) + 4
    }

    /// The length of the encoding of the witness.
    pub open spec fn witness_bytes(self) -> int {
        varint_bytes(self.witness.len()) + sum_by(self.witness, |item: Seq<u8>| string_bytes(item))
    }

    /// The input without its witness.
    pub open spec fn stripped(self) -> TxInView {
        TxInView { witness: Seq::empty(), ..self }
    }
}

impl TxOutView {
    /// The length of the encoding of the output.
    pub open spec fn bytes(self) -> int {
        8 + string_bytes(self.script_pubkey)
    }
}

impl TransactionView {
    /// The transaction without any witness: what signatures commit to.
    pub open spec fn stripped(self) -> TransactionView {
        TransactionView {
            input: Seq::new(self.input.len(), |i: int| self.input[i].stripped()),
            ..self
        }
    }

    /// The size of the transaction in bytes. The witnesses count, behind a marker and
    /// a flag, only where one of them holds something.
    pub open spec fn bytes(self) -> int {
        4 + varint_bytes(self.input.len()) + sum_by(self.input, |i: TxInView| i.base_bytes())
            + varint_bytes(self.output.len()) + sum_by(self.output, |o: TxOutView| o.bytes()) + 4
            + if exists|i: int| 0 <= i < self.input.len() && (#[trigger] self.input[i]).witness.len() > 0 {
            2 + sum_by(self.input, |i: TxInView| i.witness_bytes())
        } else {
            0
        }
    }
}

} // verus!
