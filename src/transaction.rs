//! Unspent outputs and the transactions that consume and produce them.

use vstd::prelude::*;

verus! {

/// The mathematical content of an unspent output.
pub struct UtxoView {
    pub tx_id: Seq<char>,
    pub output_index: nat,
    pub amount: nat,
    pub owner: Seq<char>,
}

/// A spendable fragment of value: output `output_index` of transaction `tx_id`,
/// worth `amount` and spendable by `owner`.
#[derive(Debug, Clone, PartialEq, Eq)]
pub struct UTXO {
    tx_id: String,
    output_index: u32,
    amount: u64,
    owner: String,
}

impl View for UTXO {
    type V = UtxoView;

    closed spec fn view(&self) -> UtxoView {
        UtxoView {
            tx_id: self.tx_id@,
            output_index: self.output_index as nat,
            amount: self.amount as nat,
            owner: self.owner@,
        }
    }
}

/// The views of a sequence of outputs.
pub open spec fn utxo_views(s: Seq<UTXO>) -> Seq<UtxoView> {
    s.map_values(|u: UTXO| u@)
}

/// The total amount of a sequence of outputs.
pub open spec fn sum_amounts(s: Seq<UtxoView>) -> nat
    decreases s.len(),
{
    if s.len() == 0 {
        0
    } else {
        sum_amounts(s.drop_last()) + s.last().amount
    }
}

/// The total of a sequence is the total of its first `k` outputs plus that of the rest.
pub proof fn lemma_sum_split(s: Seq<UtxoView>, k: int)
    requires
        0 <= k <= s.len(),
    ensures
        sum_amounts(s) == sum_amounts(s.take(k)) + sum_amounts(s.skip(k)),
    decreases s.len(),
{
    if s.len() == k {
        assert(s.take(k) =~= s);
        assert(s.skip(k) =~= Seq::<UtxoView>::empty());
    } else {
        lemma_sum_split(s.drop_last(), k);
        assert(s.drop_last().take(k) =~= s.take(k));
        assert(s.skip(k).drop_last() =~= s.drop_last().skip(k));
    }
}

/// An output's amount fits in a `u64`.
pub proof fn lemma_amount_fits(u: UTXO)
    ensures
        u@.amount <= u64::MAX,
{
}

impl UTXO {
    pub fn new(tx_id: String, output_index: u32, amount: u64, owner: String) -> (r: UTXO)
        ensures
            r@ == (UtxoView {
                tx_id: tx_id@,
                output_index: output_index as nat,
                amount: amount as nat,
                owner: owner@,
            }),
    {
        UTXO { tx_id, output_index, amount, owner }
    }

    pub fn get_tx_id(&self) -> (r: String)
        ensures
            r@ == self@.tx_id,
    {
        self.tx_id.clone()
    }

    pub fn get_output_index(&self) -> (r: u32)
        ensures
            r == self@.output_index,
    {
        self.output_index
    }

    pub fn get_amount(&self) -> (r: u64)
        ensures
            r == self@.amount,
    {
        self.amount
    }

    pub fn get_owner(&self) -> (r: String)
        ensures
            r@ == self@.owner,
    {
        self.owner.clone()
    }
}

/// The mathematical content of a transaction.
pub struct TransactionView {
    pub tx_id: Seq<char>,
    pub inputs: Seq<UtxoView>,
    pub outputs: Seq<UtxoView>,
}

/// A transfer: the outputs it consumed and the outputs it created.
#[derive(Debug, Clone)]
pub struct Transaction {
    tx_id: String,
    inputs: Vec<UTXO>,
    outputs: Vec<UTXO>,
}

impl View for Transaction {
    type V = TransactionView;

    closed spec fn view(&self) -> TransactionView {
        TransactionView {
            tx_id: self.tx_id@,
            inputs: utxo_views(self.inputs@),
            outputs: utxo_views(self.outputs@),
        }
    }
}

impl Transaction {
    pub fn new(tx_id: String, inputs: Vec<UTXO>, outputs: Vec<UTXO>) -> (r: Transaction)
        ensures
            r@ == (TransactionView {
                tx_id: tx_id@,
                inputs: utxo_views(inputs@),
                outputs: utxo_views(outputs@),
            }),
    {
        Transaction { tx_id, inputs, outputs }
    }

    /// Hands the transaction on. Propagation to other nodes is not part of this
    /// library, so this does nothing.
    pub fn send() {
    }

    pub fn get_tx_id(&self) -> (r: String)
        ensures
            r@ == self@.tx_id,
    {
        self.tx_id.clone()
    }

    pub fn inputs(&self) -> (r: &[UTXO])
        ensures
            utxo_views(r@) == self@.inputs,
    {
        self.inputs.as_slice()
    }

    pub fn outputs(&self) -> (r: &[UTXO])
        ensures
            utxo_views(r@) == self@.outputs,
    {
        self.outputs.as_slice()
    }
}

} // verus!
