//! The chain of blocks, which owns the unspent-output ledger.

use crate::block::{no_seal_exists, Block, BlockError, BlockView, TARGET_HEXT};
use crate::ledger::{credit, transfer_outcome, LedgerMap, UtxoLedger};
use crate::pow::meets_difficulty;
use crate::transaction::{Transaction, UTXO};
use vstd::prelude::*;

verus! {

/// The views of a sequence of blocks.
pub open spec fn block_views(s: Seq<Block>) -> Seq<BlockView> {
    s.map_values(|b: Block| b@)
}

/// A valid chain: it starts with a genesis block, every block is sealed and
/// stands at its own index as height, and every block after the first names the
/// hash of the one before it.
pub open spec fn chain_valid(blocks: Seq<BlockView>) -> bool {
    &&& blocks.len() >= 1
    &&& blocks[0].prev_hash == Seq::<char>::empty()
    &&& forall|i: int| 0 <= i < blocks.len() ==> (#[trigger] blocks[i]).is_sealed()
    &&& forall|i: int| 0 <= i < blocks.len() ==> (#[trigger] blocks[i]).height == i
    &&& forall|i: int| 0 < i < blocks.len() ==> (#[trigger] blocks[i]).prev_hash == blocks[i - 1].hash
}

/// The append-only chain of blocks, and the ledger of unspent outputs.
pub struct Blockchain {
    blocks: Vec<Block>,
    utxo_pool: UtxoLedger,
}

impl Blockchain {
    /// The blocks, genesis first.
    pub closed spec fn spec_blocks(&self) -> Seq<BlockView> {
        block_views(self.blocks@)
    }

    /// The ledger owned by the chain.
    pub closed spec fn spec_ledger(&self) -> UtxoLedger {
        self.utxo_pool
    }

    pub open spec fn wf(&self) -> bool {
        &&& chain_valid(self.spec_blocks())
        &&& self.spec_ledger().wf()
    }

    /// A chain that holds only a freshly sealed genesis block, and an empty ledger.
    pub fn new() -> (r: Result<Blockchain, BlockError>)
        ensures
            match r {
                Ok(c) => {
                    &&& c.wf()
                    &&& c.spec_blocks().len() == 1
                    &&& c.spec_blocks()[0].payload == "Genesis block"@
                    &&& c.spec_blocks()[0].difficulty == TARGET_HEXT
                    &&& c.spec_ledger()@ == LedgerMap::empty()
                },
                Err(e) => e == BlockError::ClockError || (e == BlockError::NonceSpaceExhausted
                    && exists|t: nat|
                    no_seal_exists(
                        Seq::<char>::empty(),
                        "Genesis block"@,
                        t,
                        TARGET_HEXT as nat,
                    )),
            },
    {
        let genesis = match Block::new_genesis_block() {
            Ok(b) => b,
            Err(e) => return Err(e),
        };
        let mut blocks: Vec<Block> = Vec::new();
        blocks.push(genesis);
        let c = Blockchain { blocks, utxo_pool: UtxoLedger::new() };
        assert(c.spec_blocks()[0] == genesis@);
        Ok(c)
    }

    /// Seals a block that carries `data` at the next height, over the hash of the
    /// last block, and appends it. On failure the chain is unchanged.
    pub fn add_block(&mut self, data: String) -> (r: Result<(), BlockError>)
        requires
            old(self).wf(),
        ensures
            final(self).wf(),
            final(self).spec_ledger() == old(self).spec_ledger(),
            match r {
                Ok(()) => {
                    let n = old(self).spec_blocks().len();
                    let b = final(self).spec_blocks()[n as int];
                    &&& final(self).spec_blocks().len() == n + 1
                    &&& final(self).spec_blocks().take(n as int) == old(self).spec_blocks()
                    &&& b.payload == data@
                    &&& b.prev_hash == old(self).spec_blocks()[n - 1].hash
                    &&& b.difficulty == TARGET_HEXT
                },
                Err(e) => {
                    &&& final(self).spec_blocks() == old(self).spec_blocks()
                    &&& (e == BlockError::ClockError || (e == BlockError::NonceSpaceExhausted
                        && exists|t: nat|
                        no_seal_exists(
                            old(self).spec_blocks().last().hash,
                            data@,
                            t,
                            TARGET_HEXT as nat,
                        )))
                },
            },
    {
        let last = self.blocks.len() - 1;
        let prev = &self.blocks[last];
        assert(self.spec_blocks()[last as int] == prev@);
        assert(self.spec_blocks().last() == prev@);
        let height = prev.get_height() + 1;
        let new_block = match Block::new_block(data, prev.get_hash(), height) {
            Ok(b) => b,
            Err(e) => return Err(e),
        };
        let ghost old_blocks = self.spec_blocks();
        self.blocks.push(new_block);
        assert(self.spec_blocks() =~= old_blocks.push(new_block@));
        Ok(())
    }

    /// Transfers `amount` from `from` to `to` in the ledger; see `transfer_outcome`.
    /// The blocks are untouched.
    pub fn initiate_tx(&mut self, from: String, to: String, amount: u64) -> (r: Option<
        Transaction,
    >)
        requires
            old(self).wf(),
        ensures
            final(self).wf(),
            final(self).spec_blocks() == old(self).spec_blocks(),
            transfer_outcome(
                old(self).spec_ledger(),
                final(self).spec_ledger(),
                from@,
                to@,
                amount as nat,
                r,
            ),
    {
        self.utxo_pool.create_transfer(&from, &to, amount)
    }

    /// Adds an output to its owner's entry in the ledger.
    pub fn add_utxo(&mut self, u: UTXO)
        requires
            old(self).wf(),
        ensures
            final(self).wf(),
            final(self).spec_blocks() == old(self).spec_blocks(),
            final(self).spec_ledger()@ == credit(old(self).spec_ledger()@, u@.owner, u@),
            final(self).spec_ledger().spec_tx_count() == old(self).spec_ledger().spec_tx_count(),
    {
        self.utxo_pool.add_utxo(u)
    }

    /// The blocks, genesis first.
    pub fn blocks(&self) -> (r: &[Block])
        ensures
            block_views(r@) == self.spec_blocks(),
    {
        self.blocks.as_slice()
    }

    /// The ledger owned by the chain.
    pub fn ledger(&self) -> (r: &UtxoLedger)
        ensures
            *r == self.spec_ledger(),
    {
        &self.utxo_pool
    }
}

/// Every block of a valid chain carries a hash that meets its difficulty.
pub proof fn lemma_blocks_meet_difficulty(blocks: Seq<BlockView>)
    requires
        chain_valid(blocks),
    ensures
        forall|i: int|
            0 <= i < blocks.len() ==> meets_difficulty(
                (#[trigger] blocks[i]).hash,
                blocks[i].difficulty,
            ),
{
    assert forall|i: int| 0 <= i < blocks.len() implies meets_difficulty(
        (#[trigger] blocks[i]).hash,
        blocks[i].difficulty,
    ) by {
        assert(blocks[i].is_sealed());
    }
}

/// In a valid chain every block after the first names the digest of the block
/// before it: the hash of that block's header with its nonce.
pub proof fn lemma_chain_linked(blocks: Seq<BlockView>)
    requires
        chain_valid(blocks),
    ensures
        forall|i: int|
            0 < i < blocks.len() ==> (#[trigger] blocks[i]).prev_hash == blocks[i - 1].digest_at(
                blocks[i - 1].nonce,
            ),
{
    assert forall|i: int| 0 < i < blocks.len() implies (#[trigger] blocks[i]).prev_hash
        == blocks[i - 1].digest_at(blocks[i - 1].nonce) by {
        assert(blocks[i - 1].is_sealed());
    }
}

} // verus!
