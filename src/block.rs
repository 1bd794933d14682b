//! Blocks sealed by a proof-of-work search.

use crate::pow::{
    decimal, digest, has_leading_zeros, is_digest_text, meets_difficulty, push_decimal, sha256_hex_of, DIGEST_LEN,
};
use vstd::prelude::*;

verus! {

/// Number of leading zero hex characters that a block's hash must have.
pub const TARGET_HEXT: usize = 4;

/// Why a block could not be built.
#[derive(Debug, Clone, Copy, PartialEq, Eq, Structural)]
pub enum BlockError {
    /// The system clock could not be read.
    ClockError,
    /// The difficulty asks for more zero characters than a digest has.
    UnreachableDifficulty,
    /// No nonce of the whole nonce range gives a hash that meets the difficulty.
    NonceSpaceExhausted,
}

/// The text that is hashed for a block: previous hash, payload, timestamp,
/// difficulty and nonce, one after the other.
pub open spec fn hash_preimage(
    prev: Seq<char>,
    payload: Seq<char>,
    timestamp: nat,
    difficulty: nat,
    nonce: nat,
) -> Seq<char> {
    prev + payload + decimal(timestamp) + decimal(difficulty) + decimal(nonce)
}

/// The hash of a block whose header holds these values.
pub open spec fn pow_digest(
    prev: Seq<char>,
    payload: Seq<char>,
    timestamp: nat,
    difficulty: nat,
    nonce: nat,
) -> Seq<char> {
    sha256_hex_of(hash_preimage(prev, payload, timestamp, difficulty, nonce))
}

/// Whether no nonce of the `u64` range seals a block with this header.
pub open spec fn no_seal_exists(
    prev: Seq<char>,
    payload: Seq<char>,
    timestamp: nat,
    difficulty: nat,
) -> bool {
    forall|n: nat|
        n <= u64::MAX ==> !meets_difficulty(
            #[trigger] pow_digest(prev, payload, timestamp, difficulty, n),
            difficulty,
        )
}

/// The mathematical content of a block.
pub struct BlockView {
    pub timestamp: nat,
    pub payload: Seq<char>,
    pub prev_hash: Seq<char>,
    pub hash: Seq<char>,
    pub height: nat,
    pub nonce: nat,
    pub difficulty: nat,
}

impl BlockView {
    /// The hash that this header gives with nonce `n`.
    pub open spec fn digest_at(self, n: nat) -> Seq<char> {
        pow_digest(self.prev_hash, self.payload, self.timestamp, self.difficulty, n)
    }

    /// Sealed: the hash is the digest of the header with the stored nonce, a string
    /// of `DIGEST_LEN` lowercase hex digits; it meets the difficulty, and no smaller
    /// nonce does.
    pub open spec fn is_sealed(self) -> bool {
        &&& self.hash == self.digest_at(self.nonce)
        &&& is_digest_text(self.hash)
        &&& meets_difficulty(self.hash, self.difficulty)
        &&& forall|n: nat|
            n < self.nonce ==> !meets_difficulty(#[trigger] self.digest_at(n), self.difficulty)
    }
}

/// A block's hash depends on its header text alone: two headers with the same
/// text have the same hash, and at the same difficulty both meet it or neither does.
pub proof fn lemma_equal_headers_equal_digest(a: BlockView, b: BlockView)
    requires
        hash_preimage(a.prev_hash, a.payload, a.timestamp, a.difficulty, a.nonce)
            == hash_preimage(b.prev_hash, b.payload, b.timestamp, b.difficulty, b.nonce),
    ensures
        a.digest_at(a.nonce) == b.digest_at(b.nonce),
        a.difficulty == b.difficulty ==> (meets_difficulty(a.digest_at(a.nonce), a.difficulty)
            <==> meets_difficulty(b.digest_at(b.nonce), b.difficulty)),
{
}

/// A block of the chain. Its fields are set at construction and never change.
#[derive(Debug, Clone)]
pub struct Block {
    timestamp: u128,
    transactions: String,
    prev_block_hash: String,
    hash: String,
    height: usize,
    nonce: u64,
    difficulty: usize,
}

/// Relies on `std::time::SystemTime::now` and `duration_since(UNIX_EPOCH)`: milliseconds
/// since the epoch, or nothing where the clock stands before it.
#[verifier::external_body]
fn clock_millis() -> (r: Option<u128>) {
    match std::time::SystemTime::now().duration_since(std::time::UNIX_EPOCH) {
        Ok(d) => Some(d.as_millis()),
        Err(_) => None,
    }
}

impl View for Block {
    type V = BlockView;

    closed spec fn view(&self) -> BlockView {
        BlockView {
            timestamp: self.timestamp as nat,
            payload: self.transactions@,
            prev_hash: self.prev_block_hash@,
            hash: self.hash@,
            height: self.height as nat,
            nonce: self.nonce as nat,
            difficulty: self.difficulty as nat,
        }
    }
}

impl Block {
    /// The sealed hash of the block.
    pub fn get_hash(&self) -> (r: String)
        ensures
            r@ == self@.hash,
    {
        self.hash.clone()
    }

    pub fn get_prev_hash(&self) -> (r: String)
        ensures
            r@ == self@.prev_hash,
    {
        self.prev_block_hash.clone()
    }

    /// The payload carried by the block.
    pub fn get_data(&self) -> (r: String)
        ensures
            r@ == self@.payload,
    {
        self.transactions.clone()
    }

    pub fn get_height(&self) -> (r: usize)
        ensures
            r == self@.height,
    {
        self.height
    }

    /// Milliseconds since the epoch at construction.
    pub fn get_timestamp(&self) -> (r: u128)
        ensures
            r == self@.timestamp,
    {
        self.timestamp
    }

    pub fn get_nonce(&self) -> (r: u64)
        ensures
            r == self@.nonce,
    {
        self.nonce
    }

    pub fn get_difficulty(&self) -> (r: usize)
        ensures
            r == self@.difficulty,
    {
        self.difficulty
    }

    /// The genesis block: height 0, no previous hash, a fixed payload, sealed at the
    /// default difficulty at the current time.
    pub fn new_genesis_block() -> (r: Result<Block, BlockError>)
        ensures
            match r {
                Ok(b) => {
                    &&& b@.payload == "Genesis block"@
                    &&& b@.prev_hash == Seq::<char>::empty()
                    &&& b@.height == 0
                    &&& b@.difficulty == TARGET_HEXT
                    &&& b@.is_sealed()
                },
                Err(e) => e == BlockError::ClockError || (e == BlockError::NonceSpaceExhausted
                    && exists|t: nat|
                    no_seal_exists(
                        Seq::<char>::empty(),
                        "Genesis block"@,
                        t,
                        TARGET_HEXT as nat,
                    )),
            },
    {
        Block::new_block(String::from_str("Genesis block"), String::new(), 0)
    }

    /// A block with the given payload, previous hash and height, stamped with the
    /// current time and sealed at the default difficulty.
    pub fn new_block(data: String, prev_block_hash: String, height: usize) -> (r: Result<
        Block,
        BlockError,
    >)
        ensures
            match r {
                Ok(b) => {
                    &&& b@.payload == data@
                    &&& b@.prev_hash == prev_block_hash@
                    &&& b@.height == height
                    &&& b@.difficulty == TARGET_HEXT
                    &&& b@.is_sealed()
                },
                Err(e) => e == BlockError::ClockError || (e == BlockError::NonceSpaceExhausted
                    && exists|t: nat|
                    no_seal_exists(prev_block_hash@, data@, t, TARGET_HEXT as nat)),
            },
    {
        match clock_millis() {
            None => Err(BlockError::ClockError),
            Some(timestamp) => Block::new_block_at(
                data,
                prev_block_hash,
                height,
                timestamp,
                TARGET_HEXT,
            ),
        }
    }

    /// A block with the given header, sealed by the smallest nonce whose hash
    /// starts with `difficulty` zero characters.
    pub fn new_block_at(
        data: String,
        prev_block_hash: String,
        height: usize,
        timestamp: u128,
        difficulty: usize,
    ) -> (r: Result<Block, BlockError>)
        ensures
            match r {
                Ok(b) => {
                    &&& b@.payload == data@
                    &&& b@.prev_hash == prev_block_hash@
                    &&& b@.height == height
                    &&& b@.timestamp == timestamp
                    &&& b@.difficulty == difficulty
                    &&& b@.is_sealed()
                },
                Err(e) => (e == BlockError::UnreachableDifficulty <==> difficulty > DIGEST_LEN)
                    && (e == BlockError::NonceSpaceExhausted <==> (difficulty <= DIGEST_LEN
                    && no_seal_exists(
                        prev_block_hash@,
                        data@,
                        timestamp as nat,
                        difficulty as nat,
                    ))) && e != BlockError::ClockError,
            },
            r is Err <==> (difficulty > DIGEST_LEN || no_seal_exists(
                prev_block_hash@,
                data@,
                timestamp as nat,
                difficulty as nat,
            )),
    {
        if difficulty > DIGEST_LEN {
            return Err(BlockError::UnreachableDifficulty);
        }
        let mut block = Block {
            timestamp,
            transactions: data,
            prev_block_hash,
            hash: String::new(),
            height,
            nonce: 0,
            difficulty,
        };
        let found = block.run_proof_of_work();
        if found {
            Ok(block)
        } else {
            Err(BlockError::NonceSpaceExhausted)
        }
    }

    /// The text hashed for the block with its current nonce.
    pub fn prepare_hash_data(&self) -> (r: String)
        ensures
            r@ == hash_preimage(
                self@.prev_hash,
                self@.payload,
                self@.timestamp,
                self@.difficulty,
                self@.nonce,
            ),
    {
        let mut s = self.prev_block_hash.clone();
        s.append(self.transactions.as_str());
        push_decimal(&mut s, self.timestamp);
        push_decimal(&mut s, self.difficulty as u128);
        push_decimal(&mut s, self.nonce as u128);
        s
    }

    /// The hash of the header with the current nonce, and whether it meets the
    /// difficulty.
    fn validate(&self) -> (r: (bool, String))
        ensures
            r.1@ == self@.digest_at(self@.nonce),
            is_digest_text(r.1@),
            r.0 == meets_difficulty(r.1@, self@.difficulty),
    {
        let data = self.prepare_hash_data();
        let h = digest(data.as_str());
        let ok = has_leading_zeros(h.as_str(), self.difficulty);
        (ok, h)
    }

    /// Tries nonces from the current one upwards, and stores the first that meets
    /// the difficulty with its hash. Returns false when the nonce range runs out.
    fn run_proof_of_work(&mut self) -> (found: bool)
        requires
            old(self)@.nonce == 0,
        ensures
            final(self)@.timestamp == old(self)@.timestamp,
            final(self)@.payload == old(self)@.payload,
            final(self)@.prev_hash == old(self)@.prev_hash,
            final(self)@.height == old(self)@.height,
            final(self)@.difficulty == old(self)@.difficulty,
            found ==> final(self)@.is_sealed(),
            !found <==> no_seal_exists(
                old(self)@.prev_hash,
                old(self)@.payload,
                old(self)@.timestamp,
                old(self)@.difficulty,
            ),
    {
        loop
            invariant
                self@.timestamp == old(self)@.timestamp,
                self@.payload == old(self)@.payload,
                self@.prev_hash == old(self)@.prev_hash,
                self@.height == old(self)@.height,
                self@.difficulty == old(self)@.difficulty,
                forall|n: nat|
                    n < self@.nonce ==> !meets_difficulty(
                        #[trigger] self@.digest_at(n),
                        self@.difficulty,
                    ),
            decreases u64::MAX - self.nonce,
        {
            let (ok, h) = self.validate();
            let ghost cur = self@;
            if ok {
                self.hash = h;
                assert(self@.digest_at(self@.nonce) == cur.digest_at(cur.nonce));
                assert(meets_difficulty(
                    pow_digest(
                        self@.prev_hash,
                        self@.payload,
                        self@.timestamp,
                        self@.difficulty,
                        self@.nonce,
                    ),
                    self@.difficulty,
                ));
                assert forall|n: nat| n < self@.nonce implies !meets_difficulty(
                    #[trigger] self@.digest_at(n),
                    self@.difficulty,
                ) by {
                    assert(self@.digest_at(n) == cur.digest_at(n));
                }
                return true;
            }
            if self.nonce == u64::MAX {
                assert forall|n: nat| n <= u64::MAX implies !meets_difficulty(
                    #[trigger] pow_digest(
                        old(self)@.prev_hash,
                        old(self)@.payload,
                        old(self)@.timestamp,
                        old(self)@.difficulty,
                        n,
                    ),
                    old(self)@.difficulty,
                ) by {
                    assert(self@.digest_at(n) == pow_digest(
                        old(self)@.prev_hash,
                        old(self)@.payload,
                        old(self)@.timestamp,
                        old(self)@.difficulty,
                        n,
                    ));
                }
                return false;
            }
            self.nonce = self.nonce + 1;
            assert forall|n: nat| n < self@.nonce implies !meets_difficulty(
                #[trigger] self@.digest_at(n),
                self@.difficulty,
            ) by {
                assert(self@.digest_at(n) == cur.digest_at(n));
            }
        }
    }
}

} // verus!
