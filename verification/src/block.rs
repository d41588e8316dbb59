//! One ledger entry: its fields, its digest, and the search for a nonce
//! that seals it.

use crate::clock::unix_seconds;
use crate::difficulty::has_leading_zeros;
use crate::difficulty::lemma_difficulty_bounded_by_length;
use crate::difficulty::lemma_zero_difficulty;
use crate::difficulty::meets_difficulty;
use crate::digest::hex_string;
use crate::digest::is_lower_hex;
use crate::digest::lemma_hex_string_format;
use crate::digest::sha256;
use crate::digest::sha256_bytes;
use crate::digest::to_hex;
use crate::digest::DIGEST_HEX_CHARS;
use crate::encoding::encode_fields;
use crate::encoding::lemma_preimage_injective;
use crate::encoding::preimage;
use vstd::prelude::*;

verus! {

/// One entry of the ledger.
///
/// A block is created unsealed, with `nonce` zero and an empty `hash`, and
/// is sealed by [`Block::mine`]. The fields are public: nothing keeps a
/// caller from editing a sealed block, and [`BlockModel::is_sealed`] tells
/// whether the stored hash still belongs to the other fields.
pub struct Block {
    /// Position of the block in its chain; the genesis block has zero.
    pub index: u64,
    /// Seconds since the Unix epoch at which the block was created.
    pub timestamp: u64,
    /// Hash of the preceding block; `"0"` for the genesis block.
    pub previous_hash: String,
    /// Payload, which the ledger carries and never interprets.
    pub data: String,
    /// Counter that mining varies.
    pub nonce: u64,
    /// Digest of the other fields in lowercase hexadecimal; empty until the
    /// block is sealed.
    pub hash: String,
}

/// What a block is: its numbers, and its three texts as character
/// sequences.
pub struct BlockModel {
    pub index: u64,
    pub timestamp: u64,
    pub previous_hash: Seq<char>,
    pub payload: Seq<char>,
    pub nonce: u64,
    pub hash: Seq<char>,
}

impl BlockModel {
    /// A block as it is created: nonce zero, no hash yet.
    pub open spec fn unsealed(
        index: u64,
        timestamp: u64,
        previous_hash: Seq<char>,
        payload: Seq<char>,
    ) -> BlockModel {
        BlockModel { index, timestamp, previous_hash, payload, nonce: 0, hash: Seq::empty() }
    }

    /// The bytes that the digest is taken over: every field but `hash`.
    pub open spec fn preimage(self) -> Seq<u8> {
        preimage(
            self.index as nat,
            self.timestamp as nat,
            self.previous_hash,
            self.payload,
            self.nonce as nat,
        )
    }

    /// The digest of the block: SHA-256 over its preimage, in lowercase
    /// hexadecimal.
    pub open spec fn digest(self) -> Seq<char> {
        hex_string(sha256(self.preimage()))
    }

    /// Whether the stored hash is the digest of the other fields.
    pub open spec fn is_sealed(self) -> bool {
        self.hash == self.digest()
    }

    /// The same block with another nonce.
    pub open spec fn with_nonce(self, nonce: u64) -> BlockModel {
        BlockModel { nonce, ..self }
    }

    /// The same block with another nonce and the hash that belongs to it.
    pub open spec fn sealed_with(self, nonce: u64) -> BlockModel {
        BlockModel { nonce, hash: self.with_nonce(nonce).digest(), ..self }
    }

    /// Whether the digest under `nonce` meets `difficulty`.
    pub open spec fn seals(self, nonce: u64, difficulty: u64) -> bool {
        meets_difficulty(self.with_nonce(nonce).digest(), difficulty as nat)
    }

    /// Whether `nonce` is the first nonce above the block's own whose
    /// digest meets `difficulty`.
    pub open spec fn first_seal(self, nonce: u64, difficulty: u64) -> bool {
        &&& self.nonce < nonce
        &&& self.seals(nonce, difficulty)
        &&& forall|n: u64| self.nonce < n < nonce ==> !#[trigger] self.seals(n, difficulty)
    }

    /// Whether some nonce above the block's own meets `difficulty`.
    pub open spec fn can_be_sealed(self, difficulty: u64) -> bool {
        exists|n: u64| self.nonce < n && #[trigger] self.seals(n, difficulty)
    }

    /// The block after mining at `difficulty`: sealed with its first
    /// sealing nonce if it has one, and as it was if it has none.
    pub open spec fn mined(self, difficulty: u64) -> BlockModel {
        if self.can_be_sealed(difficulty) {
            self.sealed_with(choose|n: u64| self.first_seal(n, difficulty))
        } else {
            self
        }
    }

    /// Whether two blocks agree in every field that is hashed.
    pub open spec fn same_hashed_fields(self, other: BlockModel) -> bool {
        &&& self.index == other.index
        &&& self.timestamp == other.timestamp
        &&& self.previous_hash == other.previous_hash
        &&& self.payload == other.payload
        &&& self.nonce == other.nonce
    }
}

impl View for Block {
    type V = BlockModel;

    open spec fn view(&self) -> BlockModel {
        BlockModel {
            index: self.index,
            timestamp: self.timestamp,
            previous_hash: self.previous_hash@,
            payload: self.data@,
            nonce: self.nonce,
            hash: self.hash@,
        }
    }
}

/// Computes the digest of a block with these field values.
fn digest_fields(
    index: u64,
    timestamp: u64,
    previous_hash: &str,
    payload: &str,
    nonce: u64,
) -> (hash: String)
    ensures
        hash@ == hex_string(
            sha256(
                preimage(index as nat, timestamp as nat, previous_hash@, payload@, nonce as nat),
            ),
        ),
        hash@.len() == DIGEST_HEX_CHARS,
        is_lower_hex(hash@),
{
    let bytes = encode_fields(index, timestamp, previous_hash, payload, nonce);
    let raw = sha256_bytes(bytes.as_slice());
    proof {
        lemma_hex_string_format(raw@);
    }
    to_hex(raw.as_slice())
}

impl Block {
    /// Creates an unsealed block stamped with the current time.
    ///
    /// The clock is read once. If it is set before the Unix epoch there is
    /// no timestamp to give, and the call panics.
    pub fn new(index: u64, previous_hash: String, data: String) -> (block: Block)
        ensures
            block@ == BlockModel::unsealed(index, block@.timestamp, previous_hash@, data@),
    {
        Block::with_timestamp(index, unix_seconds(), previous_hash, data)
    }

    /// Creates an unsealed block stamped with `timestamp`.
    pub fn with_timestamp(
        index: u64,
        timestamp: u64,
        previous_hash: String,
        data: String,
    ) -> (block: Block)
        ensures
            block@ == BlockModel::unsealed(index, timestamp, previous_hash@, data@),
    {
        Block { index, timestamp, previous_hash, data, nonce: 0, hash: String::new() }
    }

    /// Computes the digest of the block from its fields as they are now.
    ///
    /// The stored `hash` takes no part in it, and is not changed.
    pub fn calculate_hash(&self) -> (hash: String)
        ensures
            hash@ == self@.digest(),
            hash@.len() == DIGEST_HEX_CHARS,
            is_lower_hex(hash@),
    {
        digest_fields(
            self.index,
            self.timestamp,
            self.previous_hash.as_str(),
            self.data.as_str(),
            self.nonce,
        )
    }

    /// Searches upwards from the nonce after the block's own for the first
    /// one whose digest begins with `difficulty` characters `0`, and seals
    /// the block with it.
    ///
    /// Returns `false`, with the block as it was, when no nonce up to
    /// `u64::MAX` will do. That is the case for every difficulty above the
    /// width of a digest, after a search through all the nonces that are
    /// left; it is for the caller to keep the difficulty within bounds.
    pub fn mine(&mut self, difficulty: u64) -> (sealed: bool)
        ensures
            sealed == old(self)@.can_be_sealed(difficulty),
            final(self)@ == old(self)@.mined(difficulty),
            sealed ==> old(self)@.first_seal(final(self)@.nonce, difficulty),
            sealed ==> final(self)@.is_sealed(),
            sealed ==> meets_difficulty(final(self)@.hash, difficulty as nat),
            sealed ==> final(self)@.hash.len() == DIGEST_HEX_CHARS,
            sealed ==> is_lower_hex(final(self)@.hash),
            sealed ==> difficulty <= DIGEST_HEX_CHARS,
            difficulty == 0 && old(self)@.nonce < u64::MAX ==> sealed,
            difficulty == 0 && sealed ==> final(self)@.nonce == old(self)@.nonce + 1,
    {
        let mut nonce = self.nonce;
        while nonce < u64::MAX
            invariant
                *self == *old(self),
                self.nonce <= nonce,
                forall|n: u64| self.nonce < n <= nonce ==> !#[trigger] self@.seals(n, difficulty),
            decreases u64::MAX - nonce,
        {
            nonce += 1;
            let hash = digest_fields(
                self.index,
                self.timestamp,
                self.previous_hash.as_str(),
                self.data.as_str(),
                nonce,
            );
            assert(hash@ == self@.with_nonce(nonce).digest());
            if has_leading_zeros(hash.as_str(), difficulty) {
                proof {
                    lemma_difficulty_bounded_by_length(hash@, difficulty as nat);
                    assert(old(self)@.seals(nonce, difficulty));
                }
                self.nonce = nonce;
                self.hash = hash;
                proof {
                    assert(self@.preimage() == old(self)@.with_nonce(nonce).preimage());
                    assert(self@ == old(self)@.sealed_with(nonce));
                    assert(old(self)@.first_seal(nonce, difficulty));
                    let chosen = choose|n: u64| old(self)@.first_seal(n, difficulty);
                    lemma_first_seal_unique(old(self)@, chosen, nonce, difficulty);
                    if difficulty == 0 {
                        lemma_zero_difficulty_seals(old(self)@, (old(self)@.nonce + 1) as u64);
                    }
                }
                return true;
            }
        }
        proof {
            if difficulty == 0 && self.nonce < u64::MAX {
                lemma_zero_difficulty_seals(self@, (self.nonce + 1) as u64);
            }
        }
        false
    }
}

/// A digest is a function of the hashed fields alone: blocks that agree in
/// index, timestamp, previous hash, payload and nonce have the same
/// digest, whatever hash they store.
pub proof fn lemma_digest_deterministic(a: BlockModel, b: BlockModel)
    requires
        a.same_hashed_fields(b),
    ensures
        a.digest() == b.digest(),
{
}

/// Blocks that differ in a hashed field are hashed over different bytes.
pub proof fn lemma_distinct_fields_distinct_preimage(a: BlockModel, b: BlockModel)
    requires
        !a.same_hashed_fields(b),
    ensures
        a.preimage() != b.preimage(),
{
    if a.preimage() == b.preimage() {
        lemma_preimage_injective(
            a.index as nat,
            a.timestamp as nat,
            a.previous_hash,
            a.payload,
            a.nonce as nat,
            b.index as nat,
            b.timestamp as nat,
            b.previous_hash,
            b.payload,
            b.nonce as nat,
        );
    }
}

/// At difficulty zero every nonce seals.
pub proof fn lemma_zero_difficulty_seals(block: BlockModel, nonce: u64)
    ensures
        block.seals(nonce, 0),
{
    lemma_zero_difficulty(block.with_nonce(nonce).digest());
}

/// Among the nonces that seal a block there is a first one.
pub proof fn lemma_first_seal_exists(block: BlockModel, nonce: u64, difficulty: u64)
    requires
        block.nonce < nonce,
        block.seals(nonce, difficulty),
    ensures
        exists|first: u64| block.first_seal(first, difficulty),
    decreases nonce,
{
    if exists|n: u64| block.nonce < n < nonce && block.seals(n, difficulty) {
        let earlier = choose|n: u64| block.nonce < n < nonce && block.seals(n, difficulty);
        lemma_first_seal_exists(block, earlier, difficulty);
    } else {
        assert(block.first_seal(nonce, difficulty));
    }
}

/// Mining seals what can be sealed: the mined block carries the first
/// nonce that seals it, stores its own digest, and that digest meets the
/// difficulty; the fields that mining does not search are as they were.
pub proof fn lemma_mined_is_sealed(block: BlockModel, difficulty: u64)
    requires
        block.can_be_sealed(difficulty),
    ensures
        block.first_seal(block.mined(difficulty).nonce, difficulty),
        block.mined(difficulty) == block.sealed_with(block.mined(difficulty).nonce),
        block.mined(difficulty).is_sealed(),
        meets_difficulty(block.mined(difficulty).hash, difficulty as nat),
{
    let witness = choose|n: u64| block.nonce < n && block.seals(n, difficulty);
    lemma_first_seal_exists(block, witness, difficulty);
    let first = choose|n: u64| block.first_seal(n, difficulty);
    assert(block.mined(difficulty).preimage() == block.with_nonce(first).preimage());
}

/// Mining has one outcome: a block has at most one first sealing nonce at
/// a given difficulty.
pub proof fn lemma_first_seal_unique(block: BlockModel, a: u64, b: u64, difficulty: u64)
    requires
        block.first_seal(a, difficulty),
        block.first_seal(b, difficulty),
    ensures
        a == b,
{
}

} // verus!
