//! The ledger: a genesis block and the blocks appended after it, each
//! naming the hash of the one before.

use crate::block::lemma_mined_is_sealed;
use crate::block::Block;
use crate::block::BlockModel;
use crate::clock::unix_seconds;
use crate::difficulty::meets_difficulty;
use crate::digest::DIGEST_HEX_CHARS;
use vstd::prelude::*;

verus! {

/// An append-only sequence of blocks that begins with a genesis block.
///
/// `blocks` is public, so a chain can be edited by hand; such edits are
/// not prevented, they are found by [`Blockchain::is_chain_valid`].
pub struct Blockchain {
    /// The blocks in order; position zero holds the genesis block.
    pub blocks: Vec<Block>,
}

impl View for Blockchain {
    type V = Seq<BlockModel>;

    open spec fn view(&self) -> Seq<BlockModel> {
        self.blocks@.map_values(|block: Block| block@)
    }
}

/// The previous hash of a genesis block: a mark that nothing precedes it.
pub open spec fn genesis_previous_hash() -> Seq<char> {
    "0"@
}

/// The payload of a genesis block.
pub open spec fn genesis_payload() -> Seq<char> {
    "Genesis Block"@
}

/// The genesis block created at `timestamp`: index zero, unsealed.
pub open spec fn genesis(timestamp: u64) -> BlockModel {
    BlockModel::unsealed(0, timestamp, genesis_previous_hash(), genesis_payload())
}

/// Whether `block` names the hash of `previous` as its previous hash.
pub open spec fn linked(previous: BlockModel, block: BlockModel) -> bool {
    block.previous_hash == previous.hash
}

/// Whether the block at position `i` stores its own digest and is linked
/// to the block before it.
pub open spec fn sound_at(chain: Seq<BlockModel>, i: int) -> bool
    recommends
        1 <= i < chain.len(),
{
    chain[i].is_sealed() && linked(chain[i - 1], chain[i])
}

/// Whether every block after the first is sound. The first block has no
/// predecessor and is not examined.
pub open spec fn chain_valid(chain: Seq<BlockModel>) -> bool {
    forall|i: int| 1 <= i < chain.len() ==> #[trigger] sound_at(chain, i)
}

/// Whether every block stores its own position as its index.
pub open spec fn chain_indexed(chain: Seq<BlockModel>) -> bool {
    forall|i: int| 0 <= i < chain.len() ==> (#[trigger] chain[i]).index == i
}

/// The unsealed block that comes after the last block of `chain`.
pub open spec fn next_block(
    chain: Seq<BlockModel>,
    timestamp: u64,
    payload: Seq<char>,
) -> BlockModel
    recommends
        chain.len() > 0,
        chain.last().index < u64::MAX,
{
    BlockModel::unsealed((chain.last().index + 1) as u64, timestamp, chain.last().hash, payload)
}

/// The chain after an attempt to append `payload` at `timestamp`: longer
/// by the mined next block if that block can be sealed at `difficulty`,
/// and as it was if not.
pub open spec fn appended(
    chain: Seq<BlockModel>,
    timestamp: u64,
    payload: Seq<char>,
    difficulty: u64,
) -> Seq<BlockModel>
    recommends
        chain.len() > 0,
        chain.last().index < u64::MAX,
{
    let candidate = next_block(chain, timestamp, payload);
    if candidate.can_be_sealed(difficulty) {
        chain.push(candidate.mined(difficulty))
    } else {
        chain
    }
}

/// Whether `after` and `added` are what an attempt to append `payload` at
/// `timestamp` makes of the chain `before`.
pub open spec fn append_outcome(
    before: Seq<BlockModel>,
    after: Seq<BlockModel>,
    added: bool,
    timestamp: u64,
    payload: Seq<char>,
    difficulty: u64,
) -> bool {
    &&& after == appended(before, timestamp, payload, difficulty)
    &&& added == next_block(before, timestamp, payload).can_be_sealed(difficulty)
}

/// Whether `after` is `before` and one block more, and that block carries
/// `payload`, stores the next index, names the hash of the block that was
/// last, and is sealed with a digest that meets `difficulty`.
pub open spec fn grown_by_one(
    before: Seq<BlockModel>,
    after: Seq<BlockModel>,
    payload: Seq<char>,
    difficulty: u64,
) -> bool {
    &&& after.len() == before.len() + 1
    &&& after.drop_last() == before
    &&& after.last().index == before.last().index + 1
    &&& after.last().payload == payload
    &&& linked(before.last(), after.last())
    &&& after.last().is_sealed()
    &&& after.last().hash.len() == DIGEST_HEX_CHARS
    &&& meets_difficulty(after.last().hash, difficulty as nat)
}

impl Blockchain {
    /// Creates a chain that holds the genesis block and nothing else.
    ///
    /// The genesis block is stamped with the current time and left
    /// unsealed; see [`Block::new`] for the clock.
    pub fn new() -> (chain: Blockchain)
        ensures
            chain@.len() == 1,
            chain@[0] == genesis(chain@[0].timestamp),
            chain_valid(chain@),
            chain_indexed(chain@),
    {
        let genesis = Block::new(0, "0".to_owned(), "Genesis Block".to_owned());
        let mut blocks: Vec<Block> = Vec::new();
        blocks.push(genesis);
        let chain = Blockchain { blocks };
        proof {
            assert(chain@ =~= seq![genesis@]);
        }
        chain
    }

    /// Appends a block that carries `data`, stamped with the current time
    /// and mined at `difficulty`.
    ///
    /// The call returns when the search for a nonce ends. It returns
    /// `false`, with the chain as it was, when the block cannot be sealed
    /// (see [`Block::mine`]): a block enters the chain sealed or not at all.
    pub fn add_block(&mut self, data: String, difficulty: u64) -> (added: bool)
        requires
            old(self)@.len() > 0,
            old(self)@.last().index < u64::MAX,
        ensures
            exists|timestamp: u64| #[trigger]
                append_outcome(old(self)@, final(self)@, added, timestamp, data@, difficulty),
            added ==> grown_by_one(old(self)@, final(self)@, data@, difficulty),
            !added ==> final(self)@ == old(self)@,
            difficulty == 0 ==> added,
            chain_valid(old(self)@) ==> chain_valid(final(self)@),
            chain_indexed(old(self)@) ==> chain_indexed(final(self)@),
    {
        let timestamp = unix_seconds();
        let ghost payload = data@;
        let added = self.add_block_at(timestamp, data, difficulty);
        proof {
            assert(append_outcome(old(self)@, self@, added, timestamp, payload, difficulty));
        }
        added
    }

    /// Appends a block that carries `data`, stamped with `timestamp` and
    /// mined at `difficulty`.
    ///
    /// Returns `false`, with the chain as it was, when the block cannot be
    /// sealed.
    pub fn add_block_at(&mut self, timestamp: u64, data: String, difficulty: u64) -> (added: bool)
        requires
            old(self)@.len() > 0,
            old(self)@.last().index < u64::MAX,
        ensures
            append_outcome(old(self)@, final(self)@, added, timestamp, data@, difficulty),
            added ==> grown_by_one(old(self)@, final(self)@, data@, difficulty),
            added ==> final(self)@.last().timestamp == timestamp,
            !added ==> final(self)@ == old(self)@,
            difficulty == 0 ==> added,
            chain_valid(old(self)@) ==> chain_valid(final(self)@),
            chain_indexed(old(self)@) ==> chain_indexed(final(self)@),
    {
        let last = &self.blocks[self.blocks.len() - 1];
        assert(last@ == old(self)@.last());
        let index = last.index + 1;
        let previous_hash = last.hash.clone();
        let mut block = Block::with_timestamp(index, timestamp, previous_hash, data);
        assert(block@ == next_block(old(self)@, timestamp, data@));
        let sealed = block.mine(difficulty);
        if sealed {
            self.blocks.push(block);
            proof {
                assert(self@ =~= old(self)@.push(block@));
                assert(self@.drop_last() =~= old(self)@);
            }
        }
        proof {
            if chain_valid(old(self)@) {
                lemma_append_keeps_valid(old(self)@, timestamp, data@, difficulty);
            }
            if chain_indexed(old(self)@) {
                lemma_append_keeps_indexed(old(self)@, timestamp, data@, difficulty);
            }
        }
        sealed
    }

    /// Checks every block after the first: that it stores the digest of
    /// its own fields, and that it names the hash of the block before it.
    ///
    /// The answer is yes or no; it does not say which block failed or how.
    pub fn is_chain_valid(&self) -> (valid: bool)
        ensures
            valid == chain_valid(self@),
    {
        let mut i: usize = 1;
        while i < self.blocks.len()
            invariant
                1 <= i,
                forall|k: int| 1 <= k < i && k < self@.len() ==> #[trigger] sound_at(self@, k),
            decreases self.blocks.len() - i,
        {
            let current = &self.blocks[i];
            let previous = &self.blocks[i - 1];
            assert(current@ == self@[i as int]);
            assert(previous@ == self@[i - 1]);
            let digest = current.calculate_hash();
            if current.hash != digest {
                assert(!sound_at(self@, i as int));
                return false;
            }
            if current.previous_hash != previous.hash {
                assert(!sound_at(self@, i as int));
                return false;
            }
            i += 1;
        }
        true
    }
}

/// A sound block keeps a valid chain valid: if `block` stores its own
/// digest and names the hash of the last block, the longer chain is valid.
pub proof fn lemma_push_keeps_valid(chain: Seq<BlockModel>, block: BlockModel)
    requires
        chain.len() > 0,
        chain_valid(chain),
        block.is_sealed(),
        linked(chain.last(), block),
    ensures
        chain_valid(chain.push(block)),
{
    let longer = chain.push(block);
    assert forall|i: int| 1 <= i < longer.len() implies #[trigger] sound_at(longer, i) by {
        if i < chain.len() {
            assert(sound_at(chain, i));
        }
    }
}

/// Appending keeps a valid chain valid, whether or not a block was added.
pub proof fn lemma_append_keeps_valid(
    chain: Seq<BlockModel>,
    timestamp: u64,
    payload: Seq<char>,
    difficulty: u64,
)
    requires
        chain.len() > 0,
        chain_valid(chain),
    ensures
        chain_valid(appended(chain, timestamp, payload, difficulty)),
{
    let candidate = next_block(chain, timestamp, payload);
    if candidate.can_be_sealed(difficulty) {
        lemma_mined_is_sealed(candidate, difficulty);
        lemma_push_keeps_valid(chain, candidate.mined(difficulty));
    }
}

/// Appending keeps every index equal to its position.
pub proof fn lemma_append_keeps_indexed(
    chain: Seq<BlockModel>,
    timestamp: u64,
    payload: Seq<char>,
    difficulty: u64,
)
    requires
        chain.len() > 0,
        chain.last().index < u64::MAX,
        chain_indexed(chain),
    ensures
        chain_indexed(appended(chain, timestamp, payload, difficulty)),
{
    let candidate = next_block(chain, timestamp, payload);
    if candidate.can_be_sealed(difficulty) {
        lemma_mined_is_sealed(candidate, difficulty);
    }
}

/// A chain in which every block stores its position can always take
/// another block: the index after its last one fits.
pub proof fn lemma_indexed_has_room(chain: &Blockchain)
    requires
        chain@.len() > 0,
        chain_indexed(chain@),
    ensures
        chain@.last().index < u64::MAX,
{
    assert(chain@.len() == chain.blocks.len());
}

/// Appending adds at most one block, after the blocks that were there,
/// and the block it adds names the hash of the one that was last.
pub proof fn lemma_append_extends(
    chain: Seq<BlockModel>,
    timestamp: u64,
    payload: Seq<char>,
    difficulty: u64,
)
    requires
        chain.len() > 0,
    ensures
        chain.is_prefix_of(appended(chain, timestamp, payload, difficulty)),
        appended(chain, timestamp, payload, difficulty).len() <= chain.len() + 1,
        appended(chain, timestamp, payload, difficulty).len() == chain.len() + 1 ==> linked(
            chain.last(),
            appended(chain, timestamp, payload, difficulty).last(),
        ),
{
    let candidate = next_block(chain, timestamp, payload);
    if candidate.can_be_sealed(difficulty) {
        lemma_mined_is_sealed(candidate, difficulty);
        assert(chain =~= chain.push(candidate.mined(difficulty)).subrange(0, chain.len() as int));
    } else {
        assert(chain =~= chain.subrange(0, chain.len() as int));
    }
}

} // verus!
