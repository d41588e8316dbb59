//! What the validity check of a chain is guaranteed to find.

use crate::block::lemma_distinct_fields_distinct_preimage;
use crate::block::BlockModel;
use crate::chain::chain_valid;
use crate::chain::linked;
use crate::chain::sound_at;
use crate::digest::collide;
use crate::digest::lemma_hex_string_injective;
use crate::digest::sha256;
use vstd::prelude::*;

verus! {

/// An edit to a hashed field is found: if a block after the first of a
/// valid chain is changed in its index, timestamp, previous hash, payload
/// or nonce while its stored hash is left alone, the chain is no longer
/// valid, unless the changed fields are hashed to the same digest as the
/// old ones.
pub proof fn lemma_field_edit_detected(chain: Seq<BlockModel>, i: int, edited: BlockModel)
    requires
        chain_valid(chain),
        1 <= i < chain.len(),
        edited.hash == chain[i].hash,
        !edited.same_hashed_fields(chain[i]),
        !collide(edited.preimage(), chain[i].preimage()),
    ensures
        !chain_valid(chain.update(i, edited)),
{
    assert(sound_at(chain, i));
    lemma_distinct_fields_distinct_preimage(edited, chain[i]);
    if edited.digest() == chain[i].digest() {
        lemma_hex_string_injective(sha256(edited.preimage()), sha256(chain[i].preimage()));
    }
    assert(!sound_at(chain.update(i, edited), i));
}

/// An edit to a stored hash is found: if the hash of a block after the
/// first of a valid chain is changed and nothing else, the chain is no
/// longer valid.
pub proof fn lemma_hash_edit_detected(chain: Seq<BlockModel>, i: int, edited: BlockModel)
    requires
        chain_valid(chain),
        1 <= i < chain.len(),
        edited.same_hashed_fields(chain[i]),
        edited.hash != chain[i].hash,
    ensures
        !chain_valid(chain.update(i, edited)),
{
    assert(sound_at(chain, i));
    assert(!sound_at(chain.update(i, edited), i));
}

/// A spliced block is found: a chain into which a block is inserted that
/// does not name the hash of the block before it is not valid, whether or
/// not each block stores its own digest.
pub proof fn lemma_splice_detected(chain: Seq<BlockModel>, i: int, block: BlockModel)
    requires
        1 <= i <= chain.len(),
        !linked(chain[i - 1], block),
    ensures
        !chain_valid(chain.insert(i, block)),
{
    assert(!sound_at(chain.insert(i, block), i));
}

/// A replaced block is found in the same way: a chain in which a block
/// after the first is exchanged for one that does not name the hash of
/// the block before it is not valid.
pub proof fn lemma_unlinked_replacement_detected(chain: Seq<BlockModel>, i: int, block: BlockModel)
    requires
        1 <= i < chain.len(),
        !linked(chain[i - 1], block),
    ensures
        !chain_valid(chain.update(i, block)),
{
    assert(!sound_at(chain.update(i, block), i));
}

} // verus!
