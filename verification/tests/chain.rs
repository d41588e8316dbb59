use hashchain::Block;
use hashchain::Blockchain;

fn chain_from(timestamp: u64) -> Blockchain {
    let genesis = Block::with_timestamp(0, timestamp, String::from("0"), String::from("Genesis Block"));
    Blockchain { blocks: vec![genesis] }
}

fn three_blocks() -> Blockchain {
    let mut chain = chain_from(1_700_000_000);
    assert!(chain.add_block_at(1_700_000_001, String::from("Block 1 Data"), 1));
    assert!(chain.add_block_at(1_700_000_002, String::from("Block 2 Data"), 1));
    assert!(chain.add_block_at(1_700_000_003, String::from("Block 3 Data"), 1));
    chain
}

#[test]
fn a_new_chain_holds_the_genesis_block() {
    let chain = Blockchain::new();
    assert_eq!(chain.blocks.len(), 1);
    assert_eq!(chain.blocks[0].index, 0);
    assert_eq!(chain.blocks[0].previous_hash, "0");
    assert_eq!(chain.blocks[0].data, "Genesis Block");
    assert_eq!(chain.blocks[0].nonce, 0);
    assert_eq!(chain.blocks[0].hash, "");
    assert!(chain.is_chain_valid());
}

#[test]
fn appending_adds_one_linked_block() {
    let mut chain = Blockchain::new();
    assert!(chain.add_block(String::from("first"), 1));
    let before = chain.blocks.len();
    let last_hash = chain.blocks[before - 1].hash.clone();

    assert!(chain.add_block(String::from("X"), 2));

    assert_eq!(chain.blocks.len(), before + 1);
    let added = &chain.blocks[before];
    assert_eq!(added.previous_hash, last_hash);
    assert_eq!(added.index, before as u64);
    assert_eq!(added.data, "X");
    assert!(added.hash.starts_with("00"));
    assert_eq!(added.hash, added.calculate_hash());
    assert!(chain.is_chain_valid());
}

#[test]
fn the_first_appended_block_names_the_empty_genesis_hash() {
    let mut chain = Blockchain::new();
    assert!(chain.add_block(String::from("X"), 2));
    assert_eq!(chain.blocks[1].previous_hash, "");
    assert_eq!(chain.blocks[1].index, 1);
    assert!(chain.is_chain_valid());
}

#[test]
fn appending_at_difficulty_zero_takes_the_first_nonce() {
    let mut chain = Blockchain::new();
    assert!(chain.add_block(String::from("easy"), 0));
    assert_eq!(chain.blocks.len(), 2);
    assert_eq!(chain.blocks[1].nonce, 1);
    assert!(chain.is_chain_valid());
}

#[test]
fn appending_at_a_given_time_is_reproducible() {
    let chain = three_blocks();
    assert_eq!(chain.blocks.len(), 4);

    assert_eq!(chain.blocks[1].index, 1);
    assert_eq!(chain.blocks[1].timestamp, 1_700_000_001);
    assert_eq!(chain.blocks[1].previous_hash, "");
    assert_eq!(chain.blocks[1].data, "Block 1 Data");
    assert_eq!(chain.blocks[1].nonce, 2);
    assert_eq!(
        chain.blocks[1].hash,
        "0260f50545aa20d7156d2879648ccc853b55eba287b336cbe298074e735cc7b3"
    );

    assert_eq!(chain.blocks[2].index, 2);
    assert_eq!(chain.blocks[2].timestamp, 1_700_000_002);
    assert_eq!(
        chain.blocks[2].previous_hash,
        "0260f50545aa20d7156d2879648ccc853b55eba287b336cbe298074e735cc7b3"
    );
    assert_eq!(chain.blocks[2].nonce, 8);
    assert_eq!(
        chain.blocks[2].hash,
        "049186edc377063c61902716f5e87a7f33d41ceff2ee50b986c23ebe62e9f727"
    );

    assert_eq!(chain.blocks[3].index, 3);
    assert_eq!(
        chain.blocks[3].previous_hash,
        "049186edc377063c61902716f5e87a7f33d41ceff2ee50b986c23ebe62e9f727"
    );
    assert_eq!(chain.blocks[3].nonce, 43);
    assert_eq!(
        chain.blocks[3].hash,
        "04c8dd16ac2fa708e1b6a2286dbd3c59db50ddb0ae4fefe4681499a8d48fbc17"
    );

    assert!(chain.is_chain_valid());
}

#[test]
fn appending_at_difficulty_two_at_a_given_time() {
    let mut chain = chain_from(1_700_000_000);
    assert!(chain.add_block_at(1_700_000_100, String::from("X"), 2));
    assert_eq!(chain.blocks[1].nonce, 74);
    assert_eq!(
        chain.blocks[1].hash,
        "0028ede0fc30e3df761efdfad8b4fbf392ee9c9af45b02b31324cd91d40c3942"
    );
}

#[test]
fn three_blocks_then_a_corrupted_payload() {
    let mut chain = Blockchain::new();
    assert!(chain.add_block(String::from("Block 1 Data"), 1));
    assert!(chain.add_block(String::from("Block 2 Data"), 1));
    assert!(chain.add_block(String::from("Block 3 Data"), 1));

    assert_eq!(chain.blocks.len(), 4);
    for block in &chain.blocks[1..] {
        assert!(block.hash.starts_with('0'));
    }
    for (position, block) in chain.blocks.iter().enumerate() {
        assert_eq!(block.index, position as u64);
    }
    assert!(chain.is_chain_valid());

    chain.blocks[2].data = String::from("Block 2 Data, rewritten");
    assert!(!chain.is_chain_valid());
}

#[test]
fn an_edit_to_any_field_of_a_sealed_block_is_found() {
    let mut chain = three_blocks();
    chain.blocks[2].index = 7;
    assert!(!chain.is_chain_valid());

    let mut chain = three_blocks();
    chain.blocks[2].timestamp += 1;
    assert!(!chain.is_chain_valid());

    let mut chain = three_blocks();
    chain.blocks[2].previous_hash = String::from("0");
    assert!(!chain.is_chain_valid());

    let mut chain = three_blocks();
    chain.blocks[2].data = String::from("Block 2 data");
    assert!(!chain.is_chain_valid());

    let mut chain = three_blocks();
    chain.blocks[2].nonce += 1;
    assert!(!chain.is_chain_valid());

    let mut chain = three_blocks();
    chain.blocks[2].hash = String::from("0");
    assert!(!chain.is_chain_valid());
}

#[test]
fn an_edit_to_the_last_block_is_found() {
    let mut chain = three_blocks();
    chain.blocks[3].data = String::new();
    assert!(!chain.is_chain_valid());
}

#[test]
fn an_edit_to_the_genesis_payload_is_not_examined() {
    let mut chain = three_blocks();
    chain.blocks[0].data = String::from("another beginning");
    assert!(chain.is_chain_valid());
}

#[test]
fn an_edit_to_the_genesis_hash_breaks_the_link() {
    let mut chain = three_blocks();
    chain.blocks[0].hash = String::from("00");
    assert!(!chain.is_chain_valid());
}

#[test]
fn a_resealed_block_in_the_middle_breaks_the_next_link() {
    let mut chain = three_blocks();
    chain.blocks[2].data = String::from("rewritten");
    chain.blocks[2].hash = chain.blocks[2].calculate_hash();
    assert_eq!(chain.blocks[2].hash, chain.blocks[2].calculate_hash());
    assert!(!chain.is_chain_valid());
}

#[test]
fn a_resealed_last_block_passes() {
    let mut chain = three_blocks();
    chain.blocks[3].data = String::from("rewritten");
    chain.blocks[3].hash = chain.blocks[3].calculate_hash();
    assert!(chain.is_chain_valid());
}

#[test]
fn a_spliced_block_that_is_sealed_but_unlinked_is_found() {
    let mut chain = three_blocks();
    let mut stranger = Block::with_timestamp(2, 1_700_000_050, String::from("not the hash before"), String::from("spliced"));
    assert!(stranger.mine(1));
    assert_eq!(stranger.hash, stranger.calculate_hash());
    chain.blocks.insert(2, stranger);
    for block in &chain.blocks[1..] {
        assert_eq!(block.hash, block.calculate_hash());
    }
    assert!(!chain.is_chain_valid());
}

#[test]
fn swapped_blocks_are_found() {
    let mut chain = three_blocks();
    chain.blocks.swap(1, 2);
    assert!(!chain.is_chain_valid());
}

#[test]
fn a_removed_block_is_found() {
    let mut chain = three_blocks();
    chain.blocks.remove(2);
    assert!(!chain.is_chain_valid());
}

#[test]
fn a_chain_cut_short_is_still_valid() {
    let mut chain = three_blocks();
    chain.blocks.pop();
    assert!(chain.is_chain_valid());
}

#[test]
fn a_chain_of_no_blocks_has_nothing_to_fail() {
    let chain = Blockchain { blocks: Vec::new() };
    assert!(chain.is_chain_valid());
}

#[test]
fn appending_to_an_edited_chain_does_not_repair_it() {
    let mut chain = three_blocks();
    chain.blocks[1].data = String::from("rewritten");
    assert!(chain.add_block(String::from("after the edit"), 1));
    assert_eq!(chain.blocks.len(), 5);
    assert!(!chain.is_chain_valid());
}
