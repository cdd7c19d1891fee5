use poh_chain::block::{CommittedBlock, PendingBlock};
use poh_chain::errors::ChainError;
use poh_chain::poh::{Poh, Uninitialized, Verified};
use poh_chain::transaction::{Transaction, ValidatedTransaction};

fn make_tx(i: u32) -> ValidatedTransaction {
    let mut tx = Transaction::new(
        i,
        format!("sender_{}", i).into_bytes(),
        format!("receiver_{}", i).into_bytes(),
        ((i * 10) as f64).to_bits(),
    );
    tx.sign(format!("signature_{}", i).into_bytes());
    tx.validate().expect("transaction must validate")
}

fn chain_with_entries(count: u32) -> Poh<Verified> {
    let mut chain = Poh::<Uninitialized>::new()
        .initialize(1)
        .verify_genesis()
        .expect("genesis must verify");
    let txs: Vec<ValidatedTransaction> = (0..count).map(make_tx).collect();
    chain.append_entries(1000, txs).expect("batch append");
    chain
}

fn committed_block(chain: &Poh<Verified>) -> CommittedBlock {
    let mut pending = PendingBlock::new(b"prev-block".to_vec(), 4);
    pending.add_transaction(make_tx(0)).expect("under capacity");
    pending.add_transaction(make_tx(1)).expect("under capacity");
    let entry = &chain.entries[1];
    pending.finalize(1, (entry.timestamp, entry.poh_hash.clone()))
}

#[test]
fn zero_capacity_block_signals_capacity_exceeded() {
    // A block with max_transactions = 0 accepts nothing: the attempt is
    // signalled, never silently dropped.
    let mut pending = PendingBlock::new(b"prev".to_vec(), 0);
    assert_eq!(
        pending.add_transaction(make_tx(0)).err(),
        Some(ChainError::InvalidArgument)
    );
    assert!(pending.transactions.is_empty());
}

#[test]
fn capacity_bound_is_enforced() {
    let mut pending = PendingBlock::new(b"prev".to_vec(), 2);
    assert!(pending.add_transaction(make_tx(0)).is_ok());
    assert!(pending.add_transaction(make_tx(1)).is_ok());
    assert_eq!(
        pending.add_transaction(make_tx(2)).err(),
        Some(ChainError::InvalidArgument)
    );
    assert_eq!(pending.transactions.len(), 2);
}

#[test]
fn malformed_transaction_is_rejected_by_block() {
    let mut pending = PendingBlock::new(b"prev".to_vec(), 4);
    let bad = ValidatedTransaction {
        id: 9,
        sender: vec![0u8],
        receiver: b"r".to_vec(),
        amount: 0,
        signature: b"s".to_vec(),
    };
    assert_eq!(
        pending.add_transaction(bad).err(),
        Some(ChainError::InvalidArgument)
    );
    assert!(pending.transactions.is_empty());
}

#[test]
fn finalize_then_verify_round_trip() {
    let chain = chain_with_entries(3);
    let block = committed_block(&chain);
    assert!(block.verify(&chain));
}

#[test]
fn finalize_binds_reference_timestamp() {
    let chain = chain_with_entries(3);
    let block = committed_block(&chain);
    assert_eq!(block.index, 1);
    assert_eq!(block.timestamp, chain.entries[1].timestamp);
    assert_eq!(block.previous_hash, b"prev-block".to_vec());
    assert_eq!(block.transactions.len(), 2);
}

#[test]
fn block_hash_matches_direct_recomputation() {
    let chain = chain_with_entries(1);
    let block = committed_block(&chain);
    let mut input = Vec::new();
    input.extend_from_slice(&block.index.to_le_bytes());
    input.extend_from_slice(&block.previous_hash);
    input.extend_from_slice(&block.timestamp.to_le_bytes());
    for tx in &block.transactions {
        input.extend_from_slice(&tx.to_bytes().expect("canonical bytes"));
    }
    assert_eq!(block.hash.as_slice(), blake3::hash(&input).as_bytes());
}

#[test]
fn mutated_hash_fails_verification() {
    let chain = chain_with_entries(3);
    let mut block = committed_block(&chain);
    block.hash[3] ^= 1;
    assert!(!block.verify(&chain));
}

#[test]
fn mutated_timestamp_fails_verification() {
    let chain = chain_with_entries(3);
    let mut block = committed_block(&chain);
    block.timestamp += 1;
    assert!(!block.verify(&chain));
}

#[test]
fn mutated_previous_hash_fails_verification() {
    let chain = chain_with_entries(3);
    let mut block = committed_block(&chain);
    block.previous_hash[0] ^= 1;
    assert!(!block.verify(&chain));
}

#[test]
fn mutated_transaction_fails_verification() {
    let chain = chain_with_entries(3);
    let mut block = committed_block(&chain);
    block.transactions[0].amount ^= 1;
    assert!(!block.verify(&chain));
}

#[test]
fn unresolved_reference_fails_verification() {
    let chain = chain_with_entries(3);
    let mut pending = PendingBlock::new(b"prev".to_vec(), 4);
    pending.add_transaction(make_tx(0)).expect("under capacity");
    // A timestamp the chain does not contain.
    let block = pending.finalize(1, (999, chain.entries[1].poh_hash.clone()));
    assert!(!block.verify(&chain));
}

#[test]
fn reference_with_wrong_hash_fails_verification() {
    let chain = chain_with_entries(3);
    let mut block = committed_block(&chain);
    block.poh_reference.1[0] ^= 1;
    assert!(!block.verify(&chain));
}

#[test]
fn block_verification_is_idempotent() {
    let chain = chain_with_entries(3);
    let block = committed_block(&chain);
    let r1 = block.verify(&chain);
    let r2 = block.verify(&chain);
    assert_eq!(r1, r2);
    assert!(r1);

    let mut broken = committed_block(&chain);
    broken.hash[0] ^= 1;
    let b1 = broken.verify(&chain);
    let b2 = broken.verify(&chain);
    assert_eq!(b1, b2);
    assert!(!b1);
}

#[test]
fn scenario_block_against_genesis_entry() {
    // A block finalized at index 1 referencing entry 0's (timestamp, hash)
    // verifies; a reference to an absent timestamp does not.
    let chain = chain_with_entries(3);
    let genesis = &chain.entries[0];

    let mut pending = PendingBlock::new(b"prev".to_vec(), 4);
    pending.add_transaction(make_tx(5)).expect("under capacity");
    let good = pending.finalize(1, (genesis.timestamp, genesis.poh_hash.clone()));
    assert!(good.verify(&chain));

    let mut pending = PendingBlock::new(b"prev".to_vec(), 4);
    pending.add_transaction(make_tx(5)).expect("under capacity");
    let bad = pending.finalize(1, (genesis.timestamp + 7, genesis.poh_hash.clone()));
    assert!(!bad.verify(&chain));
}
