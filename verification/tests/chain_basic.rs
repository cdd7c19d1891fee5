use poh_chain::errors::ChainError;
use poh_chain::poh::{Poh, PohEntry, Uninitialized, Verified};
use poh_chain::transaction::{Transaction, ValidatedTransaction};

fn make_tx(i: u32) -> ValidatedTransaction {
    let mut tx = Transaction::new(
        i,
        format!("sender_{}", i).into_bytes(),
        format!("receiver_{}", i).into_bytes(),
        ((i * 10) as f64).to_bits(),
    );
    tx.sign(format!("signature_{}", i).into_bytes());
    tx.validate().expect("transaction must validate")
}

fn verified_chain(genesis_time: u64) -> Poh<Verified> {
    Poh::<Uninitialized>::new()
        .initialize(genesis_time)
        .verify_genesis()
        .expect("genesis must verify")
}

#[test]
fn genesis_chain_verifies() {
    let verified = verified_chain(5);
    assert!(verified.verify_entries());
    assert_eq!(verified.entries.len(), 1);
    assert_eq!(verified.entries[0].timestamp, 5);
}

#[test]
fn genesis_hash_is_blake3_of_seed() {
    let verified = verified_chain(0);
    let expected = blake3::hash(b"genesis");
    assert_eq!(verified.entries[0].poh_hash.as_slice(), expected.as_bytes());
}

#[test]
fn tampered_genesis_is_rejected() {
    let chain = Poh::<Uninitialized>::new().initialize(5);
    let mut entries = chain.entries;
    entries[0].poh_hash[0] ^= 1;
    let tampered = Poh {
        entries,
        state: poh_chain::poh::Initialized,
    };
    assert_eq!(tampered.verify_genesis().err(), Some(ChainError::IntegrityError));
}

#[test]
fn empty_initialized_chain_is_rejected() {
    let empty = Poh {
        entries: Vec::new(),
        state: poh_chain::poh::Initialized,
    };
    assert_eq!(empty.verify_genesis().err(), Some(ChainError::IntegrityError));
}

#[test]
fn batch_append_then_verify_chain() {
    // For a non-empty batch, appendEntries followed by verifyChain is true.
    for count in 1..6u32 {
        let mut chain = verified_chain(1);
        let txs: Vec<ValidatedTransaction> = (0..count).map(make_tx).collect();
        let hashes = chain.append_entries(100, txs).expect("batch append must succeed");
        assert_eq!(hashes.len(), count as usize);
        assert!(chain.verify_entries());
    }
}

#[test]
fn concrete_scenario_three_transactions() {
    // Seed "genesis", one batch of ids 0, 1, 2 at base time 1000.
    let mut chain = verified_chain(10);
    let txs: Vec<ValidatedTransaction> = (0..3).map(make_tx).collect();
    let hashes = chain.append_entries(1000, txs).expect("batch append must succeed");

    assert_eq!(chain.entries.len(), 4);
    assert_eq!(chain.entries[1].timestamp, 1000);
    assert_eq!(chain.entries[2].timestamp, 1001);
    assert_eq!(chain.entries[3].timestamp, 1002);

    assert_eq!(hashes.len(), 3);
    assert_ne!(hashes[0], hashes[1]);
    assert_ne!(hashes[1], hashes[2]);
    assert_ne!(hashes[0], hashes[2]);
    for (i, h) in hashes.iter().enumerate() {
        assert_eq!(&chain.entries[i + 1].poh_hash, h);
    }

    assert!(chain.verify_entries());
}

#[test]
fn batch_append_equals_sequential_appends() {
    let mut batch_chain = verified_chain(1);
    let txs: Vec<ValidatedTransaction> = (0..4).map(make_tx).collect();
    let batch_hashes = batch_chain.append_entries(50, txs).expect("batch append");

    let mut single_chain = verified_chain(1);
    let mut single_hashes = Vec::new();
    for (offset, tx) in (0..4).map(make_tx).enumerate() {
        let h = single_chain
            .append_entry(50 + offset as u64, Some(tx))
            .expect("single append");
        single_hashes.push(h);
    }

    assert_eq!(batch_hashes, single_hashes);
    assert_eq!(batch_chain.entries.len(), single_chain.entries.len());
    for (a, b) in batch_chain.entries.iter().zip(single_chain.entries.iter()) {
        assert_eq!(a.timestamp, b.timestamp);
        assert_eq!(a.poh_hash, b.poh_hash);
    }
}

#[test]
fn entry_hash_matches_direct_recomputation() {
    let mut chain = verified_chain(1);
    let tx = make_tx(7);
    let tx_bytes = tx.to_bytes().expect("canonical bytes");
    let genesis_hash = chain.entries[0].poh_hash.clone();
    let h = chain.append_entry(42, Some(tx)).expect("append");

    let mut input = genesis_hash;
    input.extend_from_slice(&42u64.to_le_bytes());
    input.extend_from_slice(&tx_bytes);
    assert_eq!(h.as_slice(), blake3::hash(&input).as_bytes());
}

#[test]
fn empty_tick_append() {
    let mut chain = verified_chain(1);
    let h = chain.append_entry(9, None).expect("tick append");
    assert_eq!(chain.entries.len(), 2);
    assert_eq!(chain.entries[1].poh_hash, h);
    assert!(chain.entries[1].transactions.is_empty());
    assert!(chain.verify_entries());
}

#[test]
fn non_monotonic_timestamp_is_a_configuration_error() {
    let mut chain = verified_chain(100);
    assert_eq!(
        chain.append_entry(100, None).err(),
        Some(ChainError::ConfigurationError)
    );
    assert_eq!(
        chain.append_entry(99, Some(make_tx(0))).err(),
        Some(ChainError::ConfigurationError)
    );
    let txs: Vec<ValidatedTransaction> = (0..2).map(make_tx).collect();
    assert_eq!(
        chain.append_entries(100, txs).err(),
        Some(ChainError::ConfigurationError)
    );
    // The chain is unchanged by the failures.
    assert_eq!(chain.entries.len(), 1);
    assert!(chain.verify_entries());
}

#[test]
fn empty_batch_is_an_invalid_argument() {
    let mut chain = verified_chain(1);
    assert_eq!(
        chain.append_entries(10, Vec::new()).err(),
        Some(ChainError::InvalidArgument)
    );
}

#[test]
fn transaction_with_separator_byte_is_rejected_by_append() {
    let mut chain = verified_chain(1);
    let bad = ValidatedTransaction {
        id: 1,
        sender: vec![b'a', 0u8, b'b'],
        receiver: b"r".to_vec(),
        amount: 0,
        signature: b"s".to_vec(),
    };
    assert_eq!(
        chain.append_entry(10, Some(bad.clone())).err(),
        Some(ChainError::InvalidArgument)
    );
    assert_eq!(
        chain.append_entries(10, vec![bad.clone()]).err(),
        Some(ChainError::InvalidArgument)
    );
    assert_eq!(chain.entries.len(), 1);
}

#[test]
fn corrupted_entry_fails_verification() {
    let mut chain = verified_chain(1);
    let txs: Vec<ValidatedTransaction> = (0..3).map(make_tx).collect();
    chain.append_entries(100, txs).expect("batch append");
    assert!(chain.verify_entries());
    chain.entries[2].poh_hash[5] ^= 0xff;
    assert!(!chain.verify_entries());
}

#[test]
fn empty_chain_fails_verification() {
    let chain: Poh<Verified> = Poh {
        entries: Vec::new(),
        state: Verified {
            last_hash: Vec::new(),
            last_timestamp: 0,
        },
    };
    assert!(!chain.verify_entries());
}

#[test]
fn verify_entries_is_idempotent() {
    let mut chain = verified_chain(1);
    let txs: Vec<ValidatedTransaction> = (0..3).map(make_tx).collect();
    chain.append_entries(100, txs).expect("batch append");
    let first = chain.verify_entries();
    let second = chain.verify_entries();
    let third = chain.verify_entries();
    assert_eq!(first, second);
    assert_eq!(second, third);
    assert!(first);

    chain.entries[1].poh_hash[0] ^= 1;
    let broken_first = chain.verify_entries();
    let broken_second = chain.verify_entries();
    assert_eq!(broken_first, broken_second);
    assert!(!broken_first);
}

#[test]
fn tip_follows_appends() {
    let mut chain = verified_chain(3);
    let h1 = chain.append_entry(10, Some(make_tx(1))).expect("append");
    assert_eq!(chain.state.last_hash, h1);
    assert_eq!(chain.state.last_timestamp, 10);
    let hs = chain
        .append_entries(20, (0..2).map(make_tx).collect())
        .expect("batch append");
    assert_eq!(chain.state.last_hash, hs[1]);
    assert_eq!(chain.state.last_timestamp, 21);
    let last: &PohEntry = chain.entries.last().unwrap();
    assert_eq!(last.poh_hash, chain.state.last_hash);
}
