use poh_chain::poh::{Poh, Uninitialized, Verified};
use poh_chain::transaction::{Transaction, ValidatedTransaction};

fn make_tx(i: u32) -> ValidatedTransaction {
    let mut tx = Transaction::new(
        i,
        format!("sender_{}", i).into_bytes(),
        format!("receiver_{}", i).into_bytes(),
        ((i * 10) as f64).to_bits(),
    );
    tx.sign(format!("signature_{}", i).into_bytes());
    tx.validate().expect("transaction must validate")
}

fn chain_with_entries(count: u32) -> Poh<Verified> {
    let mut chain = Poh::<Uninitialized>::new()
        .initialize(1)
        .verify_genesis()
        .expect("genesis must verify");
    let txs: Vec<ValidatedTransaction> = (0..count).map(make_tx).collect();
    chain.append_entries(100, txs).expect("batch append");
    chain
}

#[test]
fn every_entry_reference_is_accepted() {
    let chain = chain_with_entries(5);
    for entry in &chain.entries {
        let reference = (entry.timestamp, entry.poh_hash.clone());
        assert!(chain.verify_reference(&reference));
    }
}

#[test]
fn corrupted_hash_reference_is_refused() {
    let chain = chain_with_entries(5);
    for entry in &chain.entries {
        let mut corrupted = entry.poh_hash.clone();
        corrupted[0] ^= 1;
        let reference = (entry.timestamp, corrupted);
        assert!(!chain.verify_reference(&reference));

        let truncated = (entry.timestamp, entry.poh_hash[1..].to_vec());
        assert!(!chain.verify_reference(&truncated));
    }
}

#[test]
fn absent_timestamp_reference_is_refused() {
    let chain = chain_with_entries(3);
    // Entries sit at timestamps 1, 100, 101, 102.
    let some_hash = chain.entries[1].poh_hash.clone();
    for t in [0u64, 2, 99, 103, 999, u64::MAX] {
        assert!(!chain.verify_reference(&(t, some_hash.clone())));
    }
}

#[test]
fn reference_lookup_on_long_chain() {
    let chain = chain_with_entries(33);
    for entry in &chain.entries {
        assert!(chain.verify_reference(&(entry.timestamp, entry.poh_hash.clone())));
    }
    assert!(!chain.verify_reference(&(50, chain.entries[0].poh_hash.clone())));
}
