use poh_chain::errors::ChainError;
use poh_chain::transaction::{Transaction, ValidatedTransaction};

#[test]
fn unsigned_transaction_does_not_validate() {
    let tx = Transaction::new(1, b"alice".to_vec(), b"bob".to_vec(), 10);
    assert_eq!(tx.validate().err(), Some(ChainError::InvalidArgument));
}

#[test]
fn signed_transaction_validates_with_same_fields() {
    let mut tx = Transaction::new(7, b"alice".to_vec(), b"bob".to_vec(), 10);
    tx.sign(b"sig".to_vec());
    let v = tx.validate().expect("signed and clean");
    assert_eq!(v.id, 7);
    assert_eq!(v.sender, b"alice".to_vec());
    assert_eq!(v.receiver, b"bob".to_vec());
    assert_eq!(v.amount, 10);
    assert_eq!(v.signature, b"sig".to_vec());
}

#[test]
fn zero_byte_in_any_field_fails_validation() {
    let mut with_bad_sender = Transaction::new(1, vec![b'a', 0u8], b"b".to_vec(), 0);
    with_bad_sender.sign(b"s".to_vec());
    assert_eq!(with_bad_sender.validate().err(), Some(ChainError::InvalidArgument));

    let mut with_bad_receiver = Transaction::new(1, b"a".to_vec(), vec![0u8, b'b'], 0);
    with_bad_receiver.sign(b"s".to_vec());
    assert_eq!(with_bad_receiver.validate().err(), Some(ChainError::InvalidArgument));

    let mut with_bad_signature = Transaction::new(1, b"a".to_vec(), b"b".to_vec(), 0);
    with_bad_signature.sign(vec![0u8]);
    assert_eq!(with_bad_signature.validate().err(), Some(ChainError::InvalidArgument));
}

#[test]
fn canonical_bytes_exact_layout() {
    // Little-endian id, sender, zero, receiver, zero, little-endian
    // amount, signature — no length prefixes.
    let amount = (2.5f64).to_bits();
    let v = ValidatedTransaction {
        id: 0x01020304,
        sender: b"ab".to_vec(),
        receiver: b"cd".to_vec(),
        amount,
        signature: b"xy".to_vec(),
    };
    let bytes = v.to_bytes().expect("clean fields");
    let mut expected = vec![0x04u8, 0x03, 0x02, 0x01];
    expected.extend_from_slice(b"ab");
    expected.push(0);
    expected.extend_from_slice(b"cd");
    expected.push(0);
    expected.extend_from_slice(&amount.to_le_bytes());
    expected.extend_from_slice(b"xy");
    assert_eq!(bytes, expected);
}

#[test]
fn amount_bytes_match_float_encoding() {
    // The amount field carries the 64-bit pattern of the float the
    // caller supplied; its little-endian bytes are what an f64 would
    // contribute directly.
    let amount = 123.456f64;
    let v = ValidatedTransaction {
        id: 0,
        sender: b"a".to_vec(),
        receiver: b"b".to_vec(),
        amount: amount.to_bits(),
        signature: b"c".to_vec(),
    };
    let bytes = v.to_bytes().expect("clean fields");
    let tail = &bytes[bytes.len() - 1 - 8..bytes.len() - 1];
    assert_eq!(tail, &amount.to_le_bytes());
}

#[test]
fn canonical_bytes_reject_hidden_separator() {
    let v = ValidatedTransaction {
        id: 1,
        sender: b"ok".to_vec(),
        receiver: vec![b'c', 0u8],
        amount: 0,
        signature: b"sig".to_vec(),
    };
    assert_eq!(v.to_bytes().err(), Some(ChainError::InvalidArgument));
}

#[test]
fn sign_replaces_signature() {
    let mut tx = Transaction::new(1, b"a".to_vec(), b"b".to_vec(), 0);
    tx.sign(b"first".to_vec());
    tx.sign(b"second".to_vec());
    let v = tx.validate().expect("signed");
    assert_eq!(v.signature, b"second".to_vec());
}
