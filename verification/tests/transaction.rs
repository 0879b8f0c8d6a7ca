use bdk_sqlx::hash::txid_text;
use bdk_sqlx::transaction::Transaction;
use bdk_wallet::bitcoin;
use bdk_wallet::bitcoin::consensus;

fn genesis() -> Vec<u8> {
    let block = bitcoin::constants::genesis_block(bitcoin::Network::Bitcoin);
    consensus::serialize(&block.txdata[0])
}

#[test]
fn transaction_of_an_encoding() {
    let tx = Transaction::from_encoding(genesis()).unwrap();
    assert_eq!(
        txid_text(tx.txid),
        "4a5e1e4baab89f3a32518a88c31bc87f618f76673e2cc77ab2127b7afdeda33b"
    );
    assert_eq!(tx.bytes, genesis());
}

#[test]
fn decoded_transaction_is_the_encoded_one() {
    let tx = Transaction::decode(&genesis()).unwrap();
    assert_eq!(Some(tx), Transaction::from_encoding(genesis()));
}

#[test]
fn bytes_behind_a_transaction() {
    let mut bytes = genesis();
    bytes.extend([1, 2, 3]);
    assert_eq!(Transaction::decode(&bytes), Transaction::from_encoding(genesis()));
    assert_eq!(Transaction::from_encoding(bytes), None);
}

#[test]
fn bytes_that_are_no_transaction() {
    let cut = genesis()[..100].to_vec();
    for bytes in [vec![], vec![0; 8], cut] {
        assert_eq!(Transaction::decode(&bytes), None);
        assert_eq!(Transaction::from_encoding(bytes), None);
    }
}

#[test]
fn transaction_over_the_limit_is_not_decoded() {
    let output = |size: usize| bitcoin::TxOut {
        value: bitcoin::Amount::from_sat(1),
        script_pubkey: bitcoin::ScriptBuf::from(vec![0x51; size]),
    };
    let tx = |size: usize| bitcoin::Transaction {
        version: bitcoin::transaction::Version::TWO,
        lock_time: bitcoin::absolute::LockTime::ZERO,
        input: vec![bitcoin::TxIn::default()],
        output: vec![output(size / 2), output(size - size / 2)],
    };
    let overhead = consensus::serialize(&tx(3_000_000)).len() - 3_000_000;
    let largest = consensus::serialize(&tx(4_000_000 - overhead));
    assert_eq!(largest.len(), 4_000_000);
    assert!(Transaction::decode(&largest).is_some());
    let larger = consensus::serialize(&tx(4_000_001 - overhead));
    assert!(Transaction::decode(&larger).is_none());
    assert!(Transaction::from_encoding(larger).is_some());
}
