//! Transactions, as their id and their consensus encoding, and outputs.

use bdk_wallet::bitcoin;
use bdk_wallet::bitcoin::consensus;
use bdk_wallet::bitcoin::consensus::Decodable;
use bdk_wallet::bitcoin::hashes;
use vstd::prelude::*;

use crate::hash::{
    hash_bytes, hash_from_bytes, hash_of_bytes, law_bytes_hash_round_trip,
    law_hash_bytes_round_trip, Txid,
};

verus! {

/// A transaction: its id, and how it is encoded.
#[derive(Debug, PartialEq, Eq)]
pub struct Transaction<B = Vec<u8>> {
    /// The transaction's id.
    pub txid: Txid,
    /// The transaction's consensus encoding.
    pub bytes: B,
}

impl View for Transaction {
    type V = Transaction<Seq<u8>>;

    open spec fn view(&self) -> Transaction<Seq<u8>> {
        Transaction { txid: self.txid, bytes: self.bytes@ }
    }
}

/// An output: its value in satoshis, and the script that guards it.
#[derive(Debug, PartialEq, Eq)]
pub struct TxOut<B = Vec<u8>> {
    /// The value, in satoshis.
    pub value: u64,
    /// The script that must be satisfied to spend the output.
    pub script_pubkey: B,
}

impl View for TxOut {
    type V = TxOut<Seq<u8>>;

    open spec fn view(&self) -> TxOut<Seq<u8>> {
        TxOut { value: self.value, script_pubkey: self.script_pubkey@ }
    }
}

/// The place of an output: the id of its transaction, and its index there.
pub type OutPoint = (Txid, u32);

/// The number of bytes that `Transaction::consensus_decode` of `bitcoin` reads at most.
pub const MAX_DECODED_BYTES: usize = 4_000_000;

/// How `Transaction::consensus_decode` of `bitcoin` reads a transaction from the front of some
/// bytes: the encoding of the transaction that it gives, or `None` where it gives an error.
pub uninterp spec fn decoded_encoding(b: Seq<u8>) -> Option<Seq<u8>>;

/// The bytes of what `Transaction::compute_txid` gives for the transaction with the encoding `b`,
/// or `None` where `b` is not the encoding of a transaction.
pub uninterp spec fn txid_bytes(b: Seq<u8>) -> Option<Seq<u8>>;

/// The transaction with the encoding `b`, if there is one.
pub open spec fn transaction_of(b: Seq<u8>) -> Option<Transaction<Seq<u8>>> {
    match txid_bytes(b) {
        Some(id) => Some(Transaction { txid: hash_of_bytes(id), bytes: b }),
        None => None,
    }
}

/// The transaction at the front of the bytes `b`, if there is one.
pub open spec fn decoded_transaction(b: Seq<u8>) -> Option<Transaction<Seq<u8>>> {
    match decoded_encoding(b) {
        Some(encoding) => transaction_of(encoding),
        None => None,
    }
}

impl Transaction<Seq<u8>> {
    /// Whether the parts fit together: the bytes decode to the transaction that they encode, and
    /// the id is that transaction's id.
    pub open spec fn valid(self) -> bool {
        decoded_transaction(self.bytes) == Some(self)
    }
}

/// Calls `bitcoin::Transaction::consensus_decode` on the bytes, and `consensus::serialize` on the
/// transaction that it gives: that encoding is one of a transaction with an id, and decodes to
/// the same transaction again.
#[verifier::external_body]
fn decode_transaction(bytes: &Vec<u8>) -> (r: Option<Vec<u8>>)
    ensures
        match r {
            Some(encoding) => decoded_encoding(bytes@) == Some(encoding@) && decoded_encoding(
                encoding@,
            ) == Some(encoding@) && txid_bytes(encoding@) is Some,
            None => decoded_encoding(bytes@) is None,
        },
{
    bitcoin::Transaction::consensus_decode(&mut bytes.as_slice()).ok().map(
        |tx| consensus::serialize(&tx),
    )
}

/// Calls `bitcoin::Transaction::compute_txid` on the transaction with the given encoding, which
/// `consensus::deserialize` reads. From an encoding within the limit of `consensus_decode`, that
/// function reads the same transaction, and there is no other way to encode it.
#[verifier::external_body]
fn compute_txid(bytes: &Vec<u8>) -> (r: Option<[u8; 32]>)
    ensures
        match r {
            Some(id) => txid_bytes(bytes@) == Some(id@),
            None => txid_bytes(bytes@) is None,
        },
        r is Some && bytes@.len() <= MAX_DECODED_BYTES ==> decoded_encoding(bytes@) == Some(
            bytes@,
        ),
{
    let tx = consensus::deserialize::<bitcoin::Transaction>(bytes).ok()?;
    Some(hashes::Hash::to_byte_array(tx.compute_txid()))
}

impl Transaction {
    /// The transaction with the encoding `bytes`, if there is one.
    pub fn from_encoding(bytes: Vec<u8>) -> (r: Option<Transaction>)
        ensures
            match r {
                Some(tx) => transaction_of(bytes@) == Some(tx@),
                None => transaction_of(bytes@) is None,
            },
            r matches Some(tx) ==> tx.bytes@ == bytes@ && txid_bytes(bytes@) == Some(
                hash_bytes(tx.txid),
            ),
            r is None ==> txid_bytes(bytes@) is None,
            r matches Some(tx) ==> (bytes@.len() <= MAX_DECODED_BYTES ==> tx@.valid()),
    {
        match compute_txid(&bytes) {
            Some(id) => {
                proof {
                    law_bytes_hash_round_trip(id@);
                }
                Some(Transaction { txid: hash_from_bytes(&id), bytes })
            },
            None => None,
        }
    }

    /// The transaction at the front of `bytes`, if there is one.
    pub fn decode(bytes: &Vec<u8>) -> (r: Option<Transaction>)
        ensures
            match r {
                Some(tx) => decoded_transaction(bytes@) == Some(tx@),
                None => decoded_transaction(bytes@) is None,
            },
            decoded_encoding(bytes@) is Some <==> r is Some,
            r matches Some(tx) ==> decoded_encoding(bytes@) == Some(tx.bytes@) && txid_bytes(
                tx.bytes@,
            ) == Some(hash_bytes(tx.txid)),
            r matches Some(tx) ==> tx@.valid(),
    {
        match decode_transaction(bytes) {
            Some(encoding) => Transaction::from_encoding(encoding),
            None => None,
        }
    }
}

/// Bytes are the encoding of a transaction if and only if `bitcoin` gives it an id, and it is the one
/// with those bytes and that id. What bytes decode to is the transaction with the encoding that
/// `bitcoin` gives for them. A transaction is valid if and only if its bytes decode to themselves and
/// the id is the one that `bitcoin` gives.
pub proof fn law_transaction(b: Seq<u8>, tx: Transaction<Seq<u8>>)
    ensures
        transaction_of(b) is Some <==> txid_bytes(b) is Some,
        transaction_of(b) == Some(tx) ==> tx.bytes == b && (txid_bytes(b) matches Some(id) && (
        id.len() == 32 ==> hash_bytes(tx.txid) == id)),
        decoded_encoding(b) is None ==> decoded_transaction(b) is None,
        decoded_encoding(b) matches Some(encoding) ==> decoded_transaction(b) == transaction_of(
            encoding,
        ),
        tx.valid() ==> decoded_encoding(tx.bytes) == Some(tx.bytes) && (txid_bytes(
            tx.bytes,
        ) matches Some(id) && (id.len() == 32 ==> hash_bytes(tx.txid) == id)),
        decoded_encoding(tx.bytes) == Some(tx.bytes) && txid_bytes(tx.bytes) == Some(
            hash_bytes(tx.txid),
        ) ==> tx.valid(),
{
    if let Some(id) = txid_bytes(b) {
        if id.len() == 32 {
            law_bytes_hash_round_trip(id);
        }
    }
    if let Some(id) = txid_bytes(tx.bytes) {
        if id.len() == 32 {
            law_bytes_hash_round_trip(id);
        }
    }
    law_hash_bytes_round_trip(tx.txid);
}

} // verus!
