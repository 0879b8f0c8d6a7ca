//! Anchors: the block that confirms a transaction, and when. They are stored as JSON.

use bdk_wallet::bitcoin;
use bdk_wallet::bitcoin::hashes;
use bdk_wallet::chain;
use vstd::prelude::*;

use crate::error::BdkSqlxError;
use crate::hash::{
    bytes_text, hash_bytes, hash_from_bytes, hash_of_bytes, hash_text, hash_to_bytes,
    law_bytes_hash_round_trip, law_hash_bytes_round_trip, BlockHash, Txid,
};

verus! {

/// A block: its height and its hash.
pub type BlockId = (u32, BlockHash);

/// The block that confirms a transaction, and the time of confirmation.
pub type ConfirmationBlockTime = (BlockId, u64);

/// An anchor and the id of the transaction that it anchors.
pub type AnchoredTx = (ConfirmationBlockTime, Txid);

/// The decimal digits of a number.
pub open spec fn decimal(n: nat) -> Seq<char>
    decreases n,
{
    let last = ('0' as int + n % 10) as char;
    if n < 10 {
        seq![last]
    } else {
        decimal(n / 10).push(last)
    }
}

/// The JSON text of an anchor with the given height, text of the block hash, and time.
pub open spec fn anchor_json_text(height: u32, hash: Seq<char>, time: u64) -> Seq<char> {
    "{\"block_id\":{\"hash\":\""@ + hash + "\",\"height\":"@ + decimal(height as nat)
        + "},\"confirmation_time\":"@ + decimal(time as nat) + "}"@
}

/// The height, bytes of the block hash, and time that `serde_json::from_value` gives for the JSON
/// text `s` as a `ConfirmationBlockTime`, or `None` where it gives an error.
pub uninterp spec fn anchor_json_parts(s: Seq<char>) -> Option<(u32, Seq<u8>, u64)>;

/// The JSON text of an anchor.
pub open spec fn anchor_text(anchor: ConfirmationBlockTime) -> Seq<char> {
    anchor_json_text(anchor.0.0, hash_text(anchor.0.1), anchor.1)
}

/// The anchor that a JSON text stands for, if it stands for one.
pub open spec fn anchor_of_text(s: Seq<char>) -> Option<ConfirmationBlockTime> {
    match anchor_json_parts(s) {
        Some((height, hash, time)) => Some(((height, hash_of_bytes(hash)), time)),
        None => None,
    }
}

/// Calls `serde_json::to_value` on a `bdk_chain::ConfirmationBlockTime`, and `to_string` on the
/// value. All its parts are numbers and text, so there is no error. The text has no spaces, and the
/// keys of an object in their order. `serde_json::from_value` reads the same parts back.
#[verifier::external_body]
fn write_anchor(height: u32, hash: [u8; 32], time: u64) -> (r: Result<String, serde_json::Error>)
    ensures
        r is Ok,
        r matches Ok(text) ==> text@ == anchor_json_text(height, bytes_text(hash@), time),
        r matches Ok(text) ==> anchor_json_parts(text@) == Some((height, hash@, time)),
{
    let hash = <bitcoin::BlockHash as hashes::Hash>::from_byte_array(hash);
    let anchor = chain::ConfirmationBlockTime {
        block_id: chain::BlockId { height, hash },
        confirmation_time: time,
    };
    Ok(serde_json::to_value(&anchor)?.to_string())
}

/// Calls `serde_json::from_value` on a JSON text, to read a `bdk_chain::ConfirmationBlockTime`.
#[verifier::external_body]
fn read_anchor(text: &str) -> (r: Option<(u32, [u8; 32], u64)>)
    ensures
        match r {
            Some(parts) => anchor_json_parts(text@) == Some((parts.0, parts.1@, parts.2)),
            None => anchor_json_parts(text@) is None,
        },
{
    let value = serde_json::from_str::<serde_json::Value>(text).ok()?;
    let anchor = serde_json::from_value::<chain::ConfirmationBlockTime>(value).ok()?;
    let hash = hashes::Hash::to_byte_array(anchor.block_id.hash);
    Some((anchor.block_id.height, hash, anchor.confirmation_time))
}

/// The JSON text of an anchor.
pub fn anchor_to_json(anchor: ConfirmationBlockTime) -> (r: Result<String, BdkSqlxError>)
    ensures
        r is Ok,
        r matches Ok(text) ==> text@ == anchor_text(anchor),
        r matches Ok(text) ==> anchor_of_text(text@) == Some(anchor),
        r matches Ok(text) ==> anchor_json_parts(text@) == Some(
            (anchor.0.0, hash_bytes(anchor.0.1), anchor.1),
        ),
{
    let ((height, hash), time) = anchor;
    proof {
        law_hash_bytes_round_trip(hash);
        reveal(hash_text);
    }
    match write_anchor(height, hash_to_bytes(hash), time) {
        Ok(text) => Ok(text),
        Err(e) => Err(BdkSqlxError::from(e)),
    }
}

/// The anchor that a JSON text stands for, if it stands for one.
pub fn anchor_from_json(text: &str) -> (r: Option<ConfirmationBlockTime>)
    ensures
        r == anchor_of_text(text@),
        r is None <==> anchor_json_parts(text@) is None,
        r matches Some(anchor) ==> anchor_json_parts(text@) == Some(
            (anchor.0.0, hash_bytes(anchor.0.1), anchor.1),
        ),
{
    match read_anchor(text) {
        Some((height, hash, time)) => {
            proof {
                law_bytes_hash_round_trip(hash@);
            }
            Some(((height, hash_from_bytes(&hash)), time))
        },
        None => None,
    }
}

/// A JSON text stands for an anchor if and only if `serde_json` reads one from it, and then for the
/// one with the height, the bytes of the hash and the time that were read.
pub proof fn law_anchor_of_text(s: Seq<char>)
    ensures
        anchor_of_text(s) is Some <==> anchor_json_parts(s) is Some,
        anchor_json_parts(s) matches Some((height, hash, time)) ==> {
            &&& anchor_of_text(s) matches Some((block, read_time)) && block.0 == height && (
            hash.len() == 32 ==> hash_bytes(block.1) == hash) && read_time == time
        },
{
    if let Some((height, hash, time)) = anchor_json_parts(s) {
        if hash.len() == 32 {
            law_bytes_hash_round_trip(hash);
        }
    }
}

/// The number that the first digits are.
pub open spec fn digits_value(digits: Seq<char>, count: int) -> int
    decreases count,
{
    if count <= 0 {
        0
    } else {
        digits_value(digits, count - 1) * 10 + (digits[count - 1] as int - '0' as int)
    }
}

/// The first digits are the number that they are by themselves.
proof fn lemma_digits_value(a: Seq<char>, b: Seq<char>, count: int)
    requires
        0 <= count <= a.len(),
        count <= b.len(),
        forall|i: int| 0 <= i < count ==> a[i] == b[i],
    ensures
        digits_value(a, count) == digits_value(b, count),
    decreases count,
{
    if count > 0 {
        lemma_digits_value(a, b, count - 1);
    }
}

/// The decimal digits of a number are digits, the number is what they stand for, and the first is
/// zero for zero alone.
pub proof fn law_decimal(n: nat)
    ensures
        decimal(n).len() > 0,
        forall|i: int| 0 <= i < decimal(n).len() ==> '0' <= #[trigger] decimal(n)[i] <= '9',
        digits_value(decimal(n), decimal(n).len() as int) == n,
        decimal(n)[0] == '0' ==> n == 0,
    decreases n,
{
    let digits = decimal(n);
    if n < 10 {
        assert(digits.len() == 1);
        assert(digits_value(digits, 0) == 0);
        assert(digits_value(digits, 1) == digits[0] as int - '0' as int);
    } else {
        let upper = decimal(n / 10);
        law_decimal(n / 10);
        lemma_digits_value(digits, upper, upper.len() as int);
        assert(digits[0] == upper[0]);
        assert(digits[digits.len() - 1] as int - '0' as int == n % 10);
    }
}

/// The JSON text of an anchor is an object with the block and the time of confirmation, and the block
/// one with the text of its hash and its height.
pub proof fn law_anchor_text(height: u32, hash: BlockHash, time: u64)
    ensures
        anchor_text(((height, hash), time)) == "{"@ + "\"block_id\":"@ + ("{"@ + "\"hash\":"@ + ("\""@
            + hash_text(hash) + "\""@) + ","@ + "\"height\":"@ + decimal(height as nat) + "}"@)
            + ","@ + "\"confirmation_time\":"@ + decimal(time as nat) + "}"@,
{
    reveal_strlit("{\"block_id\":{\"hash\":\"");
    reveal_strlit("\",\"height\":");
    reveal_strlit("},\"confirmation_time\":");
    reveal_strlit("}");
    reveal_strlit("{");
    reveal_strlit("\"block_id\":");
    reveal_strlit("\"hash\":");
    reveal_strlit("\"");
    reveal_strlit(",");
    reveal_strlit("\"height\":");
    reveal_strlit("\"confirmation_time\":");
    assert(anchor_text(((height, hash), time)) =~= "{"@ + "\"block_id\":"@ + ("{"@ + "\"hash\":"@
        + ("\""@ + hash_text(hash) + "\""@) + ","@ + "\"height\":"@ + decimal(height as nat) + "}"@)
        + ","@ + "\"confirmation_time\":"@ + decimal(time as nat) + "}"@);
}

} // verus!
