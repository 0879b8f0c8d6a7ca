//! Transaction ids, block hashes and descriptor ids: 32 bytes, ordered byte by byte, and written
//! as text in hexadecimal, the last byte first.

use std::str::FromStr;

use bdk_wallet::bitcoin;
use bdk_wallet::bitcoin::hashes;
use vstd::prelude::*;

use crate::error::BdkSqlxError;

verus! {

/// A hash of 32 bytes, as its two halves read as big-endian numbers. The order of such pairs is
/// the order of the bytes.
pub type Hash256 = (u128, u128);

/// The id of a transaction.
pub type Txid = Hash256;

/// The hash of a block.
pub type BlockHash = Hash256;

/// The id of a descriptor.
pub type DescriptorId = Hash256;

/// The 16 bytes of a half, most significant first.
pub open spec fn half_bytes(x: u128) -> Seq<u8> {
    seq![
        (x >> 120) as u8,
        (x >> 112) as u8,
        (x >> 104) as u8,
        (x >> 96) as u8,
        (x >> 88) as u8,
        (x >> 80) as u8,
        (x >> 72) as u8,
        (x >> 64) as u8,
        (x >> 56) as u8,
        (x >> 48) as u8,
        (x >> 40) as u8,
        (x >> 32) as u8,
        (x >> 24) as u8,
        (x >> 16) as u8,
        (x >> 8) as u8,
        x as u8,
    ]
}

/// The half whose 16 bytes stand in `b` from `at` on, most significant first.
pub open spec fn half_at(b: Seq<u8>, at: int) -> u128 {
    (b[at] as u128) << 120 | (b[at + 1] as u128) << 112 | (b[at + 2] as u128) << 104 | (b[at
        + 3] as u128) << 96 | (b[at + 4] as u128) << 88 | (b[at + 5] as u128) << 80 | (b[at
        + 6] as u128) << 72 | (b[at + 7] as u128) << 64 | (b[at + 8] as u128) << 56 | (b[at
        + 9] as u128) << 48 | (b[at + 10] as u128) << 40 | (b[at + 11] as u128) << 32 | (b[at
        + 12] as u128) << 24 | (b[at + 13] as u128) << 16 | (b[at + 14] as u128) << 8 | (b[at
        + 15] as u128)
}

/// The 32 bytes of a hash.
#[verifier::opaque]
pub open spec fn hash_bytes(h: Hash256) -> Seq<u8> {
    half_bytes(h.0) + half_bytes(h.1)
}

/// The hash with the given 32 bytes.
#[verifier::opaque]
pub open spec fn hash_of_bytes(b: Seq<u8>) -> Hash256 {
    (half_at(b, 0), half_at(b, 16))
}

/// The value of a hexadecimal digit of either case.
pub open spec fn hex_value(c: char) -> Option<int> {
    if '0' <= c <= '9' {
        Some(c as int - '0' as int)
    } else if 'a' <= c <= 'f' {
        Some(c as int - 'a' as int + 10)
    } else if 'A' <= c <= 'F' {
        Some(c as int - 'A' as int + 10)
    } else {
        None
    }
}

/// The lower-case hexadecimal digit with value `v`.
pub open spec fn hex_digit(v: int) -> char {
    if v < 10 {
        ('0' as int + v) as char
    } else {
        ('a' as int + v - 10) as char
    }
}

/// Whether `s` is the text of a hash: 64 hexadecimal digits.
pub open spec fn is_hash_text(s: Seq<char>) -> bool {
    s.len() == 64 && forall|i: int| 0 <= i < 64 ==> hex_value(#[trigger] s[i]) is Some
}

/// The 32 bytes that a hash's text stands for: two digits to a byte, the last byte first.
pub open spec fn text_bytes(s: Seq<char>) -> Seq<u8> {
    Seq::new(
        32,
        |i: int|
            (16 * hex_value(s[2 * (31 - i)])->0 + hex_value(s[2 * (31 - i) + 1])->0) as u8,
    )
}

/// The text of the hash with the given 32 bytes, in lower case.
pub open spec fn bytes_text(b: Seq<u8>) -> Seq<char> {
    Seq::new(
        64,
        |k: int| hex_digit(if k % 2 == 0 { b[31 - k / 2] as int / 16 } else { b[31 - k / 2] as int % 16 }),
    )
}

/// The text of a hash.
#[verifier::opaque]
pub open spec fn hash_text(h: Hash256) -> Seq<char> {
    bytes_text(hash_bytes(h))
}

/// The hash that a text stands for, if it is the text of one.
#[verifier::opaque]
pub open spec fn hash_of_text(s: Seq<char>) -> Option<Hash256> {
    if is_hash_text(s) {
        Some(hash_of_bytes(text_bytes(s)))
    } else {
        None
    }
}

/// Calls `bitcoin::Txid::from_str`, which takes 64 hexadecimal digits of either case and nothing
/// else, and reads them as the id's bytes in reverse. Which of its errors it gives is left open.
#[verifier::external_body]
fn parse_txid_bytes(text: &str) -> (r: Result<[u8; 32], bitcoin::hex::HexToArrayError>)
    ensures
        match r {
            Ok(b) => is_hash_text(text@) && b@ == text_bytes(text@),
            Err(_) => !is_hash_text(text@),
        },
{
    bitcoin::Txid::from_str(text).map(hashes::Hash::to_byte_array)
}

/// Calls `bitcoin::BlockHash::from_str`, which takes 64 hexadecimal digits of either case and
/// nothing else, and reads them as the hash's bytes in reverse. Which of its errors it gives is
/// left open.
#[verifier::external_body]
fn parse_block_hash_bytes(text: &str) -> (r: Result<[u8; 32], bitcoin::hex::HexToArrayError>)
    ensures
        match r {
            Ok(b) => is_hash_text(text@) && b@ == text_bytes(text@),
            Err(_) => !is_hash_text(text@),
        },
{
    bitcoin::BlockHash::from_str(text).map(hashes::Hash::to_byte_array)
}

/// Calls `to_string` on a `bitcoin::Txid`, which writes the id's bytes in reverse, two lower-case
/// hexadecimal digits each.
#[verifier::external_body]
fn txid_bytes_text(bytes: [u8; 32]) -> (r: String)
    ensures
        r@ == bytes_text(bytes@),
{
    <bitcoin::Txid as hashes::Hash>::from_byte_array(bytes).to_string()
}

/// Calls `to_string` on a `bitcoin::BlockHash`, which writes the hash's bytes in reverse, two
/// lower-case hexadecimal digits each.
#[verifier::external_body]
fn block_hash_bytes_text(bytes: [u8; 32]) -> (r: String)
    ensures
        r@ == bytes_text(bytes@),
{
    <bitcoin::BlockHash as hashes::Hash>::from_byte_array(bytes).to_string()
}

/// The half whose bytes stand in `b` from `at` on.
fn half_from(b: &[u8; 32], at: usize) -> (r: u128)
    requires
        at <= 16,
    ensures
        r == half_at(b@, at as int),
{
    (b[at] as u128) << 120 | (b[at + 1] as u128) << 112 | (b[at + 2] as u128) << 104 | (b[at
        + 3] as u128) << 96 | (b[at + 4] as u128) << 88 | (b[at + 5] as u128) << 80 | (b[at
        + 6] as u128) << 72 | (b[at + 7] as u128) << 64 | (b[at + 8] as u128) << 56 | (b[at
        + 9] as u128) << 48 | (b[at + 10] as u128) << 40 | (b[at + 11] as u128) << 32 | (b[at
        + 12] as u128) << 24 | (b[at + 13] as u128) << 16 | (b[at + 14] as u128) << 8 | (b[at
        + 15] as u128)
}

/// The hash with the given bytes.
pub fn hash_from_bytes(b: &[u8; 32]) -> (r: Hash256)
    ensures
        r == hash_of_bytes(b@),
{
    proof {
        reveal(hash_of_bytes);
    }
    (half_from(b, 0), half_from(b, 16))
}

/// The bytes of a hash.
pub fn hash_to_bytes(h: Hash256) -> (r: [u8; 32])
    ensures
        r@ == hash_bytes(h),
{
    let (x, y) = h;
    let r = [
        (x >> 120) as u8,
        (x >> 112) as u8,
        (x >> 104) as u8,
        (x >> 96) as u8,
        (x >> 88) as u8,
        (x >> 80) as u8,
        (x >> 72) as u8,
        (x >> 64) as u8,
        (x >> 56) as u8,
        (x >> 48) as u8,
        (x >> 40) as u8,
        (x >> 32) as u8,
        (x >> 24) as u8,
        (x >> 16) as u8,
        (x >> 8) as u8,
        x as u8,
        (y >> 120) as u8,
        (y >> 112) as u8,
        (y >> 104) as u8,
        (y >> 96) as u8,
        (y >> 88) as u8,
        (y >> 80) as u8,
        (y >> 72) as u8,
        (y >> 64) as u8,
        (y >> 56) as u8,
        (y >> 48) as u8,
        (y >> 40) as u8,
        (y >> 32) as u8,
        (y >> 24) as u8,
        (y >> 16) as u8,
        (y >> 8) as u8,
        y as u8,
    ];
    assert(r@ =~= hash_bytes(h)) by {
        reveal(hash_bytes);
    }
    r
}

/// The transaction id that `text` stands for.
pub fn parse_txid(text: &str) -> (r: Result<Txid, BdkSqlxError>)
    ensures
        r matches Ok(id) ==> hash_of_text(text@) == Some(id),
        r is Ok <==> is_hash_text(text@),
        r matches Ok(id) ==> hash_bytes(id) == text_bytes(text@),
        r matches Err(e) ==> e is HexToArray && hash_of_text(text@) is None,
{
    proof {
        reveal(hash_of_text);
        law_bytes_hash_round_trip(text_bytes(text@));
    }
    match parse_txid_bytes(text) {
        Ok(b) => Ok(hash_from_bytes(&b)),
        Err(e) => Err(BdkSqlxError::from(e)),
    }
}

/// The block hash that `text` stands for.
pub fn parse_block_hash(text: &str) -> (r: Result<BlockHash, BdkSqlxError>)
    ensures
        r matches Ok(hash) ==> hash_of_text(text@) == Some(hash),
        r is Ok <==> is_hash_text(text@),
        r matches Ok(hash) ==> hash_bytes(hash) == text_bytes(text@),
        r matches Err(e) ==> e is HexToArray && hash_of_text(text@) is None,
{
    proof {
        reveal(hash_of_text);
        law_bytes_hash_round_trip(text_bytes(text@));
    }
    match parse_block_hash_bytes(text) {
        Ok(b) => Ok(hash_from_bytes(&b)),
        Err(e) => Err(BdkSqlxError::from(e)),
    }
}

/// The text of a transaction id.
pub fn txid_text(id: Txid) -> (r: String)
    ensures
        r@ == hash_text(id),
{
    proof {
        reveal(hash_text);
    }
    txid_bytes_text(hash_to_bytes(id))
}

/// The text of a block hash.
pub fn block_hash_text(hash: BlockHash) -> (r: String)
    ensures
        r@ == hash_text(hash),
{
    proof {
        reveal(hash_text);
    }
    block_hash_bytes_text(hash_to_bytes(hash))
}

/// A half is the one that its bytes stand for.
proof fn lemma_half_round_trip(x: u128)
    ensures
        half_at(half_bytes(x), 0) == x,
{
    assert((((x >> 120) as u8) as u128) << 120 | (((x >> 112) as u8) as u128) << 112 | (((x
        >> 104) as u8) as u128) << 104 | (((x >> 96) as u8) as u128) << 96 | (((x
        >> 88) as u8) as u128) << 88 | (((x >> 80) as u8) as u128) << 80 | (((x
        >> 72) as u8) as u128) << 72 | (((x >> 64) as u8) as u128) << 64 | (((x
        >> 56) as u8) as u128) << 56 | (((x >> 48) as u8) as u128) << 48 | (((x
        >> 40) as u8) as u128) << 40 | (((x >> 32) as u8) as u128) << 32 | (((x
        >> 24) as u8) as u128) << 24 | (((x >> 16) as u8) as u128) << 16 | (((x
        >> 8) as u8) as u128) << 8 | ((x as u8) as u128) == x) by (bit_vector);
}

/// A hash is the one that its bytes stand for.
pub proof fn law_hash_bytes_round_trip(h: Hash256)
    ensures
        hash_bytes(h).len() == 32,
        hash_of_bytes(hash_bytes(h)) == h,
{
    reveal(hash_bytes);
    reveal(hash_of_bytes);
    lemma_half_round_trip(h.0);
    lemma_half_round_trip(h.1);
    assert(half_at(hash_bytes(h), 16) == half_at(half_bytes(h.1), 0));
    assert(half_at(hash_bytes(h), 0) == half_at(half_bytes(h.0), 0));
}

/// A hash is the one that its text stands for.
pub proof fn law_hash_text_round_trip(h: Hash256)
    ensures
        hash_of_text(hash_text(h)) == Some(h),
{
    reveal(hash_text);
    reveal(hash_of_text);
    let b = hash_bytes(h);
    let s = hash_text(h);
    law_hash_bytes_round_trip(h);
    assert forall|k: int| 0 <= k < 64 implies hex_value(#[trigger] s[k]) == Some(
        if k % 2 == 0 { b[31 - k / 2] as int / 16 } else { b[31 - k / 2] as int % 16 },
    ) by {
        let v = if k % 2 == 0 { b[31 - k / 2] as int / 16 } else { b[31 - k / 2] as int % 16 };
        assert(0 <= v < 16);
        assert(s[k] == hex_digit(v));
    }
    assert forall|i: int| 0 <= i < 32 implies text_bytes(s)[i] == b[i] by {
        let k = 2 * (31 - i);
        assert(hex_value(s[k]) == Some(b[i] as int / 16));
        assert(hex_value(s[k + 1]) == Some(b[i] as int % 16));
    }
    assert(text_bytes(s) =~= b);
}

/// Two hashes with the same text are the same.
pub proof fn law_hash_text_injective(g: Hash256, h: Hash256)
    requires
        hash_text(g) == hash_text(h),
    ensures
        g == h,
{
    law_hash_text_round_trip(g);
    law_hash_text_round_trip(h);
}

/// The number that the first bytes are, most significant first.
pub open spec fn bytes_value(b: Seq<u8>, count: int) -> int
    decreases count,
{
    if count <= 0 {
        0
    } else {
        bytes_value(b, count - 1) * 256 + b[count - 1]
    }
}

/// The digits of a half, in bytes.
proof fn lemma_half_digits(x: u128)
    ensures
        (x >> 120) == ((x >> 120) as u8),
        (x >> 112) == (x >> 120) * 256 + ((x >> 112) as u8),
        (x >> 104) == (x >> 112) * 256 + ((x >> 104) as u8),
        (x >> 96) == (x >> 104) * 256 + ((x >> 96) as u8),
        (x >> 88) == (x >> 96) * 256 + ((x >> 88) as u8),
        (x >> 80) == (x >> 88) * 256 + ((x >> 80) as u8),
        (x >> 72) == (x >> 80) * 256 + ((x >> 72) as u8),
        (x >> 64) == (x >> 72) * 256 + ((x >> 64) as u8),
        (x >> 56) == (x >> 64) * 256 + ((x >> 56) as u8),
        (x >> 48) == (x >> 56) * 256 + ((x >> 48) as u8),
        (x >> 40) == (x >> 48) * 256 + ((x >> 40) as u8),
        (x >> 32) == (x >> 40) * 256 + ((x >> 32) as u8),
        (x >> 24) == (x >> 32) * 256 + ((x >> 24) as u8),
        (x >> 16) == (x >> 24) * 256 + ((x >> 16) as u8),
        (x >> 8) == (x >> 16) * 256 + ((x >> 8) as u8),
        x == (x >> 8) * 256 + (x as u8),
{
    assert((x >> 120) == ((x >> 120) as u8)) by (bit_vector);
    assert((x >> 112) == (x >> 120) * 256 + ((x >> 112) as u8)) by (bit_vector);
    assert((x >> 104) == (x >> 112) * 256 + ((x >> 104) as u8)) by (bit_vector);
    assert((x >> 96) == (x >> 104) * 256 + ((x >> 96) as u8)) by (bit_vector);
    assert((x >> 88) == (x >> 96) * 256 + ((x >> 88) as u8)) by (bit_vector);
    assert((x >> 80) == (x >> 88) * 256 + ((x >> 80) as u8)) by (bit_vector);
    assert((x >> 72) == (x >> 80) * 256 + ((x >> 72) as u8)) by (bit_vector);
    assert((x >> 64) == (x >> 72) * 256 + ((x >> 64) as u8)) by (bit_vector);
    assert((x >> 56) == (x >> 64) * 256 + ((x >> 56) as u8)) by (bit_vector);
    assert((x >> 48) == (x >> 56) * 256 + ((x >> 48) as u8)) by (bit_vector);
    assert((x >> 40) == (x >> 48) * 256 + ((x >> 40) as u8)) by (bit_vector);
    assert((x >> 32) == (x >> 40) * 256 + ((x >> 32) as u8)) by (bit_vector);
    assert((x >> 24) == (x >> 32) * 256 + ((x >> 24) as u8)) by (bit_vector);
    assert((x >> 16) == (x >> 24) * 256 + ((x >> 16) as u8)) by (bit_vector);
    assert((x >> 8) == (x >> 16) * 256 + ((x >> 8) as u8)) by (bit_vector);
    assert(x == (x >> 8) * 256 + (x as u8)) by (bit_vector);
}

/// The bytes of a hash, most significant first, are those of the number whose upper and lower halves
/// the hash is made of. So hashes are ordered as their bytes are.
pub proof fn law_hash_is_its_number(h: Hash256)
    ensures
        hash_bytes(h).len() == 32,
        bytes_value(hash_bytes(h), 32) == h.0 * 0x1_0000_0000_0000_0000_0000_0000_0000_0000 + h.1,
{
    reveal(hash_bytes);
    let b = hash_bytes(h);
    lemma_half_digits(h.0);
    lemma_half_digits(h.1);
    assert(bytes_value(b, 0) == 0);
    assert(b[0] == (h.0 >> 120) as u8);
    assert(bytes_value(b, 1) == (h.0 >> 120));
    assert(b[1] == (h.0 >> 112) as u8);
    assert(bytes_value(b, 2) == (h.0 >> 112));
    assert(b[2] == (h.0 >> 104) as u8);
    assert(bytes_value(b, 3) == (h.0 >> 104));
    assert(b[3] == (h.0 >> 96) as u8);
    assert(bytes_value(b, 4) == (h.0 >> 96));
    assert(b[4] == (h.0 >> 88) as u8);
    assert(bytes_value(b, 5) == (h.0 >> 88));
    assert(b[5] == (h.0 >> 80) as u8);
    assert(bytes_value(b, 6) == (h.0 >> 80));
    assert(b[6] == (h.0 >> 72) as u8);
    assert(bytes_value(b, 7) == (h.0 >> 72));
    assert(b[7] == (h.0 >> 64) as u8);
    assert(bytes_value(b, 8) == (h.0 >> 64));
    assert(b[8] == (h.0 >> 56) as u8);
    assert(bytes_value(b, 9) == (h.0 >> 56));
    assert(b[9] == (h.0 >> 48) as u8);
    assert(bytes_value(b, 10) == (h.0 >> 48));
    assert(b[10] == (h.0 >> 40) as u8);
    assert(bytes_value(b, 11) == (h.0 >> 40));
    assert(b[11] == (h.0 >> 32) as u8);
    assert(bytes_value(b, 12) == (h.0 >> 32));
    assert(b[12] == (h.0 >> 24) as u8);
    assert(bytes_value(b, 13) == (h.0 >> 24));
    assert(b[13] == (h.0 >> 16) as u8);
    assert(bytes_value(b, 14) == (h.0 >> 16));
    assert(b[14] == (h.0 >> 8) as u8);
    assert(bytes_value(b, 15) == (h.0 >> 8));
    assert(b[15] == (h.0) as u8);
    assert(bytes_value(b, 16) == h.0);
    assert(b[16] == (h.1 >> 120) as u8);
    assert(bytes_value(b, 17) == h.0 * 0x100 + (h.1 >> 120));
    assert(b[17] == (h.1 >> 112) as u8);
    assert(bytes_value(b, 18) == h.0 * 0x10000 + (h.1 >> 112));
    assert(b[18] == (h.1 >> 104) as u8);
    assert(bytes_value(b, 19) == h.0 * 0x1000000 + (h.1 >> 104));
    assert(b[19] == (h.1 >> 96) as u8);
    assert(bytes_value(b, 20) == h.0 * 0x100000000 + (h.1 >> 96));
    assert(b[20] == (h.1 >> 88) as u8);
    assert(bytes_value(b, 21) == h.0 * 0x10000000000 + (h.1 >> 88));
    assert(b[21] == (h.1 >> 80) as u8);
    assert(bytes_value(b, 22) == h.0 * 0x1000000000000 + (h.1 >> 80));
    assert(b[22] == (h.1 >> 72) as u8);
    assert(bytes_value(b, 23) == h.0 * 0x100000000000000 + (h.1 >> 72));
    assert(b[23] == (h.1 >> 64) as u8);
    assert(bytes_value(b, 24) == h.0 * 0x10000000000000000 + (h.1 >> 64));
    assert(b[24] == (h.1 >> 56) as u8);
    assert(bytes_value(b, 25) == h.0 * 0x1000000000000000000 + (h.1 >> 56));
    assert(b[25] == (h.1 >> 48) as u8);
    assert(bytes_value(b, 26) == h.0 * 0x100000000000000000000 + (h.1 >> 48));
    assert(b[26] == (h.1 >> 40) as u8);
    assert(bytes_value(b, 27) == h.0 * 0x10000000000000000000000 + (h.1 >> 40));
    assert(b[27] == (h.1 >> 32) as u8);
    assert(bytes_value(b, 28) == h.0 * 0x1000000000000000000000000 + (h.1 >> 32));
    assert(b[28] == (h.1 >> 24) as u8);
    assert(bytes_value(b, 29) == h.0 * 0x100000000000000000000000000 + (h.1 >> 24));
    assert(b[29] == (h.1 >> 16) as u8);
    assert(bytes_value(b, 30) == h.0 * 0x10000000000000000000000000000 + (h.1 >> 16));
    assert(b[30] == (h.1 >> 8) as u8);
    assert(bytes_value(b, 31) == h.0 * 0x1000000000000000000000000000000 + (h.1 >> 8));
    assert(b[31] == (h.1) as u8);
    assert(bytes_value(b, 32) == h.0 * 0x100000000000000000000000000000000 + h.1);
}

/// The bytes are those of the hash that they stand for.
pub proof fn law_bytes_hash_round_trip(b: Seq<u8>)
    requires
        b.len() == 32,
    ensures
        hash_bytes(hash_of_bytes(b)) == b,
{
    reveal(hash_bytes);
    reveal(hash_of_bytes);
    lemma_half_at_bytes(b, 0);
    lemma_half_at_bytes(b, 16);
    assert(hash_bytes(hash_of_bytes(b)) =~= b);
}

/// The bytes of a half that is put together from bytes.
proof fn lemma_half_at_bytes(b: Seq<u8>, at: int)
    requires
        0 <= at,
        at + 16 <= b.len(),
    ensures
        half_bytes(half_at(b, at)) == b.subrange(at, at + 16),
{
    let x = half_at(b, at);
    let c0 = b[at];
    let c1 = b[at + 1];
    let c2 = b[at + 2];
    let c3 = b[at + 3];
    let c4 = b[at + 4];
    let c5 = b[at + 5];
    let c6 = b[at + 6];
    let c7 = b[at + 7];
    let c8 = b[at + 8];
    let c9 = b[at + 9];
    let c10 = b[at + 10];
    let c11 = b[at + 11];
    let c12 = b[at + 12];
    let c13 = b[at + 13];
    let c14 = b[at + 14];
    let c15 = b[at + 15];
    assert(x == (c0 as u128) << 120 | (c1 as u128) << 112 | (c2 as u128) << 104 | (c3 as u128) << 96 | (c4 as u128) << 88 | (c5 as u128) << 80 | (c6 as u128) << 72 | (c7 as u128) << 64 | (c8 as u128) << 56 | (c9 as u128) << 48 | (c10 as u128) << 40 | (c11 as u128) << 32 | (c12 as u128) << 24 | (c13 as u128) << 16 | (c14 as u128) << 8 | (c15 as u128));
    assert((x >> 120) as u8 == c0 && (x >> 112) as u8 == c1 && (x >> 104) as u8 == c2 && (x >> 96) as u8 == c3 && (x >> 88) as u8 == c4 && (x >> 80) as u8 == c5 && (x >> 72) as u8 == c6 && (x >> 64) as u8 == c7 && (x >> 56) as u8 == c8 && (x >> 48) as u8 == c9 && (x >> 40) as u8 == c10 && (x >> 32) as u8 == c11 && (x >> 24) as u8 == c12 && (x >> 16) as u8 == c13 && (x >> 8) as u8 == c14 && x as u8 == c15) by (bit_vector)
        requires
            x == (c0 as u128) << 120 | (c1 as u128) << 112 | (c2 as u128) << 104 | (c3 as u128) << 96 | (c4 as u128) << 88 | (c5 as u128) << 80 | (c6 as u128) << 72 | (c7 as u128) << 64 | (c8 as u128) << 56 | (c9 as u128) << 48 | (c10 as u128) << 40 | (c11 as u128) << 32 | (c12 as u128) << 24 | (c13 as u128) << 16 | (c14 as u128) << 8 | (c15 as u128),
    ;
    assert(half_bytes(x) =~= b.subrange(at, at + 16));
}

/// The text of a hash has two digits for each byte, the last byte first, in lower case.
pub proof fn law_hash_text_digits(h: Hash256, k: int)
    requires
        0 <= k < 32,
    ensures
        hash_text(h).len() == 64,
        ({
            let (upper, lower) = (hash_text(h)[2 * k], hash_text(h)[2 * k + 1]);
            &&& '0' <= upper <= '9' || 'a' <= upper <= 'f'
            &&& '0' <= lower <= '9' || 'a' <= lower <= 'f'
            &&& hash_bytes(h)[31 - k] == 16 * hex_value(upper)->0 + hex_value(lower)->0
        }),
{
    reveal(hash_text);
    let b = hash_bytes(h);
    let v = b[31 - k] as int;
    assert((2 * k) % 2 == 0 && (2 * k) / 2 == k);
    assert((2 * k + 1) % 2 == 1 && (2 * k + 1) / 2 == k);
    assert(hash_text(h)[2 * k] == hex_digit(v / 16));
    assert(hash_text(h)[2 * k + 1] == hex_digit(v % 16));
}

/// A hexadecimal digit is one of sixteen, in lower or upper case, and stands for its place among
/// them. It is written in lower case.
pub proof fn law_hex_digits(c: char, v: int)
    ensures
        0 <= v < 16 ==> hex_digit(v) == "0123456789abcdef"@[v],
        hex_value(c) == Some(v) <==> 0 <= v < 16 && (c == "0123456789abcdef"@[v] || c
            == "0123456789ABCDEF"@[v]),
{
    reveal_strlit("0123456789abcdef");
    reveal_strlit("0123456789ABCDEF");
}

/// A text is that of a hash if and only if it has 64 hexadecimal digits, of either case and nothing
/// else; then the hash has, from the last byte on, the bytes that each two digits stand for.
pub proof fn law_hash_of_text(s: Seq<char>, k: int)
    requires
        0 <= k < 32,
    ensures
        hash_of_text(s) is Some <==> s.len() == 64 && forall|i: int|
            0 <= i < 64 ==> '0' <= #[trigger] s[i] <= '9' || 'a' <= s[i] <= 'f' || 'A' <= s[i]
                <= 'F',
        hash_of_text(s) matches Some(h) ==> hash_bytes(h)[31 - k] == 16 * hex_value(s[2 * k])->0
            + hex_value(s[2 * k + 1])->0,
{
    reveal(hash_of_text);
    law_bytes_hash_round_trip(text_bytes(s));
    if hash_of_text(s) is Some {
        assert forall|i: int| 0 <= i < 64 implies '0' <= #[trigger] s[i] <= '9' || 'a' <= s[i]
            <= 'f' || 'A' <= s[i] <= 'F' by {
            assert(hex_value(s[i]) is Some);
        }
        assert(hex_value(s[2 * k]) is Some && hex_value(s[2 * k + 1]) is Some);
        assert(text_bytes(s)[31 - k] == (16 * hex_value(s[2 * k])->0 + hex_value(
            s[2 * k + 1],
        )->0) as u8);
    }
}

} // verus!
