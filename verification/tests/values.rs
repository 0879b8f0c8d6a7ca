use bdk_sqlx::anchor::{anchor_from_json, anchor_to_json};
use bdk_sqlx::error::BdkSqlxError;
use bdk_sqlx::hash::{
    block_hash_text, hash_from_bytes, hash_to_bytes, parse_block_hash, parse_txid, txid_text,
};
use bdk_sqlx::network::Network;
use bdk_sqlx::number::{to_signed32, to_signed64, to_unsigned32, to_unsigned64};

const GENESIS_BLOCK: &str = "000000000019d6689c085ae165831e934ff763ae46a2a6c172b3f1b60a8ce26f";
const GENESIS_TX: &str = "4a5e1e4baab89f3a32518a88c31bc87f618f76673e2cc77ab2127b7afdeda33b";

#[test]
fn unsigned_values_are_stored_by_their_bits() {
    assert_eq!(to_signed32(0), 0);
    assert_eq!(to_signed32(0x7fff_ffff), i32::MAX);
    assert_eq!(to_signed32(0x8000_0000), i32::MIN);
    assert_eq!(to_signed32(u32::MAX), -1);
    assert_eq!(to_signed64(1), 1);
    assert_eq!(to_signed64(0x8000_0000_0000_0000), i64::MIN);
    assert_eq!(to_signed64(u64::MAX), -1);
}

#[test]
fn stored_integers_come_back() {
    for x in [0, 1, 0x7fff_ffff, 0x8000_0000, 0xffff_fffe, u32::MAX] {
        assert_eq!(to_unsigned32(to_signed32(x)), x);
    }
    for x in [0, 1, i64::MAX as u64, 1 << 63, u64::MAX] {
        assert_eq!(to_unsigned64(to_signed64(x)), x);
    }
    assert_eq!(to_unsigned32(-2), 0xffff_fffe);
    assert_eq!(to_unsigned64(-2), 0xffff_ffff_ffff_fffe);
}

#[test]
fn block_hash_is_its_text_reversed() {
    let hash = parse_block_hash(GENESIS_BLOCK).unwrap();
    assert_eq!(
        hash,
        (0x6fe28c0ab6f1b372c1a6a246ae63f74f, 0x931e8365e15a089c68d6190000000000)
    );
    assert_eq!(block_hash_text(hash), GENESIS_BLOCK);
}

#[test]
fn txid_is_its_text_reversed() {
    let txid = parse_txid(GENESIS_TX).unwrap();
    assert_eq!(txid, (0x3ba3edfd7a7b12b27ac72c3e67768f61, 0x7fc81bc3888a51323a9fb8aa4b1e5e4a));
    assert_eq!(txid_text(txid), GENESIS_TX);
}

#[test]
fn hash_text_of_either_case_is_read() {
    let upper = GENESIS_TX.to_uppercase();
    assert_eq!(parse_txid(&upper).unwrap(), parse_txid(GENESIS_TX).unwrap());
    assert_eq!(txid_text(parse_txid(&upper).unwrap()), GENESIS_TX);
}

#[test]
fn text_that_is_no_hash_is_refused() {
    let long = format!("{GENESIS_TX}00");
    let odd = format!("{}g", &GENESIS_TX[..63]);
    let spaced = format!(" {}", &GENESIS_TX[..63]);
    for text in ["", "4a5e", &GENESIS_TX[..63], &long, &odd, &spaced] {
        assert!(matches!(parse_txid(text), Err(BdkSqlxError::HexToArray(_))), "{text}");
        assert!(matches!(parse_block_hash(text), Err(BdkSqlxError::HexToArray(_))), "{text}");
    }
}

#[test]
fn hash_bytes_come_back() {
    let mut bytes = [0u8; 32];
    for (i, byte) in bytes.iter_mut().enumerate() {
        *byte = 7 * i as u8;
    }
    let hash = hash_from_bytes(&bytes);
    assert_eq!(hash.0, 0x00070e151c232a31383f464d545b6269);
    assert_eq!(hash_to_bytes(hash), bytes);
}

#[test]
fn different_hashes_have_different_texts() {
    assert_ne!(txid_text((0, 1)), txid_text((1, 0)));
    assert_eq!(
        txid_text((0, 1)),
        "0100000000000000000000000000000000000000000000000000000000000000"
    );
}

#[test]
fn network_names() {
    let named = [
        (Network::Bitcoin, "bitcoin"),
        (Network::Testnet, "testnet"),
        (Network::Testnet4, "testnet4"),
        (Network::Signet, "signet"),
        (Network::Regtest, "regtest"),
    ];
    for (network, name) in named {
        assert_eq!(network.name(), name);
        assert_eq!(Network::from_name(name), Some(network));
    }
    for name in ["", "Bitcoin", "mainnet", "testnet3", "signet "] {
        assert_eq!(Network::from_name(name), None, "{name}");
    }
}

#[test]
fn anchor_json() {
    let hash = parse_block_hash(GENESIS_BLOCK).unwrap();
    let anchor = ((21, hash), 1_231_006_505);
    let text = anchor_to_json(anchor).unwrap();
    assert_eq!(
        text,
        format!(
            "{{\"block_id\":{{\"hash\":\"{GENESIS_BLOCK}\",\"height\":21}},\"confirmation_time\":1231006505}}"
        )
    );
    assert_eq!(anchor_from_json(&text), Some(anchor));
}

#[test]
fn anchor_json_of_the_largest_numbers_comes_back() {
    let anchor = ((u32::MAX, (u128::MAX, 1)), u64::MAX);
    assert_eq!(anchor_from_json(&anchor_to_json(anchor).unwrap()), Some(anchor));
}

#[test]
fn json_that_is_no_anchor() {
    let short = "{\"block_id\":{\"hash\":\"00\",\"height\":21},\"confirmation_time\":5}";
    for text in ["", "null", "{}", "[1, 2]", "{\"confirmation_time\":5}", short] {
        assert_eq!(anchor_from_json(text), None, "{text}");
    }
}
