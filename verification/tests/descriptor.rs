use bdk_sqlx::descriptor::{all_derive, Descriptor, KeyShape, Wildcard};
use bdk_sqlx::error::BdkSqlxError;
use bdk_sqlx::hash::hash_to_bytes;

const SINGLE: &str = "wpkh(0279be667ef9dcbbac55a06295ce870b07029bfcdb2dce28d959f2815b16f81798)";
const XPUB: &str = "xpub661MyMwAqRbcFtXgS5sYJABqqG9YLmC4Q1Rdap9gSE8NqtwybGhePY2gZ29ESFjqJoCu1Rupje8YtGqsefD265TMg7usUDFdp6W1EGMcet8";

fn hex(bytes: &[u8]) -> String {
    bytes.iter().map(|byte| format!("{byte:02x}")).collect()
}

#[test]
fn descriptor_is_written_with_its_checksum() {
    let d = Descriptor::parse(SINGLE).unwrap();
    assert!(d.text.starts_with(SINGLE));
    assert_eq!(d.text.len(), SINGLE.len() + 9);
    assert_eq!(&d.text[SINGLE.len()..SINGLE.len() + 1], "#");
}

#[test]
fn descriptor_id_is_the_hash_of_its_script() {
    let d = Descriptor::parse(SINGLE).unwrap();
    assert_eq!(
        hex(&hash_to_bytes(d.id)),
        "8838f796bf4970b148779c05b74b8c49515b322d04035f7faa5d9b2375df2396"
    );
}

#[test]
fn written_descriptor_reads_back() {
    for text in [SINGLE.to_string(), format!("tr({XPUB}/0/*)"), format!("wpkh({XPUB}/1/*)")] {
        let d = Descriptor::parse(&text).unwrap();
        assert_eq!(Descriptor::parse(&d.text).unwrap(), d);
        assert_eq!(Descriptor::parse_if_it_has_id(&text).unwrap(), Some(d));
    }
}

#[test]
fn descriptors_of_different_paths_have_different_ids() {
    let external = Descriptor::parse(&format!("wpkh({XPUB}/0/*)")).unwrap();
    let internal = Descriptor::parse(&format!("wpkh({XPUB}/1/*)")).unwrap();
    assert_ne!(external.id, internal.id);
}

#[test]
fn text_that_is_no_descriptor_is_refused() {
    let wrong_sum = format!("{SINGLE}#00000000");
    for text in ["", "wpkh()", "wpkh(02)", "addr(x)", &wrong_sum] {
        assert!(Descriptor::can_have_id(text), "{text}");
        assert!(matches!(Descriptor::parse(text), Err(BdkSqlxError::Miniscript(_))), "{text}");
        assert!(
            matches!(Descriptor::parse_if_it_has_id(text), Err(BdkSqlxError::Miniscript(_))),
            "{text}"
        );
    }
}

#[test]
fn descriptor_without_id() {
    let several = format!("wpkh({XPUB}/<0;1>/*)");
    let hardened_step = format!("wpkh({XPUB}/0'/*)");
    let hardened_wildcard = format!("wpkh({XPUB}/0/*')");
    let deep = format!("wpkh({XPUB}{}/*)", "/1".repeat(255));
    for text in [several, hardened_step, hardened_wildcard, deep] {
        assert!(!Descriptor::can_have_id(&text), "{text}");
        assert!(matches!(Descriptor::parse_if_it_has_id(&text), Ok(None)), "{text}");
    }
}

#[test]
fn deepest_descriptor_has_an_id() {
    let text = format!("wpkh({XPUB}{}/*)", "/1".repeat(254));
    assert!(Descriptor::can_have_id(&text));
    assert!(Descriptor::parse(&text).is_ok());
}

#[test]
fn keys_that_derive() {
    let deep = |depth, steps, wildcard| KeyShape::XPub {
        depth,
        steps,
        hardened_step: false,
        wildcard,
    };
    let xpub = |hardened_step, wildcard| KeyShape::XPub {
        depth: 3,
        steps: 1,
        hardened_step,
        wildcard,
    };
    assert!(all_derive(&vec![]));
    assert!(all_derive(&vec![
        KeyShape::Single,
        xpub(false, Wildcard::Absent),
        xpub(false, Wildcard::Unhardened),
    ]));
    assert!(!all_derive(&vec![KeyShape::Single, xpub(false, Wildcard::Hardened)]));
    assert!(!all_derive(&vec![xpub(true, Wildcard::Unhardened), KeyShape::Single]));
    assert!(!all_derive(&vec![KeyShape::MultiXPub]));
    assert!(all_derive(&vec![deep(255, 0, Wildcard::Absent), deep(5, 250, Wildcard::Absent)]));
    assert!(!all_derive(&vec![deep(255, 1, Wildcard::Absent)]));
    assert!(!all_derive(&vec![deep(0, usize::MAX, Wildcard::Absent)]));
    assert!(all_derive(&vec![deep(254, 0, Wildcard::Unhardened)]));
    assert!(!all_derive(&vec![deep(255, 0, Wildcard::Unhardened)]));
}
