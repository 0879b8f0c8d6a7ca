//! Output descriptors, as their text and their id.

use std::str::FromStr;

use bdk_wallet::bitcoin::hashes;
use bdk_wallet::chain::DescriptorExt;
use bdk_wallet::miniscript;
use bdk_wallet::miniscript::descriptor::Wildcard as Open;
use bdk_wallet::miniscript::{DescriptorPublicKey, ForEachKey};
use vstd::prelude::*;

use crate::error::BdkSqlxError;
use crate::hash::{
    hash_bytes, hash_from_bytes, hash_of_bytes, law_bytes_hash_round_trip, DescriptorId,
};

verus! {

/// A descriptor: how it is written, and its id.
#[derive(Debug, PartialEq, Eq)]
pub struct Descriptor<T = String> {
    /// The descriptor's text, with its checksum.
    pub text: T,
    /// The descriptor's id: the hash of the script that it derives at index 0.
    pub id: DescriptorId,
}

impl View for Descriptor {
    type V = Descriptor<Seq<char>>;

    open spec fn view(&self) -> Descriptor<Seq<char>> {
        Descriptor { text: self.text@, id: self.id }
    }
}

/// How the last step of an extended key's path is left open.
#[derive(Clone, Copy, Debug, PartialEq, Eq, Structural)]
pub enum Wildcard {
    /// It is not left open.
    Absent,
    /// For any index that is not hardened.
    Unhardened,
    /// For any hardened index.
    Hardened,
}

/// What kind of key stands in a descriptor.
#[derive(Clone, Copy, Debug, PartialEq, Eq, Structural)]
pub enum KeyShape {
    /// A single public key.
    Single,
    /// An extended public key with one path.
    XPub {
        /// How many steps below its master key the extended key is.
        depth: u8,
        /// How many steps the path has, without a wildcard.
        steps: usize,
        /// Whether some step of the path is hardened.
        hardened_step: bool,
        /// Whether the path ends in a wildcard, and in which.
        wildcard: Wildcard,
    },
    /// An extended public key with several paths.
    MultiXPub,
}

/// How `Descriptor::from_str` of `miniscript` reads a text: the text that the descriptor it gives
/// is written as, or `None` where it gives an error.
pub uninterp spec fn descriptor_text(s: Seq<char>) -> Option<Seq<char>>;

/// The keys of the descriptor with the text `s`, in the order of `ForEachKey::for_each_key`.
pub uninterp spec fn descriptor_keys(s: Seq<char>) -> Seq<KeyShape>;

/// The bytes of what `DescriptorExt::descriptor_id` gives for the descriptor with the text `s`.
pub uninterp spec fn descriptor_id_bytes(s: Seq<char>) -> Seq<u8>;

/// Whether a public key can be derived at index 0 from a key of the given kind.
pub open spec fn key_derives(key: KeyShape) -> bool {
    match key {
        KeyShape::Single => true,
        KeyShape::XPub { depth, steps, hardened_step, wildcard } => !hardened_step && match wildcard {
            Wildcard::Absent => depth + steps <= u8::MAX,
            Wildcard::Unhardened => depth + steps + 1 <= u8::MAX,
            Wildcard::Hardened => false,
        },
        KeyShape::MultiXPub => false,
    }
}

/// Whether a script can be derived at index 0 from a descriptor with the given keys, so that it
/// has an id.
pub open spec fn keys_derive(keys: Seq<KeyShape>) -> bool {
    forall|i: int| 0 <= i < keys.len() ==> key_derives(#[trigger] keys[i])
}

/// Whether the text `s`, if it is a descriptor at all, is one that has an id.
pub open spec fn has_id_if_descriptor(s: Seq<char>) -> bool {
    descriptor_text(s) is Some ==> keys_derive(descriptor_keys(s))
}

/// The descriptor that the text `s` stands for, if it stands for one.
pub open spec fn descriptor_of_text(s: Seq<char>) -> Option<Descriptor<Seq<char>>> {
    match descriptor_text(s) {
        Some(text) => Some(Descriptor { text, id: hash_of_bytes(descriptor_id_bytes(s)) }),
        None => None,
    }
}

impl Descriptor<Seq<char>> {
    /// Whether the parts fit together: the text reads as a descriptor that is written in just
    /// that way, and the id is that descriptor's id.
    pub open spec fn valid(self) -> bool {
        &&& descriptor_of_text(self.text) == Some(self)
        &&& has_id_if_descriptor(self.text)
    }
}

/// Calls `Descriptor::<DescriptorPublicKey>::from_str`, and `to_string` on the descriptor that it
/// gives. Which of its errors it gives is left open.
#[verifier::external_body]
fn parse_descriptor(text: &str) -> (r: Result<String, miniscript::Error>)
    ensures
        match r {
            Ok(t) => descriptor_text(text@) == Some(t@),
            Err(_) => descriptor_text(text@) is None,
        },
{
    miniscript::Descriptor::<DescriptorPublicKey>::from_str(text).map(
        |d| d.to_string(),
    )
}

/// Calls `ForEachKey::for_each_key` on the descriptor with the given text, to list its keys.
#[verifier::external_body]
fn list_keys(text: &str) -> (r: Vec<KeyShape>)
    requires
        descriptor_text(text@) is Some,
    ensures
        r@ == descriptor_keys(text@),
{
    let mut keys: Vec<KeyShape> = Vec::new();
    miniscript::Descriptor::<DescriptorPublicKey>::from_str(text).unwrap().for_each_key(|key| {
        keys.push(match key {
            DescriptorPublicKey::Single(_) => KeyShape::Single,
            DescriptorPublicKey::XPub(xpub) => KeyShape::XPub { depth: xpub.xkey.depth,
                steps: xpub.derivation_path.len(), hardened_step: key.has_hardened_step(),
                wildcard: match xpub.wildcard { Open::None => Wildcard::Absent,
                    Open::Unhardened => Wildcard::Unhardened, Open::Hardened => Wildcard::Hardened,
                },
            },
            DescriptorPublicKey::MultiXPub(_) => KeyShape::MultiXPub,
        });
        true
    });
    keys
}

/// Calls `DescriptorExt::descriptor_id` on the descriptor with the given text. It panics where no
/// public key can be derived at index 0: for a key with several paths, with a hardened step, with a
/// hardened wildcard, or with a path that leads deeper than an extended key can be.
#[verifier::external_body]
fn compute_descriptor_id(text: &str) -> (r: [u8; 32])
    requires
        descriptor_text(text@) is Some,
        keys_derive(descriptor_keys(text@)),
    ensures
        r@ == descriptor_id_bytes(text@),
{
    let d = miniscript::Descriptor::<DescriptorPublicKey>::from_str(text).unwrap();
    hashes::Hash::to_byte_array(d.descriptor_id())
}

/// Whether a script can be derived at index 0 from a descriptor with the given keys.
pub fn all_derive(keys: &Vec<KeyShape>) -> (r: bool)
    ensures
        r == keys_derive(keys@),
{
    for i in 0..keys.len()
        invariant
            forall|j: int| 0 <= j < i ==> key_derives(#[trigger] keys@[j]),
    {
        let derives = match keys[i] {
            KeyShape::Single => true,
            KeyShape::XPub { depth, steps, hardened_step, wildcard } => {
                let left: usize = (u8::MAX - depth) as usize;
                !hardened_step && match wildcard {
                    Wildcard::Absent => steps <= left,
                    Wildcard::Unhardened => steps < left,
                    Wildcard::Hardened => false,
                }
            },
            KeyShape::MultiXPub => false,
        };
        if !derives {
            assert(!key_derives(keys@[i as int]));
            return false;
        }
    }
    true
}

impl Descriptor {
    /// Whether `text`, if it is a descriptor at all, is one that has an id.
    pub fn can_have_id(text: &str) -> (r: bool)
        ensures
            r == has_id_if_descriptor(text@),
    {
        match parse_descriptor(text) {
            Ok(_) => all_derive(&list_keys(text)),
            Err(_) => true,
        }
    }

    /// The descriptor that `text` stands for.
    pub fn parse(text: &str) -> (r: Result<Descriptor, BdkSqlxError>)
        requires
            has_id_if_descriptor(text@),
        ensures
            r matches Ok(d) ==> descriptor_of_text(text@) == Some(d@),
            r matches Ok(d) ==> descriptor_text(text@) == Some(d.text@) && hash_bytes(d.id)
                == descriptor_id_bytes(text@),
            r matches Err(_) ==> descriptor_text(text@) is None,
            r matches Ok(d) ==> (d.text@ == text@ ==> d@.valid()),
            r matches Err(e) ==> e is Miniscript && descriptor_of_text(text@) is None,
    {
        match parse_descriptor(text) {
            Ok(written) => {
                let bytes = compute_descriptor_id(text);
                let id = hash_from_bytes(&bytes);
                proof {
                    law_bytes_hash_round_trip(bytes@);
                }
                Ok(Descriptor { text: written, id })
            },
            Err(e) => Err(BdkSqlxError::from(e)),
        }
    }

    /// The descriptor that `text` stands for, or `Ok(None)` where it stands for one that has no
    /// id.
    pub fn parse_if_it_has_id(text: &str) -> (r: Result<Option<Descriptor>, BdkSqlxError>)
        ensures
            r matches Ok(Some(d)) ==> has_id_if_descriptor(text@) && descriptor_of_text(text@)
                == Some(d@),
            r matches Ok(Some(d)) ==> descriptor_text(text@) == Some(d.text@) && hash_bytes(d.id)
                == descriptor_id_bytes(text@),
            r matches Err(_) ==> descriptor_text(text@) is None,
            r matches Ok(Some(d)) ==> (d.text@ == text@ ==> d@.valid()),
            r matches Ok(None) ==> !has_id_if_descriptor(text@),
            r matches Err(e) ==> e is Miniscript && descriptor_of_text(text@) is None,
    {
        if Descriptor::can_have_id(text) {
            match Descriptor::parse(text) {
                Ok(d) => Ok(Some(d)),
                Err(e) => Err(e),
            }
        } else {
            Ok(None)
        }
    }
}

} // verus!
