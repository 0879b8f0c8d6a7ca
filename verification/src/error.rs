//! The ways in which an operation of the store can fail.

use bdk_wallet::bitcoin;
use bdk_wallet::miniscript;
use vstd::prelude::*;

verus! {

/// The error of `bitcoin`'s hash parsers. A value of it is carried, never looked into.
#[verifier::external_type_specification]
#[verifier::external_body]
pub struct ExHexToArrayError(bitcoin::hex::HexToArrayError);

/// The error of `miniscript`'s descriptor parser. A value of it is carried, never looked into.
#[verifier::external_type_specification]
#[verifier::external_body]
pub struct ExMiniscriptError(miniscript::Error);

/// The error of `serde_json`'s conversions. A value of it is carried, never looked into.
#[verifier::external_type_specification]
#[verifier::external_body]
pub struct ExSerdeJsonError(serde_json::Error);

/// The error of the database driver. A value of it is carried, never looked into.
#[verifier::external_type_specification]
#[verifier::external_body]
pub struct ExSqlxError(sqlx::Error);

/// Crate error
#[derive(Debug)]
pub enum BdkSqlxError {
    /// bitcoin parse hex error
    HexToArray(bitcoin::hex::HexToArrayError),
    /// miniscript error
    Miniscript(miniscript::Error),
    /// serde_json error
    SerdeJson(serde_json::Error),
    /// sqlx error
    Sqlx(sqlx::Error),
}

impl From<bitcoin::hex::HexToArrayError> for BdkSqlxError {
    fn from(e: bitcoin::hex::HexToArrayError) -> (r: BdkSqlxError) {
        BdkSqlxError::HexToArray(e)
    }
}

impl vstd::std_specs::convert::FromSpecImpl<bitcoin::hex::HexToArrayError> for BdkSqlxError {
    open spec fn obeys_from_spec() -> bool {
        true
    }

    open spec fn from_spec(e: bitcoin::hex::HexToArrayError) -> BdkSqlxError {
        BdkSqlxError::HexToArray(e)
    }
}

impl From<miniscript::Error> for BdkSqlxError {
    fn from(e: miniscript::Error) -> (r: BdkSqlxError) {
        BdkSqlxError::Miniscript(e)
    }
}

impl vstd::std_specs::convert::FromSpecImpl<miniscript::Error> for BdkSqlxError {
    open spec fn obeys_from_spec() -> bool {
        true
    }

    open spec fn from_spec(e: miniscript::Error) -> BdkSqlxError {
        BdkSqlxError::Miniscript(e)
    }
}

impl From<serde_json::Error> for BdkSqlxError {
    fn from(e: serde_json::Error) -> (r: BdkSqlxError) {
        BdkSqlxError::SerdeJson(e)
    }
}

impl vstd::std_specs::convert::FromSpecImpl<serde_json::Error> for BdkSqlxError {
    open spec fn obeys_from_spec() -> bool {
        true
    }

    open spec fn from_spec(e: serde_json::Error) -> BdkSqlxError {
        BdkSqlxError::SerdeJson(e)
    }
}

impl From<sqlx::Error> for BdkSqlxError {
    fn from(e: sqlx::Error) -> (r: BdkSqlxError) {
        BdkSqlxError::Sqlx(e)
    }
}

impl vstd::std_specs::convert::FromSpecImpl<sqlx::Error> for BdkSqlxError {
    open spec fn obeys_from_spec() -> bool {
        true
    }

    open spec fn from_spec(e: sqlx::Error) -> BdkSqlxError {
        BdkSqlxError::Sqlx(e)
    }
}

} // verus!
