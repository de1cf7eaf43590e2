//! The errors that the submission path reports.

use vstd::prelude::*;
use vstd::string::StringExecFns;

verus! {

/// A failure on the way from a request to a confirmed transaction; each
/// kind carries the detail that came with it.
#[derive(Debug)]
pub enum BubblegumError {
    InvalidPublicKey(String),
    TransactionError(String),
    RpcError(String),
    KeypairError(String),
    ConfigError(String),
    NetworkError(String),
    MetadataError(String),
    DecodingError(String),
    InstructionError(String),
}

impl BubblegumError {
    /// The words that introduce each kind of error in its message.
    pub open spec fn prefix(&self) -> Seq<char> {
        match self {
            BubblegumError::InvalidPublicKey(_) => "Invalid public key: "@,
            BubblegumError::TransactionError(_) => "Transaction error: "@,
            BubblegumError::RpcError(_) => "RPC error: "@,
            BubblegumError::KeypairError(_) => "Keypair error: "@,
            BubblegumError::ConfigError(_) => "Configuration error: "@,
            BubblegumError::NetworkError(_) => "Network error: "@,
            BubblegumError::MetadataError(_) => "Metadata error: "@,
            BubblegumError::DecodingError(_) => "Decoding error: "@,
            BubblegumError::InstructionError(_) => "Instruction error: "@,
        }
    }

    /// The detail that the error carries.
    pub open spec fn detail(&self) -> Seq<char> {
        match self {
            BubblegumError::InvalidPublicKey(detail) => detail@,
            BubblegumError::TransactionError(detail) => detail@,
            BubblegumError::RpcError(detail) => detail@,
            BubblegumError::KeypairError(detail) => detail@,
            BubblegumError::ConfigError(detail) => detail@,
            BubblegumError::NetworkError(detail) => detail@,
            BubblegumError::MetadataError(detail) => detail@,
            BubblegumError::DecodingError(detail) => detail@,
            BubblegumError::InstructionError(detail) => detail@,
        }
    }

    /// The error as one line of text: what kind it is, then its detail.
    pub fn message(&self) -> (text: String)
        ensures
            text@ == self.prefix() + self.detail(),
    {
        match self {
            BubblegumError::InvalidPublicKey(detail) => String::from_str(
                "Invalid public key: ",
            ).concat(detail.as_str()),
            BubblegumError::TransactionError(detail) => String::from_str(
                "Transaction error: ",
            ).concat(detail.as_str()),
            BubblegumError::RpcError(detail) => String::from_str("RPC error: ").concat(
                detail.as_str(),
            ),
            BubblegumError::KeypairError(detail) => String::from_str("Keypair error: ").concat(
                detail.as_str(),
            ),
            BubblegumError::ConfigError(detail) => String::from_str(
                "Configuration error: ",
            ).concat(detail.as_str()),
            BubblegumError::NetworkError(detail) => String::from_str("Network error: ").concat(
                detail.as_str(),
            ),
            BubblegumError::MetadataError(detail) => String::from_str("Metadata error: ").concat(
                detail.as_str(),
            ),
            BubblegumError::DecodingError(detail) => String::from_str("Decoding error: ").concat(
                detail.as_str(),
            ),
            BubblegumError::InstructionError(detail) => String::from_str(
                "Instruction error: ",
            ).concat(detail.as_str()),
        }
    }
}

} // verus!
