//! The plain records that callers hand to the library.

use vstd::prelude::*;

verus! {

/// How to reach the ledger.
#[derive(Debug)]
pub struct Config {
    pub network: String,
    pub rpc_url: String,
    pub commitment: String,
}

/// One creator of a record, with the share that falls to it.
#[derive(Debug)]
pub struct NifCreator {
    pub address: String,
    pub verified: bool,
    pub share: u8,
}

/// The description of a record to be minted.
#[derive(Debug)]
pub struct NifMetadataArgs {
    pub name: String,
    pub symbol: String,
    pub uri: String,
    pub creators: Vec<NifCreator>,
    pub seller_fee_basis_points: u16,
    pub primary_sale_happened: bool,
    pub is_mutable: bool,
    pub collection: Option<String>,
}

} // verus!
