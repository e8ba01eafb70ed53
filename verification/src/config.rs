//! Process configuration: endpoints, the contract addresses to scan, and
//! the listening port. Loading it from the environment is the caller's
//! business; the indexer only reads the values.

use vstd::prelude::*;

verus! {

#[allow(non_snake_case)]
pub struct Config {
    pub database_url: String,
    pub MOCK_MANTLE_ADDRESS: String,
    pub OLIG_TOKEN_ADDRESS: String,
    pub GAMESTORE_ADDRESS: String,
    pub VEOLIG_ADDRESS: String,
    pub OLIG_VOTER_ADDRESS: String,
    pub REGION_FARM_ADDRESS: String,
    pub WAR_THEATER_ADDRESS: String,
    pub database_schema_url: String,
    pub rpc_url: String,
    pub port: u16,
}

impl Config {
    /// The contract addresses the indexer scans, in their fixed order.
    pub fn contract_addresses(&self) -> (r: Vec<String>)
        ensures
            r@ =~= seq![
                self.MOCK_MANTLE_ADDRESS,
                self.OLIG_TOKEN_ADDRESS,
                self.GAMESTORE_ADDRESS,
                self.VEOLIG_ADDRESS,
                self.OLIG_VOTER_ADDRESS,
                self.REGION_FARM_ADDRESS,
                self.WAR_THEATER_ADDRESS,
            ],
    {
        let mut r: Vec<String> = Vec::new();
        r.push(self.MOCK_MANTLE_ADDRESS.clone());
        r.push(self.OLIG_TOKEN_ADDRESS.clone());
        r.push(self.GAMESTORE_ADDRESS.clone());
        r.push(self.VEOLIG_ADDRESS.clone());
        r.push(self.OLIG_VOTER_ADDRESS.clone());
        r.push(self.REGION_FARM_ADDRESS.clone());
        r.push(self.WAR_THEATER_ADDRESS.clone());
        r
    }
}

} // verus!
