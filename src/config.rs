//! The node's configuration, built once at startup and passed by reference.

use vstd::prelude::*;

verus! {

/// The value stored under `key` in a list of pairs: the first match.
pub open spec fn lookup_spec(entries: Seq<(String, String)>, key: Seq<char>) -> Option<Seq<char>>
    decreases entries.len(),
{
    if entries.len() == 0 {
        None
    } else if entries[0].0@ == key {
        Some(entries[0].1@)
    } else {
        lookup_spec(entries.drop_first(), key)
    }
}

/// The value stored under `key`.
pub fn lookup<'a>(entries: &'a Vec<(String, String)>, key: &String) -> (r: Option<&'a String>)
    ensures
        match r {
            Some(v) => lookup_spec(entries@, key@) == Some(v@),
            None => lookup_spec(entries@, key@) is None,
        },
{
    let mut i: usize = 0;
    assert(entries@.subrange(0, entries@.len() as int) =~= entries@);
    while i < entries.len()
        invariant
            i <= entries@.len(),
            lookup_spec(entries@, key@) == lookup_spec(entries@.subrange(i as int, entries@.len() as int), key@),
        decreases entries@.len() - i,
    {
        let ghost rest = entries@.subrange(i as int, entries@.len() as int);
        assert(rest.drop_first() =~= entries@.subrange(i + 1, entries@.len() as int));
        assert(rest[0] == entries@[i as int]);
        if entries[i].0 == *key {
            return Some(&entries[i].1);
        }
        i = i + 1;
    }
    assert(entries@.subrange(i as int, entries@.len() as int) =~= Seq::<(String, String)>::empty());
    None
}

/// The network name `input` selects: one of `Dev`, `Test`, `Main`, `Local`,
/// and `Local` for anything else.
pub open spec fn network_of(input: Seq<char>) -> Seq<char> {
    if input == "Dev"@ || input == "Test"@ || input == "Main"@ {
        input
    } else {
        "Local"@
    }
}

fn network_name(input: &str) -> (r: String)
    ensures
        r@ == network_of(input@),
{
    let s = input.to_owned();
    let dev = "Dev".to_owned();
    let test = "Test".to_owned();
    let main = "Main".to_owned();
    if s == dev || s == test || s == main {
        s
    } else {
        "Local".to_owned()
    }
}

#[derive(Clone, Debug, PartialEq, Eq)]
pub enum ConfigError {
    Loading,
}

/// The node's settings.
#[derive(Clone, Debug)]
pub struct TrollupConfig {
    /// RPC endpoint per network name.
    pub rpc_urls: Vec<(String, String)>,
    /// WebSocket endpoint per network name.
    pub rpc_ws: Vec<(String, String)>,
    pub trollup_validator_url: String,
    /// The network in use.
    pub solana_environment: String,
    pub account_state_manager_db_path: String,
    pub block_state_manager_db_path: String,
    pub transaction_state_manager_db_path: String,
    pub optimistic_commitment_state_manager_db_path: String,
    pub proof_verifier_program_id: String,
    pub signature_verifier_program_id: String,
    pub program_ids_to_load: Vec<String>,
    pub commitment_fee_payer_keypair: String,
    /// Seconds an optimistic commitment waits before the direct path is tried.
    pub optimistic_timeout: u64,
    /// Transactions per executed batch.
    pub transaction_batch_amount: u32,
    pub trollup_api_keypair_path: String,
    pub trollup_validator_keypair_path: String,
    pub trollup_api_keypair: Vec<u8>,
    pub trollup_validator_keypair: Vec<u8>,
}

/// Seconds an optimistic commitment waits unless configured otherwise.
pub const DEFAULT_OPTIMISTIC_TIMEOUT: u64 = 60;

/// Direct-path retries of an optimistic commitment before it is dropped.
pub const DEFAULT_MAX_RETRIES: u32 = 3;

impl TrollupConfig {
    /// The RPC endpoint of the network in use.
    pub fn rpc_url_current_env(&self) -> (r: Option<&String>)
        ensures
            match r {
                Some(v) => lookup_spec(self.rpc_urls@, self.solana_environment@) == Some(v@),
                None => lookup_spec(self.rpc_urls@, self.solana_environment@) is None,
            },
    {
        lookup(&self.rpc_urls, &self.solana_environment)
    }

    /// The WebSocket endpoint of the network in use.
    pub fn rpc_ws_current_env(&self) -> (r: Option<&String>)
        ensures
            match r {
                Some(v) => lookup_spec(self.rpc_ws@, self.solana_environment@) == Some(v@),
                None => lookup_spec(self.rpc_ws@, self.solana_environment@) is None,
            },
    {
        lookup(&self.rpc_ws, &self.solana_environment)
    }

    /// The RPC endpoint of the network `input` names, `Local` for an
    /// unknown name.
    pub fn rpc_url(&self, input: &str) -> (r: Option<&String>)
        ensures
            match r {
                Some(v) => lookup_spec(self.rpc_urls@, network_of(input@)) == Some(v@),
                None => lookup_spec(self.rpc_urls@, network_of(input@)) is None,
            },
    {
        let name = network_name(input);
        lookup(&self.rpc_urls, &name)
    }
}

/// The API's own settings.
#[derive(Clone, Debug)]
pub struct Config {
    pub rpc_urls: Vec<(String, String)>,
    pub trollup_validator_url: String,
}

impl Config {
    /// The RPC endpoint of the network `input` names, `Local` for an
    /// unknown name.
    pub fn rpc_url(&self, input: &str) -> (r: Option<&String>)
        ensures
            match r {
                Some(v) => lookup_spec(self.rpc_urls@, network_of(input@)) == Some(v@),
                None => lookup_spec(self.rpc_urls@, network_of(input@)) is None,
            },
    {
        let name = network_name(input);
        lookup(&self.rpc_urls, &name)
    }
}

} // verus!
