//! License fee and license address by chain.
use vstd::prelude::*;
use vstd::string::StringExecFns;

use crate::types::{Coin, ContractError};

verus! {

/// The fee, as (currency, amount), that creating an event costs on a chain.
pub open spec fn license_fee_on(chain_id: Seq<char>) -> Option<(Seq<char>, u128)> {
    if chain_id == "bitsong-2b"@ {
        Some(("ubtsg"@, 420000000u128))
    } else if chain_id == "juno-1"@ {
        Some(("ujuno"@, 1000000u128))
    } else if chain_id == "cosmoshub-4"@ {
        Some(("uatom"@, 420000000u128))
    } else if chain_id == "neutron-1"@ {
        Some(("untrn"@, 420000000u128))
    } else if chain_id == "archway-1"@ {
        Some(("aarch"@, 420000000u128))
    } else if chain_id == "bitcanna-1"@ {
        Some(("ubcna"@, 420000000u128))
    } else if chain_id == "chihuahua-1"@ {
        Some(("uhuahua"@, 420000000u128))
    } else if chain_id == "omniflixhub-1"@ {
        Some(("uflix"@, 420000000u128))
    } else if chain_id == "secret-4"@ {
        Some(("uscrt"@, 420000000u128))
    } else if chain_id == "migaloo-1"@ {
        Some(("uwhale"@, 420000000u128))
    } else if chain_id == "columbus-5"@ {
        Some(("uluna"@, 420000000u128))
    } else if chain_id == "phoenix-1"@ {
        Some(("uluna"@, 420000000u128))
    } else if chain_id == "kaiyo-1"@ {
        Some(("ukuji"@, 420000000u128))
    } else if chain_id == "luwak-1"@ {
        Some(("ukopi"@, 420000000u128))
    } else if chain_id == "aaronetwork"@ {
        Some(("uaaron"@, 420000000u128))
    } else if chain_id == "acre_9052-1"@ {
        Some(("aacre"@, 420000000u128))
    } else {
        None
    }
}

/// The address that receives license fees on a chain.
pub open spec fn license_addr_on(chain_id: Seq<char>) -> Option<Seq<char>> {
    if chain_id == "juno-1"@ {
        Some("juno1tzz4sp3y8l5lf76qy0ydzjwlntcu8zg7t63p68"@)
    } else if chain_id == "bitsong-2b"@ {
        Some("bitsong1schul8k23ryty6ar324mzee0axjx0rxec5t6hk"@)
    } else {
        None
    }
}

fn is(chain_id: &String, name: &str) -> (r: bool)
    ensures
        r == (chain_id@ == name@),
{
    *chain_id == String::from_str(name)
}

fn coin(amount: u128, denom: &str) -> (r: Coin)
    ensures
        r@ == (denom@, amount),
{
    Coin { denom: String::from_str(denom), amount }
}

/// The license fee on chain `chain_id`; chains without one are refused.
pub fn get_license_fee(chain_id: &String) -> (r: Result<Coin, ContractError>)
    ensures
        match license_fee_on(chain_id@) {
            Some(f) => r is Ok && r->Ok_0@ == f,
            None => r == Err::<Coin, ContractError>(ContractError::NoLicenseForChain),
        },
{
    if is(chain_id, "bitsong-2b") {
        Ok(coin(420000000, "ubtsg"))
    } else if is(chain_id, "juno-1") {
        Ok(coin(1000000, "ujuno"))
    } else if is(chain_id, "cosmoshub-4") {
        Ok(coin(420000000, "uatom"))
    } else if is(chain_id, "neutron-1") {
        Ok(coin(420000000, "untrn"))
    } else if is(chain_id, "archway-1") {
        Ok(coin(420000000, "aarch"))
    } else if is(chain_id, "bitcanna-1") {
        Ok(coin(420000000, "ubcna"))
    } else if is(chain_id, "chihuahua-1") {
        Ok(coin(420000000, "uhuahua"))
    } else if is(chain_id, "omniflixhub-1") {
        Ok(coin(420000000, "uflix"))
    } else if is(chain_id, "secret-4") {
        Ok(coin(420000000, "uscrt"))
    } else if is(chain_id, "migaloo-1") {
        Ok(coin(420000000, "uwhale"))
    } else if is(chain_id, "columbus-5") {
        Ok(coin(420000000, "uluna"))
    } else if is(chain_id, "phoenix-1") {
        Ok(coin(420000000, "uluna"))
    } else if is(chain_id, "kaiyo-1") {
        Ok(coin(420000000, "ukuji"))
    } else if is(chain_id, "luwak-1") {
        Ok(coin(420000000, "ukopi"))
    } else if is(chain_id, "aaronetwork") {
        Ok(coin(420000000, "uaaron"))
    } else if is(chain_id, "acre_9052-1") {
        Ok(coin(420000000, "aacre"))
    } else {
        Err(ContractError::NoLicenseForChain)
    }
}

/// The license address on chain `chain_id`; chains without one are refused.
pub fn get_license_addr(chain_id: &String) -> (r: Result<String, ContractError>)
    ensures
        match license_addr_on(chain_id@) {
            Some(a) => r is Ok && r->Ok_0@ == a,
            None => r == Err::<String, ContractError>(ContractError::NoLicenseForChain),
        },
{
    if is(chain_id, "juno-1") {
        Ok(String::from_str("juno1tzz4sp3y8l5lf76qy0ydzjwlntcu8zg7t63p68"))
    } else if is(chain_id, "bitsong-2b") {
        Ok(String::from_str("bitsong1schul8k23ryty6ar324mzee0axjx0rxec5t6hk"))
    } else {
        Err(ContractError::NoLicenseForChain)
    }
}

} // verus!
