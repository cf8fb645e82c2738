//! Total minted supply per asset: one signed counter increment for every
//! mint entry whose policy passes the whitelist.
use vstd::prelude::*;

use std::str::FromStr;

use crate::model::{cmds_view, key_of, lemma_cmds_view_push, Block, CRDTCommand, Cmd, PolicyAssets, Tx};
use crate::text::{hex_decoded, hex_encode, hex_of, is_hex_text, join2};

verus! {

/// The prefix used when none is configured.
pub const DEFAULT_PREFIX: &'static str = "supply_by_asset";

#[derive(Debug, Clone)]
pub struct Config {
    pub key_prefix: Option<String>,
    pub policy_ids_hex: Option<Vec<String>>,
}

pub struct Reducer {
    config: Config,
    policy_ids: Option<Vec<Vec<u8>>>,
}

/// Errors in the reducer's configuration.
#[derive(Debug, Clone, Copy, PartialEq, Eq)]
pub enum ConfigError {
    /// The whitelist entry at this position is not 56 hex digits.
    InvalidPolicyId(usize),
}

/// Relies on pallas_crypto's `Hash::<28>::from_str`: it decodes exactly 56 hex
/// digits, of either case, into 28 bytes, and fails on anything else.
#[verifier::external_body]
fn parse_policy_id(s: &str) -> (r: Option<Vec<u8>>)
    ensures
        r is Some <==> (s@.len() == 56 && is_hex_text(s@)),
        r matches Some(b) ==> b@ == hex_decoded(s@),
{
    pallas_crypto::hash::Hash::<28>::from_str(s).ok().map(|h| h.to_vec())
}

pub open spec fn valid_policy_text(s: Seq<char>) -> bool {
    s.len() == 56 && is_hex_text(s)
}

impl Config {
    pub open spec fn prefix(&self) -> Seq<char> {
        match self.key_prefix {
            Some(p) => p@,
            None => DEFAULT_PREFIX@,
        }
    }

    /// Builds the reducer, decoding the whitelist; fails on the first entry
    /// that is not a 28-byte policy id in hex.
    pub fn plugin(self) -> (r: Result<Reducer, ConfigError>)
        ensures
            match self.policy_ids_hex {
                None => r matches Ok(red) && *red.config() == self && red.whitelist() is None,
                Some(ids) => match r {
                    Ok(red) => {
                        &&& forall|i: int| 0 <= i < ids@.len() ==> valid_policy_text(ids@[i]@)
                        &&& *red.config() == self
                        &&& red.whitelist() == Some(
                            Seq::new(ids@.len(), |i: int| hex_decoded(ids@[i]@)),
                        )
                    },
                    Err(ConfigError::InvalidPolicyId(k)) => {
                        &&& k < ids@.len()
                        &&& !valid_policy_text(ids@[k as int]@)
                        &&& forall|i: int| 0 <= i < k ==> valid_policy_text(ids@[i]@)
                    },
                },
            },
    {
        let policy_ids = match &self.policy_ids_hex {
            None => None,
            Some(ids) => {
                let mut ps: Vec<Vec<u8>> = Vec::new();
                let mut i: usize = 0;
                while i < ids.len()
                    invariant
                        i <= ids@.len(),
                        self.policy_ids_hex == Some(*ids),
                        ps@.len() == i,
                        forall|j: int| 0 <= j < i ==> valid_policy_text(ids@[j]@),
                        forall|j: int| 0 <= j < i ==> ps@[j]@ == hex_decoded(ids@[j]@),
                    decreases ids@.len() - i,
                {
                    match parse_policy_id(ids[i].as_str()) {
                        Some(b) => ps.push(b),
                        None => return Err(ConfigError::InvalidPolicyId(i)),
                    }
                    i = i + 1;
                }
                let ghost want = Seq::new(ids@.len(), |i: int| hex_decoded(ids@[i]@));
                assert(ps@.map_values(|b: Vec<u8>| b@) =~= want);
                Some(ps)
            },
        };
        Ok(Reducer { config: self, policy_ids })
    }
}

impl Reducer {
    pub closed spec fn config(&self) -> &Config {
        &self.config
    }

    /// The decoded whitelist, if one was configured.
    pub closed spec fn whitelist(&self) -> Option<Seq<Seq<u8>>> {
        match self.policy_ids {
            Some(p) => Some(p@.map_values(|b: Vec<u8>| b@)),
            None => None,
        }
    }

    /// Whether a policy passes the whitelist: every policy does when there is none.
    pub open spec fn accepts(&self, policy: Seq<u8>) -> bool {
        match self.whitelist() {
            Some(p) => p.contains(policy),
            None => true,
        }
    }

    pub open spec fn asset_key(&self, policy: Seq<u8>, name: Seq<u8>) -> Seq<char> {
        key_of(self.config().prefix(), hex_of(policy) + hex_of(name))
    }

    /// The counters for the first `n` assets of a mint entry.
    pub open spec fn assets_cmds(&self, m: PolicyAssets, n: int) -> Seq<Cmd>
        decreases n,
    {
        if n <= 0 {
            Seq::empty()
        } else {
            let a = m.assets@[n - 1];
            self.assets_cmds(m, n - 1).push(
                Cmd::PNCounter(
                    self.asset_key(m.policy@, a.name@),
                    match a.qty {
                        Some(q) => q,
                        None => 0,
                    },
                ),
            )
        }
    }

    /// The counters for a mint entry.
    pub open spec fn mint_cmds(&self, m: PolicyAssets) -> Seq<Cmd> {
        if self.accepts(m.policy@) {
            self.assets_cmds(m, m.assets@.len() as int)
        } else {
            Seq::empty()
        }
    }

    /// The counters for the first `n` mint entries of a transaction.
    pub open spec fn mints_cmds(&self, ms: Seq<PolicyAssets>, n: int) -> Seq<Cmd>
        decreases n,
    {
        if n <= 0 {
            Seq::empty()
        } else {
            self.mints_cmds(ms, n - 1) + self.mint_cmds(ms[n - 1])
        }
    }

    /// The counters for the first `n` transactions.
    pub open spec fn txs_cmds(&self, txs: Seq<Tx>, n: int) -> Seq<Cmd>
        decreases n,
    {
        if n <= 0 {
            Seq::empty()
        } else {
            self.txs_cmds(txs, n - 1) + self.mints_cmds(txs[n - 1].mints@, txs[n - 1].mints@.len() as int)
        }
    }

    /// The counters that a block yields.
    pub open spec fn block_cmds(&self, b: &Block) -> Seq<Cmd> {
        self.txs_cmds(b.txs@, b.txs@.len() as int)
    }

    fn is_policy_id_accepted(&self, policy: &Vec<u8>) -> (r: bool)
        ensures
            r == self.accepts(policy@),
    {
        match &self.policy_ids {
            None => true,
            Some(pids) => {
                let mut i: usize = 0;
                while i < pids.len()
                    invariant
                        i <= pids@.len(),
                        self.whitelist() == Some(pids@.map_values(|b: Vec<u8>| b@)),
                        forall|j: int| 0 <= j < i ==> pids@[j]@ != policy@,
                    decreases pids@.len() - i,
                {
                    if crate::model::bytes_eq(&pids[i], policy) {
                        assert(self.whitelist().unwrap()[i as int] == policy@);
                        return true;
                    }
                    i = i + 1;
                }
                assert(!self.whitelist().unwrap().contains(policy@));
                false
            },
        }
    }

    fn prefix(&self) -> (r: &str)
        ensures
            r@ == self.config().prefix(),
    {
        match &self.config.key_prefix {
            Some(p) => p.as_str(),
            None => DEFAULT_PREFIX,
        }
    }

    fn process_mint(&self, m: &PolicyAssets, output: &mut Vec<CRDTCommand>)
        ensures
            cmds_view(final(output)@) == cmds_view(old(output)@) + self.mint_cmds(*m),
    {
        if !self.is_policy_id_accepted(&m.policy) {
            assert(cmds_view(output@) =~= cmds_view(output@) + Seq::<Cmd>::empty());
            return;
        }
        let policy_hex = hex_encode(m.policy.as_slice());
        let mut k: usize = 0;
        while k < m.assets.len()
            invariant
                k <= m.assets@.len(),
                policy_hex@ == hex_of(m.policy@),
                cmds_view(output@) == cmds_view(old(output)@) + self.assets_cmds(*m, k as int),
            decreases m.assets@.len() - k,
        {
            let a = &m.assets[k];
            let name_hex = hex_encode(a.name.as_slice());
            let id = join2(policy_hex.as_str(), name_hex.as_str());
            let key = crate::model::compose_key(self.prefix(), id.as_str());
            let qty: i64 = match a.qty {
                Some(q) => q,
                None => 0,
            };
            let c = CRDTCommand::PNCounter(key, qty);
            proof {
                lemma_cmds_view_push(output@, c);
            }
            output.push(c);
            k = k + 1;
            assert(cmds_view(output@) =~= cmds_view(old(output)@) + self.assets_cmds(*m, k as int));
        }
    }

    fn process_tx(&self, tx: &Tx, output: &mut Vec<CRDTCommand>)
        ensures
            cmds_view(final(output)@) == cmds_view(old(output)@) + self.mints_cmds(
                tx.mints@,
                tx.mints@.len() as int,
            ),
    {
        let mut j: usize = 0;
        while j < tx.mints.len()
            invariant
                j <= tx.mints@.len(),
                cmds_view(output@) == cmds_view(old(output)@) + self.mints_cmds(tx.mints@, j as int),
            decreases tx.mints@.len() - j,
        {
            self.process_mint(&tx.mints[j], output);
            j = j + 1;
            assert(cmds_view(output@) =~= cmds_view(old(output)@) + self.mints_cmds(tx.mints@, j as int));
        }
    }

    /// Appends, in transaction and mint order, a `PNCounter` keyed
    /// `prefix.<policy hex><name hex>` with the signed minted quantity for
    /// every mint entry of an accepted policy.
    pub fn reduce_block(&self, block: &Block, output: &mut Vec<CRDTCommand>)
        ensures
            cmds_view(final(output)@) == cmds_view(old(output)@) + self.block_cmds(block),
    {
        let mut i: usize = 0;
        while i < block.txs.len()
            invariant
                i <= block.txs@.len(),
                cmds_view(output@) == cmds_view(old(output)@) + self.txs_cmds(block.txs@, i as int),
            decreases block.txs@.len() - i,
        {
            self.process_tx(&block.txs[i], output);
            i = i + 1;
            assert(cmds_view(output@) =~= cmds_view(old(output)@) + self.txs_cmds(block.txs@, i as int));
        }
    }
}

} // verus!
