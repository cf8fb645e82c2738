//! Owning address per asset of one policy: one last-value write per matching
//! asset of every produced output.
use vstd::prelude::*;

use crate::model::{
    cmds_view, compose_key, key_of, lemma_cmds_view_push, Block, CRDTCommand, Cmd, PolicyAssets,
    ReduceError, TxOutput, Tx, Value, ValueModel,
};
use crate::filters::{eval, satisfies, Predicate};
use crate::text::{all_ascii, ascii_chars, ascii_to_string, hex_encode, hex_of, is_all_ascii};

verus! {

/// The prefix used when none is configured.
pub const DEFAULT_PREFIX: &'static str = "address_by_asset";

#[derive(Debug)]
pub struct Config {
    pub key_prefix: Option<String>,
    pub filter: Option<Predicate>,
    pub policy_id_hex: String,
    pub convert_to_ascii: Option<bool>,
}

pub struct Reducer {
    config: Config,
    convert_to_ascii: bool,
}

impl Config {
    pub open spec fn prefix(&self) -> Seq<char> {
        match self.key_prefix {
            Some(p) => p@,
            None => DEFAULT_PREFIX@,
        }
    }

    /// Builds the reducer; names are rendered in hex unless ASCII is asked for.
    pub fn plugin(self) -> (r: Reducer)
        ensures
            *r.config() == self,
            r.ascii() == (self.convert_to_ascii == Some(true)),
    {
        let convert_to_ascii = match self.convert_to_ascii {
            Some(b) => b,
            None => false,
        };
        Reducer { config: self, convert_to_ascii }
    }
}

impl Reducer {
    pub closed spec fn config(&self) -> &Config {
        &self.config
    }

    /// Whether asset names are rendered as ASCII where they can be.
    pub closed spec fn ascii(&self) -> bool {
        self.convert_to_ascii
    }

    /// The text of an asset name: its ASCII form when asked for and possible,
    /// else lowercase hex.
    pub open spec fn name_text(&self, name: Seq<u8>) -> Seq<char> {
        if self.ascii() && all_ascii(name) {
            ascii_chars(name)
        } else {
            hex_of(name)
        }
    }

    /// The names of the first `n` assets of a policy group, if the policy is the configured one.
    pub open spec fn group_names(&self, g: PolicyAssets, n: int) -> Seq<Seq<char>>
        decreases n,
    {
        if n <= 0 || hex_of(g.policy@) != self.config().policy_id_hex@ {
            Seq::empty()
        } else {
            self.group_names(g, n - 1).push(self.name_text(g.assets@[n - 1].name@))
        }
    }

    /// The names of matching assets in the first `n` policy groups.
    pub open spec fn groups_names(&self, gs: Seq<PolicyAssets>, n: int) -> Seq<Seq<char>>
        decreases n,
    {
        if n <= 0 {
            Seq::empty()
        } else {
            self.groups_names(gs, n - 1) + self.group_names(gs[n - 1], gs[n - 1].assets@.len() as int)
        }
    }

    /// The names of matching assets of an output.
    pub open spec fn output_names(&self, txo: &TxOutput) -> Seq<Seq<char>> {
        self.groups_names(txo.assets@, txo.assets@.len() as int)
    }

    /// An output bears a matching asset but has no address.
    pub open spec fn output_fails(&self, txo: &TxOutput) -> bool {
        self.output_names(txo).len() > 0 && txo.address is None
    }

    /// The writes for an output that does not fail.
    pub open spec fn output_cmds(&self, txo: &TxOutput) -> Seq<Cmd> {
        match txo.address {
            Some(a) => self.output_names(txo).map_values(
                |n: Seq<char>| Cmd::AnyWriteWins(key_of(self.config().prefix(), n), ValueModel::Text(a.text@)),
            ),
            None => Seq::empty(),
        }
    }

    pub open spec fn outputs_cmds(&self, outs: Seq<TxOutput>, n: int) -> Seq<Cmd>
        decreases n,
    {
        if n <= 0 {
            Seq::empty()
        } else {
            self.outputs_cmds(outs, n - 1) + self.output_cmds(&outs[n - 1])
        }
    }

    /// Whether a transaction passes the configured filter.
    pub open spec fn passes(&self, tx: &Tx) -> bool {
        match self.config().filter {
            Some(p) => satisfies(&p, tx),
            None => true,
        }
    }

    /// The writes of the transactions that pass the filter, among the first `n`.
    pub open spec fn txs_cmds(&self, txs: Seq<Tx>, n: int) -> Seq<Cmd>
        decreases n,
    {
        if n <= 0 {
            Seq::empty()
        } else if self.passes(&txs[n - 1]) {
            self.txs_cmds(txs, n - 1) + self.outputs_cmds(txs[n - 1].produces@, txs[n - 1].produces@.len() as int)
        } else {
            self.txs_cmds(txs, n - 1)
        }
    }

    /// The writes that a block yields.
    pub open spec fn block_cmds(&self, b: &Block) -> Seq<Cmd> {
        self.txs_cmds(b.txs@, b.txs@.len() as int)
    }

    /// Some produced output of a transaction that passes the filter fails.
    pub open spec fn block_fails(&self, b: &Block) -> bool {
        exists|i: int, j: int|
            0 <= i < b.txs@.len() && 0 <= j < b.txs@[i].produces@.len() && self.passes(&b.txs@[i])
                && #[trigger] self.output_fails(&b.txs@[i].produces@[j])
    }

    fn prefix(&self) -> (r: &str)
        ensures
            r@ == self.config().prefix(),
    {
        match &self.config.key_prefix {
            Some(p) => p.as_str(),
            None => DEFAULT_PREFIX,
        }
    }

    fn to_string_output(&self, policy_hex: &String, name: &Vec<u8>) -> (r: Option<String>)
        ensures
            policy_hex@ == self.config().policy_id_hex@ ==> (r matches Some(s) && s@ == self.name_text(name@)),
            policy_hex@ != self.config().policy_id_hex@ ==> r is None,
    {
        if *policy_hex == self.config.policy_id_hex {
            if self.convert_to_ascii && is_all_ascii(name.as_slice()) {
                Some(ascii_to_string(name.as_slice()))
            } else {
                Some(hex_encode(name.as_slice()))
            }
        } else {
            None
        }
    }

    fn collect_names(&self, txo: &TxOutput) -> (r: Vec<String>)
        ensures
            r@.map_values(|s: String| s@) == self.output_names(txo),
    {
        let mut names: Vec<String> = Vec::new();
        let mut g: usize = 0;
        while g < txo.assets.len()
            invariant
                g <= txo.assets@.len(),
                names@.map_values(|s: String| s@) == self.groups_names(txo.assets@, g as int),
            decreases txo.assets@.len() - g,
        {
            let group = &txo.assets[g];
            let policy_hex = hex_encode(group.policy.as_slice());
            let ghost before = names@.map_values(|s: String| s@);
            let mut k: usize = 0;
            while k < group.assets.len()
                invariant
                    g < txo.assets@.len(),
                    *group == txo.assets@[g as int],
                    k <= group.assets@.len(),
                    policy_hex@ == hex_of(group.policy@),
                    names@.map_values(|s: String| s@) == before + self.group_names(*group, k as int),
                decreases group.assets@.len() - k,
            {
                let ghost prev = names@;
                match self.to_string_output(&policy_hex, &group.assets[k].name) {
                    Some(s) => {
                        names.push(s);
                        assert(names@.map_values(|s: String| s@) =~= prev.map_values(|s: String| s@).push(s@));
                    },
                    None => {},
                }
                k = k + 1;
                assert(names@.map_values(|s: String| s@) =~= before + self.group_names(*group, k as int));
            }
            g = g + 1;
            assert(names@.map_values(|s: String| s@) =~= self.groups_names(txo.assets@, g as int));
        }
        names
    }

    /// Appends `AnyWriteWins(prefix.<name>, address)` for every asset of the
    /// configured policy; fails when there is one and the output has no address.
    pub fn process_txo(&self, txo: &TxOutput, output: &mut Vec<CRDTCommand>) -> (r: Result<(), ReduceError>)
        ensures
            r is Err <==> self.output_fails(txo),
            r is Ok ==> cmds_view(final(output)@) == cmds_view(old(output)@) + self.output_cmds(txo),
    {
        let names = self.collect_names(txo);
        if names.len() == 0 {
            assert(self.output_cmds(txo) =~= Seq::<Cmd>::empty());
            assert(cmds_view(output@) =~= cmds_view(output@) + Seq::<Cmd>::empty());
            return Ok(());
        }
        let address = match &txo.address {
            Some(a) => &a.text,
            None => return Err(ReduceError::MissingAddress),
        };
        let ghost want = self.output_cmds(txo);
        let mut i: usize = 0;
        while i < names.len()
            invariant
                i <= names@.len(),
                (txo.address matches Some(a) && a.text == *address),
                names@.map_values(|s: String| s@) == self.output_names(txo),
                want == self.output_cmds(txo),
                cmds_view(output@) == cmds_view(old(output)@) + want.take(i as int),
            decreases names@.len() - i,
        {
            let key = compose_key(self.prefix(), names[i].as_str());
            let c = CRDTCommand::AnyWriteWins(key, Value::String(address.clone()));
            proof {
                lemma_cmds_view_push(output@, c);
                assert(names@.map_values(|s: String| s@)[i as int] == names@[i as int]@);
            }
            output.push(c);
            i = i + 1;
            assert(want.take(i as int) =~= want.take(i - 1).push(c@));
            assert(cmds_view(output@) =~= cmds_view(old(output)@) + want.take(i as int));
        }
        assert(want.take(i as int) =~= want);
        Ok(())
    }

    /// Appends the writes of every produced output of every transaction that
    /// passes the filter, in order; fails exactly when such an output bears a
    /// matching asset and no address.
    pub fn reduce_block(&self, block: &Block, output: &mut Vec<CRDTCommand>) -> (r: Result<(), ReduceError>)
        ensures
            r is Err <==> self.block_fails(block),
            r is Ok ==> cmds_view(final(output)@) == cmds_view(old(output)@) + self.block_cmds(block),
    {
        let mut i: usize = 0;
        while i < block.txs.len()
            invariant
                i <= block.txs@.len(),
                forall|a: int, b: int|
                    0 <= a < i && 0 <= b < block.txs@[a].produces@.len() && self.passes(&block.txs@[a])
                        ==> !#[trigger] self.output_fails(&block.txs@[a].produces@[b]),
                cmds_view(output@) == cmds_view(old(output)@) + self.txs_cmds(block.txs@, i as int),
            decreases block.txs@.len() - i,
        {
            let tx = &block.txs[i];
            let pass = match &self.config.filter {
                Some(p) => eval(p, tx),
                None => true,
            };
            if !pass {
                i = i + 1;
                continue;
            }
            let ghost before = cmds_view(output@);
            let mut j: usize = 0;
            while j < tx.produces.len()
                invariant
                    i < block.txs@.len(),
                    *tx == block.txs@[i as int],
                    j <= tx.produces@.len(),
                    self.passes(tx),
                    forall|a: int, b: int|
                        0 <= a < i && 0 <= b < block.txs@[a].produces@.len() && self.passes(&block.txs@[a])
                            ==> !#[trigger] self.output_fails(&block.txs@[a].produces@[b]),
                    forall|b: int| 0 <= b < j ==> !#[trigger] self.output_fails(&tx.produces@[b]),
                    cmds_view(output@) == before + self.outputs_cmds(tx.produces@, j as int),
                decreases tx.produces@.len() - j,
            {
                match self.process_txo(&tx.produces[j], output) {
                    Ok(()) => {},
                    Err(e) => {
                        assert(self.output_fails(&block.txs@[i as int].produces@[j as int]));
                        return Err(e);
                    },
                }
                j = j + 1;
                assert(cmds_view(output@) =~= before + self.outputs_cmds(tx.produces@, j as int));
            }
            i = i + 1;
            assert(cmds_view(output@) =~= cmds_view(old(output)@) + self.txs_cmds(block.txs@, i as int));
        }
        Ok(())
    }
}

} // verus!
