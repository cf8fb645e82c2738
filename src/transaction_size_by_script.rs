//! Transaction bytes per script address: every transaction counts once for
//! each distinct script address among its resolved inputs and its outputs.
use vstd::prelude::*;

use crate::model::{
    cmds_view, compose_key, find_index, key_of, lemma_cmds_view_push, Address, Block, BlockContext,
    CRDTCommand, Cmd, OutputRef, ReduceError, Tx, TxOutput,
};
use crate::filters::{eval, satisfies, Predicate};
use crate::text::{decimal_of, hex_encode, hex_of, u64_to_decimal};

verus! {

/// The prefix used when none is configured.
pub const DEFAULT_PREFIX: &'static str = "trx_size_by_script";

/// Whether each transaction's size is recorded on its own or summed.
#[derive(Debug, Clone, Copy, PartialEq, Eq, Structural)]
pub enum Projection {
    Individual,
    Total,
}

/// How script addresses are rendered in keys.
#[derive(Debug, Clone, Copy, PartialEq, Eq, Structural)]
pub enum AddrType {
    Hex,
    Bech32,
}

/// Time bucket appended to keys.
#[derive(Debug, Clone, Copy, PartialEq, Eq, Structural)]
pub enum AggrType {
    Epoch,
}

#[derive(Debug)]
pub struct Config {
    pub key_prefix: Option<String>,
    pub filter: Option<Predicate>,
    pub aggr_by: Option<AggrType>,
    pub key_addr_type: Option<AddrType>,
    pub projection: Projection,
}

pub struct Reducer {
    config: Config,
}

impl Config {
    pub fn plugin(self) -> (r: Reducer)
        ensures
            *r.config() == self,
    {
        Reducer { config: self }
    }
}

/// Adds `a` to the seen addresses unless it is absent or already there.
pub open spec fn add_seen(seen: Seq<Seq<char>>, a: Option<Seq<char>>) -> Seq<Seq<char>> {
    match a {
        Some(x) => if seen.contains(x) {
            seen
        } else {
            seen.push(x)
        },
        None => seen,
    }
}

pub open spec fn texts(v: Seq<String>) -> Seq<Seq<char>> {
    v.map_values(|s: String| s@)
}

fn contains_text(v: &Vec<String>, s: &String) -> (r: bool)
    ensures
        r == texts(v@).contains(s@),
{
    let mut i: usize = 0;
    while i < v.len()
        invariant
            i <= v@.len(),
            forall|j: int| 0 <= j < i ==> v@[j]@ != s@,
        decreases v@.len() - i,
    {
        if v[i] == *s {
            assert(texts(v@)[i as int] == s@);
            return true;
        }
        i = i + 1;
    }
    assert(!texts(v@).contains(s@)) by {
        if texts(v@).contains(s@) {
            let k = choose|k: int| 0 <= k < texts(v@).len() && texts(v@)[k] == s@;
            assert(v@[k]@ == s@);
        }
    };
    false
}

fn insert_seen(seen: &mut Vec<String>, a: String)
    ensures
        texts(final(seen)@) == add_seen(texts(old(seen)@), Some(a@)),
{
    if !contains_text(seen, &a) {
        let ghost prev = seen@;
        seen.push(a);
        assert(texts(seen@) =~= texts(prev).push(a@));
    }
}

impl Reducer {
    pub closed spec fn config(&self) -> &Config {
        &self.config
    }

    /// The text of an address in keys.
    pub open spec fn addr_text(&self, a: Address) -> Seq<char> {
        if self.config().key_addr_type == Some(AddrType::Hex) {
            hex_of(a.bytes@)
        } else {
            a.text@
        }
    }

    /// The key text of an output's address, when that address has a script part.
    pub open spec fn script_addr(&self, txo: TxOutput) -> Option<Seq<char>> {
        match txo.address {
            Some(a) => if a.has_script {
                Some(self.addr_text(a))
            } else {
                None
            },
            None => None,
        }
    }

    /// The script address of a spent output, looked up in the context.
    pub open spec fn input_addr(&self, ctx: &BlockContext, r: &OutputRef) -> Option<Seq<char>> {
        match find_index(ctx, r) {
            Some(i) => self.script_addr(ctx.utxos@[i].1),
            None => None,
        }
    }

    pub open spec fn seen_inputs(&self, ctx: &BlockContext, refs: Seq<OutputRef>, n: int) -> Seq<Seq<char>>
        decreases n,
    {
        if n <= 0 {
            Seq::empty()
        } else {
            add_seen(self.seen_inputs(ctx, refs, n - 1), self.input_addr(ctx, &refs[n - 1]))
        }
    }

    pub open spec fn seen_outputs(&self, start: Seq<Seq<char>>, outs: Seq<TxOutput>, n: int) -> Seq<Seq<char>>
        decreases n,
    {
        if n <= 0 {
            start
        } else {
            add_seen(self.seen_outputs(start, outs, n - 1), self.script_addr(outs[n - 1]))
        }
    }

    /// The distinct script addresses a transaction touches, in first-seen order:
    /// resolved inputs first, then outputs.
    pub open spec fn tx_seen(&self, ctx: &BlockContext, tx: &Tx) -> Seq<Seq<char>> {
        self.seen_outputs(
            self.seen_inputs(ctx, tx.consumes@, tx.consumes@.len() as int),
            tx.produces@,
            tx.produces@.len() as int,
        )
    }

    /// Whether a transaction passes the configured filter.
    pub open spec fn passes(&self, tx: &Tx) -> bool {
        match self.config().filter {
            Some(p) => satisfies(&p, tx),
            None => true,
        }
    }

    /// A transaction that passes the filter has a spent output missing from the context.
    pub open spec fn tx_fails(&self, ctx: &BlockContext, tx: &Tx) -> bool {
        self.passes(tx) && exists|k: int| 0 <= k < tx.consumes@.len() && find_index(ctx, &#[trigger] tx.consumes@[k]) is None
    }

    pub open spec fn block_fails(&self, ctx: &BlockContext, b: &Block) -> bool {
        exists|i: int| 0 <= i < b.txs@.len() && self.tx_fails(ctx, &#[trigger] b.txs@[i])
    }

    /// The key for an address: `prefix.address.epoch` when aggregating by
    /// epoch under a configured prefix, `trx_size_by_script.address` when
    /// aggregating by epoch without one, else `prefix.address`.
    pub open spec fn key_for(&self, address: Seq<char>, epoch_no: u64) -> Seq<char> {
        match self.config().key_prefix {
            Some(p) => if self.config().aggr_by == Some(AggrType::Epoch) {
                key_of(key_of(p@, address), decimal_of(epoch_no as nat))
            } else {
                key_of(p@, address)
            },
            None => key_of(DEFAULT_PREFIX@, address),
        }
    }

    pub open spec fn size_cmd(&self, key: Seq<char>, len: usize) -> Cmd {
        match self.config().projection {
            Projection::Individual => Cmd::GrowOnlySetAdd(key, decimal_of(len as nat)),
            Projection::Total => Cmd::PNCounter(key, len as i64),
        }
    }

    /// The commands for one transaction: none when it fails the filter or its
    /// encoding is empty, else one per distinct script address.
    pub open spec fn tx_cmds(&self, ctx: &BlockContext, tx: &Tx, epoch_no: u64) -> Seq<Cmd> {
        if !self.passes(tx) || tx.encoded_len == 0 {
            Seq::empty()
        } else {
            self.tx_seen(ctx, tx).map_values(
                |a: Seq<char>| self.size_cmd(self.key_for(a, epoch_no), tx.encoded_len),
            )
        }
    }

    pub open spec fn txs_cmds(&self, ctx: &BlockContext, txs: Seq<Tx>, n: int, epoch_no: u64) -> Seq<Cmd>
        decreases n,
    {
        if n <= 0 {
            Seq::empty()
        } else {
            self.txs_cmds(ctx, txs, n - 1, epoch_no) + self.tx_cmds(ctx, &txs[n - 1], epoch_no)
        }
    }

    pub open spec fn block_cmds(&self, ctx: &BlockContext, b: &Block) -> Seq<Cmd> {
        self.txs_cmds(ctx, b.txs@, b.txs@.len() as int, b.epoch)
    }

    fn render_address(&self, a: &Address) -> (r: String)
        ensures
            r@ == self.addr_text(*a),
    {
        match self.config.key_addr_type {
            Some(AddrType::Hex) => hex_encode(a.bytes.as_slice()),
            _ => a.text.clone(),
        }
    }

    fn process_outbound_txo(&self, seen: &mut Vec<String>, tx_output: &TxOutput)
        ensures
            texts(final(seen)@) == add_seen(texts(old(seen)@), self.script_addr(*tx_output)),
    {
        match &tx_output.address {
            Some(a) => {
                if a.has_script {
                    let s = self.render_address(a);
                    insert_seen(seen, s);
                }
            },
            None => {},
        }
    }

    fn process_inbound_txo(&self, ctx: &BlockContext, seen: &mut Vec<String>, input: &OutputRef) -> (r: Result<(), ReduceError>)
        ensures
            r is Err <==> find_index(ctx, input) is None,
            r is Ok ==> texts(final(seen)@) == add_seen(texts(old(seen)@), self.input_addr(ctx, input)),
    {
        match ctx.find_utxo(input) {
            Some(i) => {
                self.process_outbound_txo(seen, &ctx.utxos[i].1);
                Ok(())
            },
            None => Err(ReduceError::MissingUtxo),
        }
    }

    /// The key for an address in a given epoch.
    fn config_key(&self, address: &String, epoch_text: &String, epoch_no: u64) -> (r: String)
        requires
            epoch_text@ == decimal_of(epoch_no as nat),
        ensures
            r@ == self.key_for(address@, epoch_no),
    {
        match &self.config.key_prefix {
            Some(p) => match self.config.aggr_by {
                Some(AggrType::Epoch) => {
                    let k = compose_key(p.as_str(), address.as_str());
                    let r = compose_key(k.as_str(), epoch_text.as_str());
                    assert(self.config().aggr_by == Some(AggrType::Epoch));
                    r
                },
                None => {
                    assert(self.config().aggr_by != Some(AggrType::Epoch));
                    compose_key(p.as_str(), address.as_str())
                },
            },
            None => compose_key(DEFAULT_PREFIX, address.as_str()),
        }
    }

    fn collect_seen(&self, ctx: &BlockContext, tx: &Tx) -> (r: Result<Vec<String>, ReduceError>)
        requires
            self.passes(tx),
        ensures
            r is Err <==> self.tx_fails(ctx, tx),
            r matches Ok(v) ==> texts(v@) == self.tx_seen(ctx, tx),
    {
        let mut seen: Vec<String> = Vec::new();
        let mut k: usize = 0;
        while k < tx.consumes.len()
            invariant
                k <= tx.consumes@.len(),
                self.passes(tx),
                forall|j: int| 0 <= j < k ==> find_index(ctx, &#[trigger] tx.consumes@[j]) is Some,
                texts(seen@) == self.seen_inputs(ctx, tx.consumes@, k as int),
            decreases tx.consumes@.len() - k,
        {
            match self.process_inbound_txo(ctx, &mut seen, &tx.consumes[k]) {
                Ok(()) => {},
                Err(e) => {
                    assert(find_index(ctx, &tx.consumes@[k as int]) is None);
                    return Err(e);
                },
            }
            k = k + 1;
        }
        assert(!self.tx_fails(ctx, tx));
        let ghost start = texts(seen@);
        let mut j: usize = 0;
        while j < tx.produces.len()
            invariant
                j <= tx.produces@.len(),
                texts(seen@) == self.seen_outputs(start, tx.produces@, j as int),
            decreases tx.produces@.len() - j,
        {
            self.process_outbound_txo(&mut seen, &tx.produces[j]);
            j = j + 1;
        }
        Ok(seen)
    }

    fn process_tx(&self, ctx: &BlockContext, tx: &Tx, epoch_text: &String, epoch_no: u64, output: &mut Vec<CRDTCommand>) -> (r: Result<(), ReduceError>)
        requires
            epoch_text@ == decimal_of(epoch_no as nat),
        ensures
            r is Err <==> self.tx_fails(ctx, tx),
            r is Ok ==> cmds_view(final(output)@) == cmds_view(old(output)@) + self.tx_cmds(ctx, tx, epoch_no),
    {
        let pass = match &self.config.filter {
            Some(p) => eval(p, tx),
            None => true,
        };
        if !pass {
            assert(cmds_view(output@) =~= cmds_view(output@) + Seq::<Cmd>::empty());
            return Ok(());
        }
        let seen = match self.collect_seen(ctx, tx) {
            Ok(v) => v,
            Err(e) => return Err(e),
        };
        let tx_len = tx.encoded_len;
        if tx_len == 0 {
            assert(cmds_view(output@) =~= cmds_view(output@) + Seq::<Cmd>::empty());
            return Ok(());
        }
        let len_text = u64_to_decimal(tx_len as u64);
        let ghost want = self.tx_cmds(ctx, tx, epoch_no);
        let mut i: usize = 0;
        while i < seen.len()
            invariant
                tx_len == tx.encoded_len,
                tx_len != 0,
                self.passes(tx),
                len_text@ == decimal_of(tx_len as nat),
                epoch_text@ == decimal_of(epoch_no as nat),
                i <= seen@.len(),
                texts(seen@) == self.tx_seen(ctx, tx),
                want == self.tx_cmds(ctx, tx, epoch_no),
                cmds_view(output@) == cmds_view(old(output)@) + want.take(i as int),
            decreases seen@.len() - i,
        {
            let key = self.config_key(&seen[i], epoch_text, epoch_no);
            let c = match self.config.projection {
                Projection::Individual => CRDTCommand::GrowOnlySetAdd(key, len_text.clone()),
                Projection::Total => CRDTCommand::PNCounter(key, tx_len as i64),
            };
            proof {
                lemma_cmds_view_push(output@, c);
                assert(texts(seen@)[i as int] == seen@[i as int]@);
            }
            output.push(c);
            i = i + 1;
            assert(want.take(i as int) =~= want.take(i - 1).push(c@));
            assert(cmds_view(output@) =~= cmds_view(old(output)@) + want.take(i as int));
        }
        assert(want.take(i as int) =~= want);
        Ok(())
    }

    /// Appends, per transaction in order, the size commands of its distinct
    /// script addresses; fails exactly when a spent output of some
    /// transaction is missing from the context.
    pub fn reduce_block(&self, block: &Block, ctx: &BlockContext, output: &mut Vec<CRDTCommand>) -> (r: Result<(), ReduceError>)
        ensures
            r is Err <==> self.block_fails(ctx, block),
            r is Ok ==> cmds_view(final(output)@) == cmds_view(old(output)@) + self.block_cmds(ctx, block),
    {
        let epoch_no = block.epoch;
        let epoch_text = u64_to_decimal(epoch_no);
        let mut i: usize = 0;
        while i < block.txs.len()
            invariant
                epoch_no == block.epoch,
                epoch_text@ == decimal_of(epoch_no as nat),
                i <= block.txs@.len(),
                forall|a: int| 0 <= a < i ==> !self.tx_fails(ctx, &#[trigger] block.txs@[a]),
                cmds_view(output@) == cmds_view(old(output)@) + self.txs_cmds(ctx, block.txs@, i as int, epoch_no),
            decreases block.txs@.len() - i,
        {
            match self.process_tx(ctx, &block.txs[i], &epoch_text, epoch_no, output) {
                Ok(()) => {},
                Err(e) => {
                    assert(self.tx_fails(ctx, &block.txs@[i as int]));
                    return Err(e);
                },
            }
            i = i + 1;
            assert(cmds_view(output@) =~= cmds_view(old(output)@) + self.txs_cmds(ctx, block.txs@, i as int, epoch_no));
        }
        Ok(())
    }
}

} // verus!
