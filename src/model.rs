//! Chain data as the reducers read it, and the command algebra the sink applies.
use vstd::prelude::*;

use crate::text::{join2, hex_of, signed_decimal_of};

verus! {

/// A position on the chain.
#[derive(Debug, Clone, PartialEq, Eq)]
pub struct Point {
    pub slot: u64,
    pub hash: Vec<u8>,
}

/// A payload value.
#[derive(Debug, Clone, PartialEq, Eq)]
pub enum Value {
    String(String),
    BigInt(i128),
    Cbor(Vec<u8>),
}

/// One state-mutation primitive.
#[derive(Debug, Clone, PartialEq, Eq)]
pub enum CRDTCommand {
    BlockStarting(Point),
    GrowOnlySetAdd(String, String),
    SetAdd(String, String),
    SetRemove(String, String),
    TwoPhaseSetAdd(String, String),
    TwoPhaseSetRemove(String, String),
    LastWriteWins(String, Value, u64),
    AnyWriteWins(String, Value),
    SortedSetAdd(String, String, i64),
    SortedSetRemove(String, String, i64),
    PNCounter(String, i64),
    BlockFinished(Point),
}

/// Mathematical form of a point.
pub struct PointModel {
    pub slot: u64,
    pub hash: Seq<u8>,
}

/// Mathematical form of a value.
pub enum ValueModel {
    Text(Seq<char>),
    Int(int),
    Bytes(Seq<u8>),
}

/// Mathematical form of a command.
pub enum Cmd {
    BlockStarting(PointModel),
    GrowOnlySetAdd(Seq<char>, Seq<char>),
    SetAdd(Seq<char>, Seq<char>),
    SetRemove(Seq<char>, Seq<char>),
    TwoPhaseSetAdd(Seq<char>, Seq<char>),
    TwoPhaseSetRemove(Seq<char>, Seq<char>),
    LastWriteWins(Seq<char>, ValueModel, u64),
    AnyWriteWins(Seq<char>, ValueModel),
    SortedSetAdd(Seq<char>, Seq<char>, i64),
    SortedSetRemove(Seq<char>, Seq<char>, i64),
    PNCounter(Seq<char>, i64),
    BlockFinished(PointModel),
}

impl View for Point {
    type V = PointModel;

    open spec fn view(&self) -> PointModel {
        PointModel { slot: self.slot, hash: self.hash@ }
    }
}

impl View for Value {
    type V = ValueModel;

    open spec fn view(&self) -> ValueModel {
        match self {
            Value::String(s) => ValueModel::Text(s@),
            Value::BigInt(n) => ValueModel::Int(*n as int),
            Value::Cbor(b) => ValueModel::Bytes(b@),
        }
    }
}

impl View for CRDTCommand {
    type V = Cmd;

    open spec fn view(&self) -> Cmd {
        match self {
            CRDTCommand::BlockStarting(p) => Cmd::BlockStarting(p@),
            CRDTCommand::GrowOnlySetAdd(k, v) => Cmd::GrowOnlySetAdd(k@, v@),
            CRDTCommand::SetAdd(k, v) => Cmd::SetAdd(k@, v@),
            CRDTCommand::SetRemove(k, v) => Cmd::SetRemove(k@, v@),
            CRDTCommand::TwoPhaseSetAdd(k, v) => Cmd::TwoPhaseSetAdd(k@, v@),
            CRDTCommand::TwoPhaseSetRemove(k, v) => Cmd::TwoPhaseSetRemove(k@, v@),
            CRDTCommand::LastWriteWins(k, v, ts) => Cmd::LastWriteWins(k@, v@, *ts),
            CRDTCommand::AnyWriteWins(k, v) => Cmd::AnyWriteWins(k@, v@),
            CRDTCommand::SortedSetAdd(k, m, d) => Cmd::SortedSetAdd(k@, m@, *d),
            CRDTCommand::SortedSetRemove(k, m, d) => Cmd::SortedSetRemove(k@, m@, *d),
            CRDTCommand::PNCounter(k, d) => Cmd::PNCounter(k@, *d),
            CRDTCommand::BlockFinished(p) => Cmd::BlockFinished(p@),
        }
    }
}

/// The commands of a vector, as models.
pub open spec fn cmds_view(s: Seq<CRDTCommand>) -> Seq<Cmd> {
    s.map_values(|c: CRDTCommand| c@)
}

/// Appending one command extends the modelled sequence by its model.
pub proof fn lemma_cmds_view_push(s: Seq<CRDTCommand>, c: CRDTCommand)
    ensures
        cmds_view(s.push(c)) == cmds_view(s).push(c@),
{
    assert(cmds_view(s.push(c)) =~= cmds_view(s).push(c@));
}

/// A key made of a prefix and a discriminator: `prefix.rest`.
pub open spec fn key_of(prefix: Seq<char>, rest: Seq<char>) -> Seq<char> {
    prefix + seq!['.'] + rest
}

/// Composes `prefix.rest`.
pub fn compose_key(prefix: &str, rest: &str) -> (r: String)
    ensures
        r@ == key_of(prefix@, rest@),
{
    proof {
        reveal_strlit(".");
    }
    let head = join2(prefix, ".");
    let r = join2(head.as_str(), rest);
    assert(r@ =~= key_of(prefix@, rest@));
    r
}

/// An address as the reducers read it: its raw bytes, its usual text form
/// (bech32, or base58 for legacy addresses), and whether any part of it is a script.
#[derive(Debug, Clone)]
pub struct Address {
    pub bytes: Vec<u8>,
    pub text: String,
    pub has_script: bool,
}

/// A named asset with an optional signed quantity (present on mint entries).
#[derive(Debug, Clone)]
pub struct Asset {
    pub name: Vec<u8>,
    pub qty: Option<i64>,
}

/// The assets of one policy.
#[derive(Debug, Clone)]
pub struct PolicyAssets {
    pub policy: Vec<u8>,
    pub assets: Vec<Asset>,
}

/// A transaction output.
#[derive(Debug, Clone)]
pub struct TxOutput {
    pub address: Option<Address>,
    pub lovelace: u64,
    pub assets: Vec<PolicyAssets>,
}

/// A reference to an output of an earlier transaction.
#[derive(Debug, Clone)]
pub struct OutputRef {
    pub tx_hash: Vec<u8>,
    pub index: u64,
}

/// A transaction: its encoded length, the outputs it spends, those it
/// produces, and its mint entries.
#[derive(Debug, Clone)]
pub struct Tx {
    pub encoded_len: usize,
    pub consumes: Vec<OutputRef>,
    pub produces: Vec<TxOutput>,
    pub mints: Vec<PolicyAssets>,
}

/// A block with the epoch that its slot falls into.
#[derive(Debug, Clone)]
pub struct Block {
    pub slot: u64,
    pub hash: Vec<u8>,
    pub epoch: u64,
    pub txs: Vec<Tx>,
}

/// The spent outputs that the current block needs, by reference.
#[derive(Debug, Clone)]
pub struct BlockContext {
    pub utxos: Vec<(OutputRef, TxOutput)>,
}

pub open spec fn same_ref(a: &OutputRef, b: &OutputRef) -> bool {
    a.tx_hash@ == b.tx_hash@ && a.index == b.index
}

/// The first entry of the context that matches `r`, if any.
#[verifier::opaque]
pub open spec fn find_index(ctx: &BlockContext, r: &OutputRef) -> Option<int> {
    if exists|i: int| 0 <= i < ctx.utxos@.len() && same_ref(&ctx.utxos@[i].0, r) {
        Some(choose|i: int|
            0 <= i < ctx.utxos@.len() && same_ref(&ctx.utxos@[i].0, r) && forall|j: int|
                0 <= j < i ==> !same_ref(&ctx.utxos@[j].0, r))
    } else {
        None
    }
}

pub(crate) fn bytes_eq(a: &Vec<u8>, b: &Vec<u8>) -> (r: bool)
    ensures
        r == (a@ == b@),
{
    if a.len() != b.len() {
        return false;
    }
    let mut i: usize = 0;
    while i < a.len()
        invariant
            a@.len() == b@.len(),
            i <= a@.len(),
            forall|j: int| 0 <= j < i ==> a@[j] == b@[j],
        decreases a@.len() - i,
    {
        if a[i] != b[i] {
            return false;
        }
        i = i + 1;
    }
    assert(a@ =~= b@);
    true
}

impl BlockContext {
    /// The position of the first entry for `r`.
    pub fn find_utxo(&self, r: &OutputRef) -> (res: Option<usize>)
        ensures
            match res {
                Some(i) => i < self.utxos@.len() && find_index(self, r) == Some(i as int),
                None => find_index(self, r) is None,
            },
    {
        reveal(find_index);
        let mut i: usize = 0;
        while i < self.utxos.len()
            invariant
                i <= self.utxos@.len(),
                forall|j: int| 0 <= j < i ==> !same_ref(&self.utxos@[j].0, r),
            decreases self.utxos@.len() - i,
        {
            let e = &self.utxos[i];
            if bytes_eq(&e.0.tx_hash, &r.tx_hash) && e.0.index == r.index {
                assert(same_ref(&self.utxos@[i as int].0, r));
                reveal(find_index);
                let ghost k = find_index(self, r).unwrap();
                assert(k == i) by {
                    if k < i {
                    } else if k > i {
                    }
                };
                return Some(i);
            }
            i = i + 1;
        }
        reveal(find_index);
        None
    }
}

/// Renders a value as text: strings as they are, integers in decimal,
/// byte strings in lowercase hex.
pub open spec fn value_text(v: ValueModel) -> Seq<char> {
    match v {
        ValueModel::Text(s) => s,
        ValueModel::Int(n) => signed_decimal_of(n),
        ValueModel::Bytes(b) => hex_of(b),
    }
}

} // verus!

verus! {

/// Data-integrity failures met while reducing a block.
#[derive(Debug, Clone, Copy, PartialEq, Eq)]
pub enum ReduceError {
    /// An output bearing matching assets has no address.
    MissingAddress,
    /// A spent output is not in the block context.
    MissingUtxo,
}

} // verus!
