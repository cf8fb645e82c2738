//! The reduce stage: every block is framed by `BlockStarting` and
//! `BlockFinished` around the commands of each configured reducer, in
//! registration order.
use vstd::prelude::*;

use crate::address_by_asset;
use crate::model::{
    cmds_view, lemma_cmds_view_push, Block, BlockContext, CRDTCommand, Cmd, Point, PointModel,
    ReduceError,
};
use crate::supply_by_asset;
use crate::transaction_size_by_script;

verus! {

/// A configured reducer.
pub enum Reducer {
    AddressByAsset(address_by_asset::Reducer),
    SupplyByAsset(supply_by_asset::Reducer),
    TransactionSizeByScript(transaction_size_by_script::Reducer),
}

impl Reducer {
    pub open spec fn fails(&self, b: &Block, ctx: &BlockContext) -> bool {
        match self {
            Reducer::AddressByAsset(r) => r.block_fails(b),
            Reducer::SupplyByAsset(_) => false,
            Reducer::TransactionSizeByScript(r) => r.block_fails(ctx, b),
        }
    }

    pub open spec fn cmds(&self, b: &Block, ctx: &BlockContext) -> Seq<Cmd> {
        match self {
            Reducer::AddressByAsset(r) => r.block_cmds(b),
            Reducer::SupplyByAsset(r) => r.block_cmds(b),
            Reducer::TransactionSizeByScript(r) => r.block_cmds(ctx, b),
        }
    }

    /// Appends this reducer's commands for the block.
    pub fn reduce_block(&self, block: &Block, ctx: &BlockContext, output: &mut Vec<CRDTCommand>) -> (r: Result<(), ReduceError>)
        ensures
            r is Err <==> self.fails(block, ctx),
            r is Ok ==> cmds_view(final(output)@) == cmds_view(old(output)@) + self.cmds(block, ctx),
    {
        match self {
            Reducer::AddressByAsset(r) => r.reduce_block(block, output),
            Reducer::SupplyByAsset(r) => {
                r.reduce_block(block, output);
                Ok(())
            },
            Reducer::TransactionSizeByScript(r) => r.reduce_block(block, ctx, output),
        }
    }
}

/// An event from the source stage.
pub enum ChainEvent {
    RollForward(Block, BlockContext),
    RollBack(Point),
}

/// Why the stage stopped on an event.
#[derive(Debug, Clone, Copy, PartialEq, Eq)]
pub enum StageError {
    /// A reducer met a data-integrity failure.
    Reduce(ReduceError),
    /// A block did not advance the slot past the last one.
    OutOfOrder,
}

pub open spec fn block_point(b: &Block) -> PointModel {
    PointModel { slot: b.slot, hash: b.hash@ }
}

/// The commands of the first `n` reducers, in order.
pub open spec fn reducers_cmds(rs: Seq<Reducer>, n: int, b: &Block, ctx: &BlockContext) -> Seq<Cmd>
    decreases n,
{
    if n <= 0 {
        Seq::empty()
    } else {
        reducers_cmds(rs, n - 1, b, ctx) + rs[n - 1].cmds(b, ctx)
    }
}

/// Framing markers.
pub open spec fn is_frame(c: Cmd) -> bool {
    c is BlockStarting || c is BlockFinished
}

/// A sequence that holds no framing marker.
pub open spec fn frame_free(s: Seq<Cmd>) -> bool {
    forall|i: int| 0 <= i < s.len() ==> !is_frame(#[trigger] s[i])
}

pub struct ReduceStage {
    reducers: Vec<Reducer>,
    last_slot: Option<u64>,
}

impl ReduceStage {
    pub closed spec fn reducers_spec(&self) -> Seq<Reducer> {
        self.reducers@
    }

    /// The slot of the last block framed, or of the last rollback target.
    pub closed spec fn last(&self) -> Option<u64> {
        self.last_slot
    }

    pub fn new(reducers: Vec<Reducer>) -> (r: ReduceStage)
        ensures
            r.reducers_spec() == reducers@,
            r.last() is None,
    {
        ReduceStage { reducers, last_slot: None }
    }

    /// The commands the stage emits for a block.
    pub open spec fn block_frame(&self, b: &Block, ctx: &BlockContext) -> Seq<Cmd> {
        seq![Cmd::BlockStarting(block_point(b))] + reducers_cmds(
            self.reducers_spec(),
            self.reducers_spec().len() as int,
            b,
            ctx,
        ) + seq![Cmd::BlockFinished(block_point(b))]
    }

    pub open spec fn out_of_order(&self, b: &Block) -> bool {
        self.last() matches Some(l) && b.slot <= l
    }

    pub open spec fn reducers_fail(&self, b: &Block, ctx: &BlockContext) -> bool {
        exists|k: int| 0 <= k < self.reducers_spec().len() && (#[trigger] self.reducers_spec()[k]).fails(b, ctx)
    }

    /// Handles one event. A block is framed and reduced by every reducer in
    /// order; it must come after the last one. A rollback to `p` emits
    /// `BlockStarting(p)` then `BlockFinished(p)`, so that the cursor is
    /// rewritten to `p`.
    pub fn on_event(&mut self, event: &ChainEvent, output: &mut Vec<CRDTCommand>) -> (r: Result<(), StageError>)
        ensures
            final(self).reducers_spec() == old(self).reducers_spec(),
            match event {
                ChainEvent::RollForward(b, ctx) => {
                    &&& (r matches Err(StageError::OutOfOrder)) <==> old(self).out_of_order(b)
                    &&& (r matches Err(StageError::Reduce(_))) <==> (!old(self).out_of_order(b)
                        && old(self).reducers_fail(b, ctx))
                    &&& r is Ok ==> {
                        &&& cmds_view(final(output)@) == cmds_view(old(output)@) + old(self).block_frame(b, ctx)
                        &&& final(self).last() == Some(b.slot)
                    }
                    &&& r is Err ==> final(self).last() == old(self).last()
                },
                ChainEvent::RollBack(p) => {
                    &&& r is Ok
                    &&& cmds_view(final(output)@) == cmds_view(old(output)@) + seq![
                        Cmd::BlockStarting(p@),
                        Cmd::BlockFinished(p@),
                    ]
                    &&& final(self).last() == Some(p.slot)
                },
            },
    {
        match event {
            ChainEvent::RollBack(p) => {
                let c1 = CRDTCommand::BlockStarting(Point { slot: p.slot, hash: p.hash.clone() });
                let c2 = CRDTCommand::BlockFinished(Point { slot: p.slot, hash: p.hash.clone() });
                proof {
                    lemma_cmds_view_push(output@, c1);
                    lemma_cmds_view_push(output@.push(c1), c2);
                }
                output.push(c1);
                output.push(c2);
                assert(cmds_view(output@) =~= cmds_view(old(output)@) + seq![
                    Cmd::BlockStarting(p@),
                    Cmd::BlockFinished(p@),
                ]);
                self.last_slot = Some(p.slot);
                Ok(())
            },
            ChainEvent::RollForward(b, ctx) => {
                match self.last_slot {
                    Some(l) => if b.slot <= l {
                        return Err(StageError::OutOfOrder);
                    },
                    None => {},
                }
                let start = CRDTCommand::BlockStarting(Point { slot: b.slot, hash: b.hash.clone() });
                proof {
                    lemma_cmds_view_push(output@, start);
                }
                output.push(start);
                let ghost base = cmds_view(output@);
                let mut k: usize = 0;
                while k < self.reducers.len()
                    invariant
                        k <= self.reducers@.len(),
                        *event == ChainEvent::RollForward(*b, *ctx),
                        self.last_slot == old(self).last_slot,
                        self.reducers@ == old(self).reducers@,
                        !old(self).out_of_order(b),
                        base == cmds_view(old(output)@).push(Cmd::BlockStarting(block_point(b))),
                        forall|j: int| 0 <= j < k ==> !(#[trigger] self.reducers@[j]).fails(b, ctx),
                        cmds_view(output@) == base + reducers_cmds(self.reducers@, k as int, b, ctx),
                    decreases self.reducers@.len() - k,
                {
                    match self.reducers[k].reduce_block(b, ctx, output) {
                        Ok(()) => {},
                        Err(e) => {
                            assert(self.reducers_spec()[k as int].fails(b, ctx));
                            return Err(StageError::Reduce(e));
                        },
                    }
                    k = k + 1;
                    assert(cmds_view(output@) =~= base + reducers_cmds(self.reducers@, k as int, b, ctx));
                }
                let finish = CRDTCommand::BlockFinished(Point { slot: b.slot, hash: b.hash.clone() });
                proof {
                    lemma_cmds_view_push(output@, finish);
                }
                output.push(finish);
                assert(cmds_view(output@) =~= cmds_view(old(output)@) + self.block_frame(b, ctx));
                self.last_slot = Some(b.slot);
                Ok(())
            },
        }
    }
}

} // verus!

verus! {

proof fn lemma_frame_free_concat(a: Seq<Cmd>, b: Seq<Cmd>)
    requires
        frame_free(a),
        frame_free(b),
    ensures
        frame_free(a + b),
{
    assert forall|i: int| 0 <= i < (a + b).len() implies !is_frame(#[trigger] (a + b)[i]) by {
        if i < a.len() {
            assert((a + b)[i] == a[i]);
        } else {
            assert((a + b)[i] == b[i - a.len()]);
        }
    };
}

proof fn lemma_supply_txs(r: &supply_by_asset::Reducer, txs: Seq<crate::model::Tx>, n: int)
    ensures
        frame_free(r.txs_cmds(txs, n)),
    decreases n,
{
    if n > 0 {
        lemma_supply_txs(r, txs, n - 1);
        lemma_supply_mints(r, txs[n - 1].mints@, txs[n - 1].mints@.len() as int);
        lemma_frame_free_concat(r.txs_cmds(txs, n - 1), r.mints_cmds(txs[n - 1].mints@, txs[n - 1].mints@.len() as int));
    }
}

proof fn lemma_supply_mints(r: &supply_by_asset::Reducer, ms: Seq<crate::model::PolicyAssets>, n: int)
    ensures
        frame_free(r.mints_cmds(ms, n)),
    decreases n,
{
    if n > 0 {
        lemma_supply_mints(r, ms, n - 1);
        lemma_supply_assets(r, ms[n - 1], ms[n - 1].assets@.len() as int);
        lemma_frame_free_concat(r.mints_cmds(ms, n - 1), r.mint_cmds(ms[n - 1]));
    }
}

proof fn lemma_supply_assets(r: &supply_by_asset::Reducer, m: crate::model::PolicyAssets, n: int)
    ensures
        frame_free(r.assets_cmds(m, n)),
    decreases n,
{
    if n > 0 {
        lemma_supply_assets(r, m, n - 1);
        let prev = r.assets_cmds(m, n - 1);
        let last = r.assets_cmds(m, n).last();
        assert(r.assets_cmds(m, n) =~= prev + seq![last]);
        lemma_frame_free_concat(prev, seq![last]);
    }
}

proof fn lemma_address_txs(r: &address_by_asset::Reducer, txs: Seq<crate::model::Tx>, n: int)
    ensures
        frame_free(r.txs_cmds(txs, n)),
    decreases n,
{
    if n > 0 {
        lemma_address_txs(r, txs, n - 1);
        lemma_address_outputs(r, txs[n - 1].produces@, txs[n - 1].produces@.len() as int);
        lemma_frame_free_concat(
            r.txs_cmds(txs, n - 1),
            r.outputs_cmds(txs[n - 1].produces@, txs[n - 1].produces@.len() as int),
        );
    }
}

proof fn lemma_address_outputs(r: &address_by_asset::Reducer, outs: Seq<crate::model::TxOutput>, n: int)
    ensures
        frame_free(r.outputs_cmds(outs, n)),
    decreases n,
{
    if n > 0 {
        lemma_address_outputs(r, outs, n - 1);
        lemma_frame_free_concat(r.outputs_cmds(outs, n - 1), r.output_cmds(&outs[n - 1]));
    }
}

proof fn lemma_size_txs(r: &transaction_size_by_script::Reducer, ctx: &BlockContext, txs: Seq<crate::model::Tx>, n: int, e: u64)
    ensures
        frame_free(r.txs_cmds(ctx, txs, n, e)),
    decreases n,
{
    if n > 0 {
        lemma_size_txs(r, ctx, txs, n - 1, e);
        lemma_frame_free_concat(r.txs_cmds(ctx, txs, n - 1, e), r.tx_cmds(ctx, &txs[n - 1], e));
    }
}

proof fn lemma_reducer_frame_free(r: &Reducer, b: &Block, ctx: &BlockContext)
    ensures
        frame_free(r.cmds(b, ctx)),
{
    match r {
        Reducer::AddressByAsset(a) => lemma_address_txs(a, b.txs@, b.txs@.len() as int),
        Reducer::SupplyByAsset(s) => lemma_supply_txs(s, b.txs@, b.txs@.len() as int),
        Reducer::TransactionSizeByScript(t) => lemma_size_txs(t, ctx, b.txs@, b.txs@.len() as int, b.epoch),
    }
}

proof fn lemma_reducers_frame_free(rs: Seq<Reducer>, n: int, b: &Block, ctx: &BlockContext)
    ensures
        frame_free(reducers_cmds(rs, n, b, ctx)),
    decreases n,
{
    if n > 0 {
        lemma_reducers_frame_free(rs, n - 1, b, ctx);
        lemma_reducer_frame_free(&rs[n - 1], b, ctx);
        lemma_frame_free_concat(reducers_cmds(rs, n - 1, b, ctx), rs[n - 1].cmds(b, ctx));
    }
}

/// Block framing: the commands the stage emits for a block open with
/// `BlockStarting(p)`, close with `BlockFinished(p)` for the same point `p`,
/// and hold no other framing marker in between.
pub proof fn lemma_block_framing(stage: &ReduceStage, b: &Block, ctx: &BlockContext)
    ensures
        ({
            let f = stage.block_frame(b, ctx);
            &&& f.len() >= 2
            &&& f[0] == Cmd::BlockStarting(block_point(b))
            &&& f[f.len() - 1] == Cmd::BlockFinished(block_point(b))
            &&& forall|i: int| 0 < i < f.len() - 1 ==> !is_frame(#[trigger] f[i])
        }),
{
    let body = reducers_cmds(stage.reducers_spec(), stage.reducers_spec().len() as int, b, ctx);
    lemma_reducers_frame_free(stage.reducers_spec(), stage.reducers_spec().len() as int, b, ctx);
    let f = stage.block_frame(b, ctx);
    assert forall|i: int| 0 < i < f.len() - 1 implies !is_frame(#[trigger] f[i]) by {
        assert(f[i] == body[i - 1]);
    };
}

/// Reducer purity: two runs of a reducer over the same block and context
/// that both succeed append the same commands.
pub proof fn lemma_reducer_purity(r: &Reducer, b: &Block, ctx: &BlockContext, out1: Seq<Cmd>, out2: Seq<Cmd>)
    requires
        out1 == r.cmds(b, ctx),
        out2 == r.cmds(b, ctx),
    ensures
        out1 == out2,
        out1.to_multiset() == out2.to_multiset(),
{
}

} // verus!
