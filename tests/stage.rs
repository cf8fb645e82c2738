use scrolls::model::{Asset, Block, BlockContext, CRDTCommand, Point, PolicyAssets, Tx};
use scrolls::pipeline::{ChainEvent, ReduceStage, Reducer, StageError};
use scrolls::supply_by_asset;

fn supply() -> Reducer {
    Reducer::SupplyByAsset(supply_by_asset::Config { key_prefix: Some("s".to_string()), policy_ids_hex: None }.plugin().unwrap())
}

fn block(slot: u64) -> Block {
    let mint = PolicyAssets { policy: vec![0x01; 28], assets: vec![Asset { name: vec![0x02], qty: Some(3) }] };
    Block {
        slot,
        hash: vec![slot as u8],
        epoch: 0,
        txs: vec![Tx { encoded_len: 10, consumes: vec![], produces: vec![], mints: vec![mint] }],
    }
}

#[test]
fn block_is_framed_in_reducer_order() {
    let mut stage = ReduceStage::new(vec![supply(), supply()]);
    let mut out = Vec::new();
    let ev = ChainEvent::RollForward(block(10), BlockContext { utxos: vec![] });
    assert_eq!(stage.on_event(&ev, &mut out), Ok(()));
    let key = format!("s.{}02", "01".repeat(28));
    assert_eq!(
        out,
        vec![
            CRDTCommand::BlockStarting(Point { slot: 10, hash: vec![10] }),
            CRDTCommand::PNCounter(key.clone(), 3),
            CRDTCommand::PNCounter(key, 3),
            CRDTCommand::BlockFinished(Point { slot: 10, hash: vec![10] }),
        ]
    );
}

#[test]
fn out_of_order_block_is_refused() {
    let mut stage = ReduceStage::new(vec![supply()]);
    let mut out = Vec::new();
    let ctx = BlockContext { utxos: vec![] };
    assert_eq!(stage.on_event(&ChainEvent::RollForward(block(10), ctx.clone()), &mut out), Ok(()));
    let before = out.len();
    assert_eq!(stage.on_event(&ChainEvent::RollForward(block(10), ctx.clone()), &mut out), Err(StageError::OutOfOrder));
    assert_eq!(stage.on_event(&ChainEvent::RollForward(block(4), ctx), &mut out), Err(StageError::OutOfOrder));
    assert_eq!(out.len(), before);
}

#[test]
fn rollback_rewrites_cursor_then_resumes() {
    let mut stage = ReduceStage::new(vec![]);
    let mut out = Vec::new();
    let ctx = BlockContext { utxos: vec![] };
    stage.on_event(&ChainEvent::RollForward(block(10), ctx.clone()), &mut out).unwrap();
    out.clear();
    let p = Point { slot: 5, hash: vec![5] };
    assert_eq!(stage.on_event(&ChainEvent::RollBack(p.clone()), &mut out), Ok(()));
    assert_eq!(out, vec![CRDTCommand::BlockStarting(p.clone()), CRDTCommand::BlockFinished(p)]);
    assert_eq!(stage.on_event(&ChainEvent::RollForward(block(6), ctx), &mut out), Ok(()));
}
