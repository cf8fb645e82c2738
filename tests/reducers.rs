use scrolls::address_by_asset;
use scrolls::filters::{eval, Predicate};
use scrolls::model::{
    Address, Asset, Block, BlockContext, CRDTCommand, OutputRef, PolicyAssets, ReduceError, Tx,
    TxOutput, Value,
};
use scrolls::supply_by_asset;
use scrolls::transaction_size_by_script::{self, AddrType, AggrType, Projection};

fn output(address: Option<Address>, assets: Vec<PolicyAssets>) -> TxOutput {
    TxOutput { address, lovelace: 2_000_000, assets }
}

fn text_address(text: &str) -> Address {
    Address { bytes: vec![0x01, 0x02], text: text.to_string(), has_script: false }
}

fn script_address(bytes: Vec<u8>, text: &str) -> Address {
    Address { bytes, text: text.to_string(), has_script: true }
}

fn tx(encoded_len: usize, consumes: Vec<OutputRef>, produces: Vec<TxOutput>, mints: Vec<PolicyAssets>) -> Tx {
    Tx { encoded_len, consumes, produces, mints }
}

fn block(epoch: u64, txs: Vec<Tx>) -> Block {
    Block { slot: 5000, hash: vec![0x11; 32], epoch, txs }
}

fn nft_group(policy: u8, name: &[u8]) -> PolicyAssets {
    PolicyAssets { policy: vec![policy; 28], assets: vec![Asset { name: name.to_vec(), qty: None }] }
}

fn address_reducer(prefix: Option<&str>, ascii: Option<bool>) -> address_by_asset::Reducer {
    address_by_asset::Config {
        key_prefix: prefix.map(|p| p.to_string()),
        filter: None,
        policy_id_hex: "aa".repeat(28),
        convert_to_ascii: ascii,
    }
    .plugin()
}

#[test]
fn address_by_asset_ascii_name() {
    let r = address_reducer(Some("abx"), Some(true));
    let b = block(1, vec![tx(100, vec![], vec![output(Some(text_address("addr1xyz")), vec![nft_group(0xaa, &[0x4e, 0x46, 0x54])])], vec![])]);
    let mut out = Vec::new();
    assert_eq!(r.reduce_block(&b, &mut out), Ok(()));
    assert_eq!(
        out,
        vec![CRDTCommand::AnyWriteWins("abx.NFT".to_string(), Value::String("addr1xyz".to_string()))]
    );
}

#[test]
fn address_by_asset_hex_name_by_default() {
    let r = address_reducer(None, None);
    let b = block(1, vec![tx(100, vec![], vec![output(Some(text_address("addr1q")), vec![nft_group(0xaa, b"NFT")])], vec![])]);
    let mut out = Vec::new();
    assert_eq!(r.reduce_block(&b, &mut out), Ok(()));
    assert_eq!(
        out,
        vec![CRDTCommand::AnyWriteWins("address_by_asset.4e4654".to_string(), Value::String("addr1q".to_string()))]
    );
}

#[test]
fn address_by_asset_non_ascii_falls_back_to_hex() {
    let r = address_reducer(Some("abx"), Some(true));
    let b = block(1, vec![tx(100, vec![], vec![output(Some(text_address("addr1q")), vec![nft_group(0xaa, &[0xff, 0x41])])], vec![])]);
    let mut out = Vec::new();
    assert_eq!(r.reduce_block(&b, &mut out), Ok(()));
    assert_eq!(
        out,
        vec![CRDTCommand::AnyWriteWins("abx.ff41".to_string(), Value::String("addr1q".to_string()))]
    );
}

#[test]
fn address_by_asset_other_policy_emits_nothing() {
    let r = address_reducer(Some("abx"), Some(true));
    let b = block(1, vec![tx(100, vec![], vec![output(None, vec![nft_group(0xbb, b"NFT")])], vec![])]);
    let mut out = Vec::new();
    assert_eq!(r.reduce_block(&b, &mut out), Ok(()));
    assert!(out.is_empty());
}

#[test]
fn address_by_asset_missing_address_fails() {
    let r = address_reducer(Some("abx"), Some(true));
    let b = block(1, vec![tx(100, vec![], vec![output(None, vec![nft_group(0xaa, b"NFT")])], vec![])]);
    let mut out = Vec::new();
    assert_eq!(r.reduce_block(&b, &mut out), Err(ReduceError::MissingAddress));
}

#[test]
fn supply_by_asset_burn() {
    let r = supply_by_asset::Config { key_prefix: None, policy_ids_hex: Some(vec!["bb".repeat(28)]) }
        .plugin()
        .unwrap();
    let mint = PolicyAssets { policy: vec![0xbb; 28], assets: vec![Asset { name: vec![0x01], qty: Some(-5) }] };
    let b = block(1, vec![tx(100, vec![], vec![], vec![mint])]);
    let mut out = Vec::new();
    r.reduce_block(&b, &mut out);
    assert_eq!(out, vec![CRDTCommand::PNCounter(format!("supply_by_asset.{}01", "bb".repeat(28)), -5)]);
}

#[test]
fn supply_by_asset_whitelist_filters() {
    let r = supply_by_asset::Config {
        key_prefix: Some("sup".to_string()),
        policy_ids_hex: Some(vec!["BB".repeat(28)]),
    }
    .plugin()
    .unwrap();
    let accepted = PolicyAssets { policy: vec![0xbb; 28], assets: vec![Asset { name: vec![0x0a], qty: Some(7) }] };
    let rejected = PolicyAssets { policy: vec![0xcc; 28], assets: vec![Asset { name: vec![0x0a], qty: Some(9) }] };
    let b = block(1, vec![tx(100, vec![], vec![], vec![rejected, accepted])]);
    let mut out = Vec::new();
    r.reduce_block(&b, &mut out);
    assert_eq!(out, vec![CRDTCommand::PNCounter(format!("sup.{}0a", "bb".repeat(28)), 7)]);
}

#[test]
fn supply_by_asset_no_whitelist_accepts_all_and_defaults_quantity() {
    let r = supply_by_asset::Config { key_prefix: None, policy_ids_hex: None }.plugin().unwrap();
    let mint = PolicyAssets { policy: vec![0x01; 28], assets: vec![Asset { name: vec![], qty: None }] };
    let b = block(1, vec![tx(100, vec![], vec![], vec![mint])]);
    let mut out = Vec::new();
    r.reduce_block(&b, &mut out);
    assert_eq!(out, vec![CRDTCommand::PNCounter(format!("supply_by_asset.{}", "01".repeat(28)), 0)]);
}

#[test]
fn supply_by_asset_invalid_policy_id() {
    let r = supply_by_asset::Config {
        key_prefix: None,
        policy_ids_hex: Some(vec!["bb".repeat(28), "zz".repeat(28)]),
    }
    .plugin();
    assert!(matches!(r, Err(supply_by_asset::ConfigError::InvalidPolicyId(1))));
    let short = supply_by_asset::Config { key_prefix: None, policy_ids_hex: Some(vec!["bb".to_string()]) }.plugin();
    assert!(matches!(short, Err(supply_by_asset::ConfigError::InvalidPolicyId(0))));
}

fn size_reducer(projection: Projection, aggr: Option<AggrType>, addr: Option<AddrType>, prefix: Option<&str>) -> transaction_size_by_script::Reducer {
    filtered_size_reducer(projection, aggr, addr, prefix, None)
}

fn filtered_size_reducer(
    projection: Projection,
    aggr: Option<AggrType>,
    addr: Option<AddrType>,
    prefix: Option<&str>,
    filter: Option<Predicate>,
) -> transaction_size_by_script::Reducer {
    transaction_size_by_script::Config {
        key_prefix: prefix.map(|p| p.to_string()),
        filter,
        aggr_by: aggr,
        key_addr_type: addr,
        projection,
    }
    .plugin()
}

fn script_input_ctx() -> (OutputRef, BlockContext) {
    let r = OutputRef { tx_hash: vec![0x33; 32], index: 0 };
    let spent = output(Some(script_address(vec![0xde, 0xad, 0xbe, 0xef], "addr1in")), vec![]);
    (r.clone(), BlockContext { utxos: vec![(r, spent)] })
}

#[test]
fn transaction_size_epoch_individual() {
    let red = size_reducer(Projection::Individual, Some(AggrType::Epoch), Some(AddrType::Hex), Some("txs"));
    let (r, ctx) = script_input_ctx();
    let produced = output(Some(script_address(vec![0xfe, 0xed, 0xfa, 0xce], "addr1out")), vec![]);
    let b = block(42, vec![tx(317, vec![r], vec![produced], vec![])]);
    let mut out = Vec::new();
    assert_eq!(red.reduce_block(&b, &ctx, &mut out), Ok(()));
    assert_eq!(
        out,
        vec![
            CRDTCommand::GrowOnlySetAdd("txs.deadbeef.42".to_string(), "317".to_string()),
            CRDTCommand::GrowOnlySetAdd("txs.feedface.42".to_string(), "317".to_string()),
        ]
    );
}

#[test]
fn transaction_size_total_counts_each_address_once() {
    let red = size_reducer(Projection::Total, None, None, None);
    let (r, ctx) = script_input_ctx();
    let again = output(Some(script_address(vec![0xde, 0xad, 0xbe, 0xef], "addr1in")), vec![]);
    let plain = output(Some(text_address("addr1plain")), vec![]);
    let b = block(42, vec![tx(200, vec![r], vec![again.clone(), again, plain], vec![])]);
    let mut out = Vec::new();
    assert_eq!(red.reduce_block(&b, &ctx, &mut out), Ok(()));
    assert_eq!(out, vec![CRDTCommand::PNCounter("trx_size_by_script.addr1in".to_string(), 200)]);
}

#[test]
fn transaction_size_epoch_without_prefix_omits_epoch() {
    let red = size_reducer(Projection::Total, Some(AggrType::Epoch), None, None);
    let produced = output(Some(script_address(vec![0x01], "addr1s")), vec![]);
    let b = block(42, vec![tx(10, vec![], vec![produced], vec![])]);
    let mut out = Vec::new();
    assert_eq!(red.reduce_block(&b, &BlockContext { utxos: vec![] }, &mut out), Ok(()));
    assert_eq!(out, vec![CRDTCommand::PNCounter("trx_size_by_script.addr1s".to_string(), 10)]);
}

#[test]
fn transaction_size_skips_empty_encoding_only() {
    let red = size_reducer(Projection::Total, None, None, Some("p"));
    let produced = output(Some(script_address(vec![0x01], "addr1s")), vec![]);
    let b = block(1, vec![tx(0, vec![], vec![produced.clone()], vec![]), tx(5, vec![], vec![produced], vec![])]);
    let mut out = Vec::new();
    assert_eq!(red.reduce_block(&b, &BlockContext { utxos: vec![] }, &mut out), Ok(()));
    assert_eq!(out, vec![CRDTCommand::PNCounter("p.addr1s".to_string(), 5)]);
}

#[test]
fn transaction_size_missing_utxo_fails() {
    let red = size_reducer(Projection::Total, None, None, None);
    let missing = OutputRef { tx_hash: vec![0x44; 32], index: 3 };
    let b = block(1, vec![tx(5, vec![missing], vec![], vec![])]);
    let mut out = Vec::new();
    assert_eq!(red.reduce_block(&b, &BlockContext { utxos: vec![] }, &mut out), Err(ReduceError::MissingUtxo));
}

#[test]
fn reducer_runs_are_identical() {
    let red = size_reducer(Projection::Individual, Some(AggrType::Epoch), Some(AddrType::Hex), Some("txs"));
    let (r, ctx) = script_input_ctx();
    let b = block(7, vec![tx(90, vec![r], vec![], vec![])]);
    let mut first = Vec::new();
    let mut second = Vec::new();
    red.reduce_block(&b, &ctx, &mut first).unwrap();
    red.reduce_block(&b, &ctx, &mut second).unwrap();
    assert_eq!(first, second);
    assert_eq!(first.len(), 1);
}

#[test]
fn transaction_size_filter_skips_unmatched() {
    let only = Predicate::AnyAddress(vec!["addr1wanted".to_string()]);
    let red = filtered_size_reducer(Projection::Total, None, None, Some("p"), Some(only));
    let missing = OutputRef { tx_hash: vec![0x44; 32], index: 3 };
    let skipped = tx(9, vec![missing], vec![output(Some(script_address(vec![0x01], "addr1s")), vec![])], vec![]);
    let kept = tx(4, vec![], vec![output(Some(script_address(vec![0x02], "addr1wanted")), vec![])], vec![]);
    let b = block(1, vec![skipped, kept]);
    let mut out = Vec::new();
    assert_eq!(red.reduce_block(&b, &BlockContext { utxos: vec![] }, &mut out), Ok(()));
    assert_eq!(out, vec![CRDTCommand::PNCounter("p.addr1wanted".to_string(), 4)]);
}

#[test]
fn predicate_composition() {
    let t = tx(
        10,
        vec![],
        vec![output(Some(text_address("addr1a")), vec![nft_group(0xaa, b"X")])],
        vec![nft_group(0xbb, b"Y")],
    );
    let addr = || Predicate::AnyAddress(vec!["addr1z".to_string(), "addr1a".to_string()]);
    let minted = || Predicate::PolicyId(vec![0xbb; 28]);
    let held = || Predicate::PolicyId(vec![0xaa; 28]);
    let absent = || Predicate::PolicyId(vec![0xcc; 28]);
    assert!(eval(&addr(), &t));
    assert!(eval(&minted(), &t));
    assert!(eval(&held(), &t));
    assert!(!eval(&absent(), &t));
    assert!(!eval(&Predicate::AnyAddress(vec!["addr1z".to_string()]), &t));
    assert!(eval(&Predicate::AllOf(vec![addr(), minted()]), &t));
    assert!(!eval(&Predicate::AllOf(vec![addr(), absent()]), &t));
    assert!(eval(&Predicate::AnyOf(vec![absent(), held()]), &t));
    assert!(!eval(&Predicate::AnyOf(vec![]), &t));
    assert!(eval(&Predicate::AllOf(vec![]), &t));
    assert!(eval(&Predicate::Not(Box::new(absent())), &t));
}

#[test]
fn address_by_asset_filter_skips_unmatched_tx() {
    let r = address_by_asset::Config {
        key_prefix: Some("abx".to_string()),
        filter: Some(Predicate::AnyAddress(vec!["addr1keep".to_string()])),
        policy_id_hex: "aa".repeat(28),
        convert_to_ascii: Some(true),
    }
    .plugin();
    let skipped = tx(100, vec![], vec![output(None, vec![nft_group(0xaa, b"A")])], vec![]);
    let kept = tx(100, vec![], vec![output(Some(text_address("addr1keep")), vec![nft_group(0xaa, b"B")])], vec![]);
    let b = block(1, vec![skipped, kept]);
    let mut out = Vec::new();
    assert_eq!(r.reduce_block(&b, &mut out), Ok(()));
    assert_eq!(
        out,
        vec![CRDTCommand::AnyWriteWins("abx.B".to_string(), Value::String("addr1keep".to_string()))]
    );
}
