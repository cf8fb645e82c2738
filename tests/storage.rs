use scrolls::intersect::{intersect_request, IntersectConfig, IntersectError, IntersectRequest, PointArg};
use scrolls::model::{CRDTCommand, Point, Value};
use scrolls::mongo::{parse_cursor, point_to_cursor, store_update, value_to_bson, Config, StoreUpdate, UpdateOp, Worker};
use scrolls::queue::BoundedQueue;

fn config(cursor_key: Option<&str>) -> Config {
    Config {
        connection_string: "mongodb://localhost".to_string(),
        database_name: "db".to_string(),
        collection_name: "c".to_string(),
        cursor_key: cursor_key.map(|k| k.to_string()),
    }
}

fn s(x: &str) -> String {
    x.to_string()
}

#[test]
fn cursor_key_default_and_configured() {
    assert_eq!(config(None).cursor_key(), "_cursor");
    assert_eq!(config(Some("mine")).cursor_key(), "mine");
}

#[test]
fn cursor_text_round_trip() {
    let p = Point { slot: 1000, hash: vec![0xab, 0xcd] };
    assert_eq!(point_to_cursor(&p), "1000,abcd");
    assert_eq!(parse_cursor("1000,abcd"), Some(p));
    assert_eq!(parse_cursor("0012,ABcd"), Some(Point { slot: 12, hash: vec![0xab, 0xcd] }));
    assert_eq!(parse_cursor("18446744073709551615,"), Some(Point { slot: u64::MAX, hash: vec![] }));
}

#[test]
fn cursor_text_rejects_malformed() {
    assert_eq!(parse_cursor(""), None);
    assert_eq!(parse_cursor("1000"), None);
    assert_eq!(parse_cursor(",abcd"), None);
    assert_eq!(parse_cursor("10a0,abcd"), None);
    assert_eq!(parse_cursor("1000,abc"), None);
    assert_eq!(parse_cursor("1000,zz"), None);
    assert_eq!(parse_cursor("18446744073709551616,00"), None);
}

#[test]
fn values_render_as_text() {
    assert_eq!(value_to_bson(&Value::String(s("x"))), "x");
    assert_eq!(value_to_bson(&Value::BigInt(-42)), "-42");
    assert_eq!(value_to_bson(&Value::Cbor(vec![0x0f, 0xa0])), "0fa0");
}

#[test]
fn updates_per_command() {
    let c = config(None);
    let up = |id: &str, op: UpdateOp| Some(StoreUpdate { id: s(id), op, upsert: true });
    assert_eq!(store_update(&c, &CRDTCommand::BlockStarting(Point { slot: 1, hash: vec![] })), None);
    assert_eq!(
        store_update(&c, &CRDTCommand::GrowOnlySetAdd(s("k"), s("v"))),
        up("k", UpdateOp::AddToSet(s("values"), s("v")))
    );
    assert_eq!(
        store_update(&c, &CRDTCommand::TwoPhaseSetRemove(s("k"), s("v"))),
        up("k.ts", UpdateOp::AddToSet(s("tombstones"), s("v")))
    );
    assert_eq!(
        store_update(&c, &CRDTCommand::SetRemove(s("k"), s("v"))),
        Some(StoreUpdate { id: s("k"), op: UpdateOp::Pull(s("values"), s("v")), upsert: false })
    );
    assert_eq!(
        store_update(&c, &CRDTCommand::LastWriteWins(s("k"), Value::BigInt(5), 9)),
        up("k", UpdateOp::SetTimestamped(s("5"), 9))
    );
    assert_eq!(
        store_update(&c, &CRDTCommand::SortedSetRemove(s("k"), s("m"), -3)),
        up("k", UpdateOp::Inc(s("scores.m"), -3))
    );
    assert_eq!(
        store_update(&c, &CRDTCommand::AnyWriteWins(s("k"), Value::Cbor(vec![1]))),
        up("k", UpdateOp::SetField(s("value"), s("01")))
    );
    assert_eq!(
        store_update(&c, &CRDTCommand::PNCounter(s("k"), -5)),
        up("k", UpdateOp::Inc(s("counter"), -5))
    );
    assert_eq!(
        store_update(&c, &CRDTCommand::BlockFinished(Point { slot: 1000, hash: vec![0xaa] })),
        up("_cursor", UpdateOp::SetField(s("point"), s("1000,aa")))
    );
}

#[test]
fn worker_counts_operations() {
    let mut w = Worker::new(config(Some("cur")));
    assert_eq!(w.metrics(), 0);
    let u = w.work(&CRDTCommand::BlockFinished(Point { slot: 7, hash: vec![] }));
    assert_eq!(u, Some(StoreUpdate { id: s("cur"), op: UpdateOp::SetField(s("point"), s("7,")), upsert: true }));
    w.work(&CRDTCommand::BlockStarting(Point { slot: 8, hash: vec![] }));
    assert_eq!(w.metrics(), 2);
}

#[test]
fn resume_from_cursor() {
    let h = vec![0x5a; 32];
    let cursor = Point { slot: 1000, hash: h.clone() };
    let r = intersect_request(&IntersectConfig::Origin, Some(cursor)).unwrap();
    assert_eq!(r, IntersectRequest::FindIntersect(vec![Point { slot: 1000, hash: h }]));
}

#[test]
fn intersect_from_config() {
    assert_eq!(intersect_request(&IntersectConfig::Origin, None), Ok(IntersectRequest::Origin));
    assert_eq!(intersect_request(&IntersectConfig::Tip, None), Ok(IntersectRequest::Tip));
    let a = PointArg { slot: 3, hash_hex: s("0a0b") };
    let b = PointArg { slot: 9, hash_hex: s("ff") };
    assert_eq!(
        intersect_request(&IntersectConfig::Point(a.clone()), None),
        Ok(IntersectRequest::FindIntersect(vec![Point { slot: 3, hash: vec![0x0a, 0x0b] }]))
    );
    assert_eq!(
        intersect_request(&IntersectConfig::Fallbacks(vec![a, b]), None),
        Ok(IntersectRequest::FindIntersect(vec![
            Point { slot: 3, hash: vec![0x0a, 0x0b] },
            Point { slot: 9, hash: vec![0xff] },
        ]))
    );
    let bad = PointArg { slot: 1, hash_hex: s("xyz") };
    assert_eq!(intersect_request(&IntersectConfig::Point(bad), None), Err(IntersectError::InvalidPointHash));
}

#[test]
fn queue_respects_bound_and_two_phase_receipt() {
    let mut q: BoundedQueue<u32> = BoundedQueue::new(2);
    assert_eq!(q.send(1), Ok(()));
    assert_eq!(q.send(2), Ok(()));
    assert!(q.is_full());
    assert_eq!(q.send(3), Err(3));
    assert_eq!(q.len(), 2);
    assert_eq!(q.recv(), Some(&1));
    assert_eq!(q.recv(), Some(&1));
    assert_eq!(q.commit(), Some(1));
    assert_eq!(q.recv(), Some(&2));
    assert_eq!(q.commit(), Some(2));
    assert_eq!(q.commit(), None);
    assert_eq!(q.recv(), None);
}

#[test]
fn queue_of_zero_bound_refuses_everything() {
    let mut q: BoundedQueue<u32> = BoundedQueue::new(0);
    assert_eq!(q.send(1), Err(1));
    assert_eq!(q.len(), 0);
}
