//! The document-store sink: where each command goes, how values and the
//! cursor are written, and how a stored cursor is read back.
use vstd::prelude::*;

use crate::model::{CRDTCommand, Cmd, Point, PointModel, Value, value_text};
use crate::text::{
    decimal_of, digits_value, hex_decode, hex_decoded, hex_encode, hex_of, i128_to_decimal,
    is_digits, is_hex_text, join2, lemma_decimal_round_trip, lemma_digits_value_prefix,
    lemma_hex_round_trip, u64_to_decimal,
};
use vstd::string::StrSliceExecFns;

verus! {

/// The cursor's document id when none is configured.
pub const DEFAULT_CURSOR_KEY: &'static str = "_cursor";

#[derive(Debug, Clone)]
pub struct Config {
    pub connection_string: String,
    pub database_name: String,
    pub collection_name: String,
    pub cursor_key: Option<String>,
}

impl Config {
    pub open spec fn cursor_key_spec(&self) -> Seq<char> {
        match self.cursor_key {
            Some(k) => k@,
            None => DEFAULT_CURSOR_KEY@,
        }
    }

    /// The id of the cursor document.
    pub fn cursor_key(&self) -> (r: &str)
        ensures
            r@ == self.cursor_key_spec(),
    {
        match &self.cursor_key {
            Some(k) => k.as_str(),
            None => DEFAULT_CURSOR_KEY,
        }
    }
}

/// A value as stored: its text rendering.
pub fn value_to_bson(value: &Value) -> (r: String)
    ensures
        r@ == value_text(value@),
{
    match value {
        Value::String(s) => s.clone(),
        Value::BigInt(n) => i128_to_decimal(*n),
        Value::Cbor(b) => hex_encode(b.as_slice()),
    }
}

/// The stored text of a point: `slot,hash` with the hash in lowercase hex.
pub open spec fn cursor_text(p: PointModel) -> Seq<char> {
    decimal_of(p.slot as nat) + seq![','] + hex_of(p.hash)
}

pub fn point_to_cursor(p: &Point) -> (r: String)
    ensures
        r@ == cursor_text(p@),
{
    proof {
        reveal_strlit(",");
    }
    let slot = u64_to_decimal(p.slot);
    let head = join2(slot.as_str(), ",");
    let hash = hex_encode(p.hash.as_slice());
    let r = join2(head.as_str(), hash.as_str());
    assert(r@ =~= cursor_text(p@));
    r
}

/// `s` splits at position `i` into a text of decimal digits, a comma, and
/// an even number of hex digits.
pub open spec fn cursor_split(s: Seq<char>, i: int) -> bool {
    &&& 0 < i < s.len()
    &&& s[i] == ','
    &&& is_digits(s.take(i))
    &&& (s.len() - i - 1) % 2 == 0
    &&& is_hex_text(s.skip(i + 1))
}

/// The point a stored cursor text stands for, if it is well formed and its
/// slot fits in 64 bits.
pub open spec fn parse_cursor_spec(s: Seq<char>) -> Option<PointModel> {
    if exists|i: int| cursor_split(s, i) && digits_value(s.take(i)) <= u64::MAX {
        let i = choose|i: int| cursor_split(s, i) && digits_value(s.take(i)) <= u64::MAX;
        Some(PointModel { slot: digits_value(s.take(i)) as u64, hash: hex_decoded(s.skip(i + 1)) })
    } else {
        None
    }
}

/// At most one position splits a cursor text: digits hold no comma.
proof fn lemma_cursor_split_unique(s: Seq<char>, i: int, j: int)
    requires
        cursor_split(s, i),
        cursor_split(s, j),
    ensures
        i == j,
{
    if i < j {
        assert(s.take(j)[i] == s[i]);
    } else if j < i {
        assert(s.take(i)[j] == s[j]);
    }
}

/// Reads a stored cursor text back into a point.
pub fn parse_cursor(s: &str) -> (r: Option<Point>)
    ensures
        match r {
            Some(p) => parse_cursor_spec(s@) == Some(p@),
            None => parse_cursor_spec(s@) is None,
        },
{
    let n = s.unicode_len();
    let mut i: usize = 0;
    let mut slot: u64 = 0;
    while i < n
        invariant
            n == s@.len(),
            i <= n,
            is_digits(s@.take(i as int)),
            slot as nat == digits_value(s@.take(i as int)),
        ensures
            i <= n,
            is_digits(s@.take(i as int)),
            slot as nat == digits_value(s@.take(i as int)),
            i < n ==> s@[i as int] == ',',
        decreases n - i,
    {
        let c = s.get_char(i);
        if c == ',' {
            break;
        }
        if !('0' <= c && c <= '9') {
            proof {
                assert forall|k: int| !cursor_split(s@, k) by {
                    if cursor_split(s@, k) {
                        if k > i {
                            assert(s@.take(k)[i as int] == c);
                        } else if k < i {
                            assert(s@.take(i as int)[k] == s@[k]);
                        }
                    }
                };
            }
            return None;
        }
        let d = (c as u32 - '0' as u32) as u64;
        assert(s@.take(i + 1).drop_last() =~= s@.take(i as int));
        if slot > (u64::MAX - d) / 10 {
            proof {
                assert(digits_value(s@.take(i + 1)) > u64::MAX);
                assert forall|k: int| cursor_split(s@, k) implies digits_value(s@.take(k)) > u64::MAX by {
                    if k <= i {
                        assert(s@.take(i + 1)[k] == s@[k]);
                    } else {
                        assert(s@.take(k).take(i + 1) =~= s@.take(i + 1));
                        lemma_digits_value_prefix(s@.take(k), i + 1);
                    }
                };
            }
            return None;
        }
        slot = slot * 10 + d;
        i = i + 1;
        assert(is_digits(s@.take(i as int)));
    }
    if i == 0 || i == n {
        proof {
            assert forall|k: int| !cursor_split(s@, k) by {
                if cursor_split(s@, k) {
                    if i == n {
                        assert(s@.take(n as int)[k] == s@[k]);
                    } else {
                        assert(s@.take(k)[0] == s@[0]);
                    }
                }
            };
        }
        return None;
    }
    let rest = s.substring_char(i + 1, n);
    match hex_decode(rest) {
        Some(hash) => {
            proof {
                assert(s@.skip(i + 1) =~= rest@);
                assert(cursor_split(s@, i as int));
                assert forall|k: int| cursor_split(s@, k) implies k == i by {
                    lemma_cursor_split_unique(s@, i as int, k);
                };
            }
            Some(Point { slot, hash })
        },
        None => {
            proof {
                assert(s@.skip(i + 1) =~= rest@);
                assert forall|k: int| !cursor_split(s@, k) by {
                    if cursor_split(s@, k) {
                        if k < i {
                            assert(s@.take(i as int)[k] == s@[k]);
                        } else if k > i {
                            assert(s@.take(k)[i as int] == s@[i as int]);
                        }
                    }
                };
            }
            None
        },
    }
}

} // verus!

verus! {

/// One document update: the operator and the field it applies to.
#[derive(Debug, Clone, PartialEq, Eq)]
pub enum UpdateOp {
    /// Add `value` to the set in `field`.
    AddToSet(String, String),
    /// Remove `value` from the set in `field`.
    Pull(String, String),
    /// Write `value` to `field`.
    SetField(String, String),
    /// Write a value with its timestamp, unless a later timestamp is stored.
    SetTimestamped(String, u64),
    /// Add a signed delta to the number in `field`.
    Inc(String, i64),
}

/// An update of the document with id `id`, created first when `upsert` holds.
#[derive(Debug, Clone, PartialEq, Eq)]
pub struct StoreUpdate {
    pub id: String,
    pub op: UpdateOp,
    pub upsert: bool,
}

pub enum OpModel {
    AddToSet(Seq<char>, Seq<char>),
    Pull(Seq<char>, Seq<char>),
    SetField(Seq<char>, Seq<char>),
    SetTimestamped(Seq<char>, u64),
    Inc(Seq<char>, i64),
}

pub struct UpdateModel {
    pub id: Seq<char>,
    pub op: OpModel,
    pub upsert: bool,
}

impl View for UpdateOp {
    type V = OpModel;

    open spec fn view(&self) -> OpModel {
        match self {
            UpdateOp::AddToSet(f, v) => OpModel::AddToSet(f@, v@),
            UpdateOp::Pull(f, v) => OpModel::Pull(f@, v@),
            UpdateOp::SetField(f, v) => OpModel::SetField(f@, v@),
            UpdateOp::SetTimestamped(v, ts) => OpModel::SetTimestamped(v@, *ts),
            UpdateOp::Inc(f, d) => OpModel::Inc(f@, *d),
        }
    }
}

impl View for StoreUpdate {
    type V = UpdateModel;

    open spec fn view(&self) -> UpdateModel {
        UpdateModel { id: self.id@, op: self.op@, upsert: self.upsert }
    }
}

pub open spec fn upd(id: Seq<char>, op: OpModel) -> Option<UpdateModel> {
    Some(UpdateModel { id, op, upsert: true })
}

/// The update that a command becomes; `BlockStarting` becomes none.
pub open spec fn update_spec(cursor_key: Seq<char>, c: Cmd) -> Option<UpdateModel> {
    match c {
        Cmd::BlockStarting(_) => None,
        Cmd::GrowOnlySetAdd(k, v) => upd(k, OpModel::AddToSet("values"@, v)),
        Cmd::TwoPhaseSetAdd(k, v) => upd(k, OpModel::AddToSet("values"@, v)),
        Cmd::TwoPhaseSetRemove(k, v) => upd(k + ".ts"@, OpModel::AddToSet("tombstones"@, v)),
        Cmd::SetAdd(k, v) => upd(k, OpModel::AddToSet("values"@, v)),
        Cmd::SetRemove(k, v) => Some(UpdateModel { id: k, op: OpModel::Pull("values"@, v), upsert: false }),
        Cmd::LastWriteWins(k, v, ts) => upd(k, OpModel::SetTimestamped(value_text(v), ts)),
        Cmd::SortedSetAdd(k, m, d) => upd(k, OpModel::Inc("scores."@ + m, d)),
        Cmd::SortedSetRemove(k, m, d) => upd(k, OpModel::Inc("scores."@ + m, d)),
        Cmd::AnyWriteWins(k, v) => upd(k, OpModel::SetField("value"@, value_text(v))),
        Cmd::PNCounter(k, d) => upd(k, OpModel::Inc("counter"@, d)),
        Cmd::BlockFinished(p) => upd(cursor_key, OpModel::SetField("point"@, cursor_text(p))),
    }
}

pub open spec fn opt_update_view(r: Option<StoreUpdate>) -> Option<UpdateModel> {
    match r {
        Some(u) => Some(u@),
        None => None,
    }
}

fn text(s: &str) -> (r: String)
    ensures
        r@ == s@,
{
    String::from_str(s)
}

fn upsert(id: String, op: UpdateOp) -> (r: Option<StoreUpdate>)
    ensures
        opt_update_view(r) == upd(id@, op@),
{
    Some(StoreUpdate { id, op, upsert: true })
}

/// The update that a command becomes.
pub fn store_update(config: &Config, cmd: &CRDTCommand) -> (r: Option<StoreUpdate>)
    ensures
        opt_update_view(r) == update_spec(config.cursor_key_spec(), cmd@),
{
    match cmd {
        CRDTCommand::BlockStarting(_) => None,
        CRDTCommand::GrowOnlySetAdd(k, v) => upsert(k.clone(), UpdateOp::AddToSet(text("values"), v.clone())),
        CRDTCommand::TwoPhaseSetAdd(k, v) => upsert(k.clone(), UpdateOp::AddToSet(text("values"), v.clone())),
        CRDTCommand::TwoPhaseSetRemove(k, v) => upsert(
            join2(k.as_str(), ".ts"),
            UpdateOp::AddToSet(text("tombstones"), v.clone()),
        ),
        CRDTCommand::SetAdd(k, v) => upsert(k.clone(), UpdateOp::AddToSet(text("values"), v.clone())),
        CRDTCommand::SetRemove(k, v) => Some(
            StoreUpdate { id: k.clone(), op: UpdateOp::Pull(text("values"), v.clone()), upsert: false },
        ),
        CRDTCommand::LastWriteWins(k, v, ts) => upsert(
            k.clone(),
            UpdateOp::SetTimestamped(value_to_bson(v), *ts),
        ),
        CRDTCommand::SortedSetAdd(k, m, d) => upsert(
            k.clone(),
            UpdateOp::Inc(join2("scores.", m.as_str()), *d),
        ),
        CRDTCommand::SortedSetRemove(k, m, d) => upsert(
            k.clone(),
            UpdateOp::Inc(join2("scores.", m.as_str()), *d),
        ),
        CRDTCommand::AnyWriteWins(k, v) => upsert(k.clone(), UpdateOp::SetField(text("value"), value_to_bson(v))),
        CRDTCommand::PNCounter(k, d) => upsert(k.clone(), UpdateOp::Inc(text("counter"), *d)),
        CRDTCommand::BlockFinished(p) => upsert(
            text(config.cursor_key()),
            UpdateOp::SetField(text("point"), point_to_cursor(p)),
        ),
    }
}

/// The sink's work step: the update for each received command, and a count
/// of the commands handled.
pub struct Worker {
    config: Config,
    ops_count: u64,
}

impl Worker {
    pub closed spec fn config_spec(&self) -> &Config {
        &self.config
    }

    /// Commands handled so far.
    pub closed spec fn ops(&self) -> u64 {
        self.ops_count
    }

    pub fn new(config: Config) -> (r: Worker)
        ensures
            *r.config_spec() == config,
            r.ops() == 0,
    {
        Worker { config, ops_count: 0 }
    }

    /// The number of commands handled so far.
    pub fn metrics(&self) -> (r: u64)
        ensures
            r == self.ops(),
    {
        self.ops_count
    }

    pub fn config(&self) -> (r: &Config)
        ensures
            r == self.config_spec(),
    {
        &self.config
    }

    /// Handles one received command: returns the update to apply before
    /// committing it, and counts it (the count stops at its maximum).
    pub fn work(&mut self, cmd: &CRDTCommand) -> (r: Option<StoreUpdate>)
        ensures
            opt_update_view(r) == update_spec(old(self).config_spec().cursor_key_spec(), cmd@),
            final(self).config_spec() == old(self).config_spec(),
            final(self).ops() == if old(self).ops() < u64::MAX {
                (old(self).ops() + 1) as u64
            } else {
                u64::MAX
            },
    {
        let r = store_update(&self.config, cmd);
        if self.ops_count < u64::MAX {
            self.ops_count = self.ops_count + 1;
        }
        r
    }
}

} // verus!

verus! {

/// Cursor round trip: the stored text of a point reads back as that point.
pub proof fn lemma_cursor_round_trip(p: PointModel)
    ensures
        parse_cursor_spec(cursor_text(p)) == Some(p),
{
    let d = decimal_of(p.slot as nat);
    let h = hex_of(p.hash);
    let s = cursor_text(p);
    lemma_decimal_round_trip(p.slot as nat);
    lemma_hex_round_trip(p.hash);
    let i = d.len() as int;
    assert(s.take(i) =~= d);
    assert(s.skip(i + 1) =~= h);
    assert(s[i] == ',');
    assert(cursor_split(s, i));
    let j = choose|j: int| cursor_split(s, j) && digits_value(s.take(j)) <= u64::MAX;
    lemma_cursor_split_unique(s, i, j);
}

} // verus!
