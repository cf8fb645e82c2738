//! A model of the document store that the sink writes to, and what the
//! command algebra guarantees on it.
use vstd::prelude::*;

use crate::model::{Cmd, PointModel};
use crate::mongo::{cursor_text, update_spec, OpModel, UpdateModel};
use crate::pipeline::{frame_free, is_frame};

verus! {

/// A field of a stored document.
pub enum Field {
    Members(Set<Seq<char>>),
    Text(Seq<char>),
    Num(int),
}

pub open spec fn members(d: Map<Seq<char>, Field>, f: Seq<char>) -> Set<Seq<char>> {
    match d.get(f) {
        Some(Field::Members(s)) => s,
        _ => Set::empty(),
    }
}

pub open spec fn num(d: Map<Seq<char>, Field>, f: Seq<char>) -> int {
    match d.get(f) {
        Some(Field::Num(n)) => n,
        _ => 0,
    }
}

/// A timestamped write is taken unless a later timestamp is stored.
pub open spec fn accepts_ts(d: Map<Seq<char>, Field>, ts: u64) -> bool {
    match d.get("timestamp"@) {
        Some(Field::Num(t)) => t <= ts,
        _ => true,
    }
}

/// What an operator does to one document.
pub open spec fn apply_op(d: Map<Seq<char>, Field>, op: OpModel) -> Map<Seq<char>, Field> {
    match op {
        OpModel::AddToSet(f, v) => d.insert(f, Field::Members(members(d, f).insert(v))),
        OpModel::Pull(f, v) => d.insert(f, Field::Members(members(d, f).remove(v))),
        OpModel::SetField(f, v) => d.insert(f, Field::Text(v)),
        OpModel::SetTimestamped(v, ts) => if accepts_ts(d, ts) {
            d.insert("value"@, Field::Text(v)).insert("timestamp"@, Field::Num(ts as int))
        } else {
            d
        },
        OpModel::Inc(f, delta) => d.insert(f, Field::Num(num(d, f) + delta)),
    }
}

/// What an update does to the store: a missing document is created only on upsert.
pub open spec fn apply_update(s: Map<Seq<char>, Map<Seq<char>, Field>>, u: UpdateModel) -> Map<Seq<char>, Map<Seq<char>, Field>> {
    if s.contains_key(u.id) {
        s.insert(u.id, apply_op(s[u.id], u.op))
    } else if u.upsert {
        s.insert(u.id, apply_op(Map::empty(), u.op))
    } else {
        s
    }
}

/// What a command does to the store, with the cursor under `key`.
pub open spec fn apply_cmd(s: Map<Seq<char>, Map<Seq<char>, Field>>, key: Seq<char>, c: Cmd) -> Map<Seq<char>, Map<Seq<char>, Field>> {
    match update_spec(key, c) {
        Some(u) => apply_update(s, u),
        None => s,
    }
}

/// Commands applied in order.
pub open spec fn apply_all(s: Map<Seq<char>, Map<Seq<char>, Field>>, key: Seq<char>, cs: Seq<Cmd>) -> Map<Seq<char>, Map<Seq<char>, Field>>
    decreases cs.len(),
{
    if cs.len() == 0 {
        s
    } else {
        apply_cmd(apply_all(s, key, cs.drop_last()), key, cs.last())
    }
}

/// The stored cursor field.
pub open spec fn stored_point(s: Map<Seq<char>, Map<Seq<char>, Field>>, key: Seq<char>) -> Option<Field> {
    if s.contains_key(key) {
        s[key].get("point"@)
    } else {
        None
    }
}

/// The commands that may be applied more than once with no further effect.
pub open spec fn is_idempotent(c: Cmd) -> bool {
    c is BlockStarting || c is BlockFinished || c is GrowOnlySetAdd || c is TwoPhaseSetAdd
        || c is TwoPhaseSetRemove || c is LastWriteWins || c is AnyWriteWins
}

proof fn lemma_literals()
    ensures
        "point"@ != "values"@,
        "point"@ != "tombstones"@,
        "point"@ != "value"@,
        "point"@ != "timestamp"@,
        "point"@ != "counter"@,
        forall|m: Seq<char>| "point"@ != "scores."@ + m,
{
    reveal_strlit("point");
    reveal_strlit("values");
    reveal_strlit("tombstones");
    reveal_strlit("value");
    reveal_strlit("timestamp");
    reveal_strlit("counter");
    reveal_strlit("scores.");
    assert("point"@[0] != "scores."@[0]);
    assert forall|m: Seq<char>| "point"@ != "scores."@ + m by {
        assert(("scores."@ + m)[0] == 's');
    };
    assert("point"@.len() != "values"@.len());
    assert("point"@[1] != "value"@[1]);
}

/// Only `BlockFinished` touches the stored cursor.
proof fn lemma_point_untouched(s: Map<Seq<char>, Map<Seq<char>, Field>>, key: Seq<char>, c: Cmd)
    requires
        !(c is BlockFinished),
    ensures
        stored_point(apply_cmd(s, key, c), key) == stored_point(s, key),
{
    lemma_literals();
    match update_spec(key, c) {
        Some(u) => {
            match u.op {
                OpModel::SetTimestamped(v, ts) => {},
                _ => {},
            }
        },
        None => {},
    }
}

/// Counter exact-once under the cursor rule: while the commands of a framed
/// block are applied, the stored cursor stays as it was before the block
/// until its final `BlockFinished(p)`, which stores `p`. A crash at any
/// earlier point thus leaves the cursor before the block, and the whole
/// block is delivered again.
pub proof fn lemma_cursor_moves_only_at_finish(
    s: Map<Seq<char>, Map<Seq<char>, Field>>,
    key: Seq<char>,
    p: PointModel,
    body: Seq<Cmd>,
    k: int,
)
    requires
        frame_free(body),
        0 <= k < body.len() + 2,
    ensures
        ({
            let frame = seq![Cmd::BlockStarting(p)] + body + seq![Cmd::BlockFinished(p)];
            &&& stored_point(apply_all(s, key, frame.take(k)), key) == stored_point(s, key)
            &&& stored_point(apply_all(s, key, frame), key) == Some(Field::Text(cursor_text(p)))
        }),
    decreases k,
{
    let frame = seq![Cmd::BlockStarting(p)] + body + seq![Cmd::BlockFinished(p)];
    if k > 0 {
        lemma_cursor_moves_only_at_finish(s, key, p, body, k - 1);
        assert(frame.take(k).drop_last() =~= frame.take(k - 1));
        assert(frame.take(k).last() == frame[k - 1]);
        if k - 1 > 0 {
            assert(frame[k - 1] == body[k - 2]);
            assert(!is_frame(body[k - 2]));
        }
        lemma_point_untouched(apply_all(s, key, frame.take(k - 1)), key, frame[k - 1]);
    } else {
        assert(frame.take(0) =~= Seq::<Cmd>::empty());
    }
    lemma_cursor_prefix_step(s, key, p, body);
}

/// The last step: `BlockFinished(p)` stores `p`.
proof fn lemma_cursor_prefix_step(s: Map<Seq<char>, Map<Seq<char>, Field>>, key: Seq<char>, p: PointModel, body: Seq<Cmd>)
    ensures
        ({
            let frame = seq![Cmd::BlockStarting(p)] + body + seq![Cmd::BlockFinished(p)];
            stored_point(apply_all(s, key, frame), key) == Some(Field::Text(cursor_text(p)))
        }),
{
    let frame = seq![Cmd::BlockStarting(p)] + body + seq![Cmd::BlockFinished(p)];
    assert(frame.last() == Cmd::BlockFinished(p));
    let before = apply_all(s, key, frame.drop_last());
    let after = apply_cmd(before, key, Cmd::BlockFinished(p));
    assert(after.contains_key(key));
}

} // verus!

verus! {

/// The updates that idempotent commands become.
pub open spec fn idem_op(op: OpModel) -> bool {
    match op {
        OpModel::AddToSet(f, _) => f == "values"@ || f == "tombstones"@,
        OpModel::SetField(f, _) => f == "value"@ || f == "point"@,
        OpModel::SetTimestamped(_, _) => true,
        _ => false,
    }
}

proof fn lemma_field_names()
    ensures
        "values"@ != "value"@,
        "values"@ != "timestamp"@,
        "values"@ != "point"@,
        "tombstones"@ != "value"@,
        "tombstones"@ != "timestamp"@,
        "tombstones"@ != "point"@,
        "value"@ != "timestamp"@,
        "point"@ != "timestamp"@,
        "value"@ != "point"@,
{
    reveal_strlit("values");
    reveal_strlit("tombstones");
    reveal_strlit("value");
    reveal_strlit("timestamp");
    reveal_strlit("point");
    assert("values"@.len() != "value"@.len());
    assert("values"@.len() != "timestamp"@.len());
    assert("values"@[0] != "point"@[0]);
    assert("tombstones"@.len() != "value"@.len());
    assert("tombstones"@.len() != "timestamp"@.len());
    assert("tombstones"@.len() != "point"@.len());
    assert("value"@.len() != "timestamp"@.len());
    assert("point"@.len() != "timestamp"@.len());
    assert("value"@[0] != "point"@[0]);
}

/// `b` is `a` with the effect of `c` possibly added in a way that a later
/// application of `c` erases.
pub open spec fn related(c: OpModel, a: Map<Seq<char>, Field>, b: Map<Seq<char>, Field>) -> bool {
    a == b || match c {
        OpModel::AddToSet(_, _) => b == apply_op(a, c),
        OpModel::SetField(_, _) => b == apply_op(a, c),
        OpModel::SetTimestamped(v, ts) => accepts_ts(a, ts) && b.contains_key("value"@) && b == a.insert(
            "value"@,
            b["value"@],
        ).insert("timestamp"@, Field::Num(ts as int)),
        _ => false,
    }
}

/// Relatedness survives any idempotent update of the same document.
proof fn lemma_related_step(c: OpModel, o: OpModel, a: Map<Seq<char>, Field>, b: Map<Seq<char>, Field>)
    requires
        idem_op(c),
        idem_op(o),
        related(c, a, b),
    ensures
        related(c, apply_op(a, o), apply_op(b, o)),
{
    lemma_field_names();
    if a == b {
        return;
    }
    match c {
        OpModel::AddToSet(f, v) => {
            match o {
                OpModel::AddToSet(g, w) => {
                    if f == g {
                        assert(members(a, f).insert(v).insert(w) =~= members(a, f).insert(w).insert(v));
                    }
                    assert(apply_op(b, o) =~= apply_op(apply_op(a, o), c));
                },
                OpModel::SetField(g, w) => {
                    assert(apply_op(b, o) =~= apply_op(apply_op(a, o), c));
                },
                OpModel::SetTimestamped(w, t) => {
                    assert(b.get("timestamp"@) == a.get("timestamp"@));
                    assert(apply_op(b, o) =~= apply_op(apply_op(a, o), c));
                },
                _ => {},
            }
        },
        OpModel::SetField(f, v) => {
            match o {
                OpModel::AddToSet(g, w) => {
                    assert(apply_op(b, o) =~= apply_op(apply_op(a, o), c));
                },
                OpModel::SetField(g, w) => {
                    if f == g {
                        assert(apply_op(b, o) =~= apply_op(a, o));
                    } else {
                        assert(apply_op(b, o) =~= apply_op(apply_op(a, o), c));
                    }
                },
                OpModel::SetTimestamped(w, t) => {
                    assert(b.get("timestamp"@) == a.get("timestamp"@));
                    if accepts_ts(a, t) && f == "value"@ {
                        assert(apply_op(b, o) =~= apply_op(a, o));
                    } else {
                        assert(apply_op(b, o) =~= apply_op(apply_op(a, o), c));
                    }
                },
                _ => {},
            }
        },
        OpModel::SetTimestamped(v, ts) => {
            let x = b["value"@];
            match o {
                OpModel::AddToSet(g, w) => {
                    let a2 = apply_op(a, o);
                    let b2 = apply_op(b, o);
                    assert(members(b, g) == members(a, g));
                    assert(b2 =~= a2.insert("value"@, x).insert("timestamp"@, Field::Num(ts as int)));
                    assert(a2.get("timestamp"@) == a.get("timestamp"@));
                },
                OpModel::SetField(g, w) => {
                    let a2 = apply_op(a, o);
                    let b2 = apply_op(b, o);
                    if g == "value"@ {
                        assert(b2 =~= a2.insert("value"@, Field::Text(w)).insert("timestamp"@, Field::Num(ts as int)));
                    } else {
                        assert(b2 =~= a2.insert("value"@, x).insert("timestamp"@, Field::Num(ts as int)));
                    }
                    assert(a2.get("timestamp"@) == a.get("timestamp"@));
                },
                OpModel::SetTimestamped(w, t) => {
                    let a2 = apply_op(a, o);
                    let b2 = apply_op(b, o);
                    if t >= ts {
                        assert(accepts_ts(a, t));
                        assert(b2 =~= a2);
                    } else if accepts_ts(a, t) {
                        assert(b2 == b);
                        assert(b2 =~= a2.insert("value"@, x).insert("timestamp"@, Field::Num(ts as int)));
                    } else {
                        assert(a2 == a);
                        assert(b2 == b);
                    }
                },
                _ => {},
            }
        },
        _ => {},
    }
}

/// A final application of `c` erases the difference between related documents.
proof fn lemma_related_close(c: OpModel, a: Map<Seq<char>, Field>, b: Map<Seq<char>, Field>)
    requires
        idem_op(c),
        related(c, a, b),
    ensures
        apply_op(b, c) == apply_op(a, c),
{
    lemma_field_names();
    if a == b {
        return;
    }
    match c {
        OpModel::AddToSet(f, v) => {
            assert(members(a, f).insert(v).insert(v) =~= members(a, f).insert(v));
            assert(apply_op(b, c) =~= apply_op(a, c));
        },
        OpModel::SetField(f, v) => {
            assert(apply_op(b, c) =~= apply_op(a, c));
        },
        OpModel::SetTimestamped(v, ts) => {
            assert(accepts_ts(b, ts));
            assert(apply_op(b, c) =~= apply_op(a, c));
        },
        _ => {},
    }
}

} // verus!

verus! {

pub open spec fn doc(s: Map<Seq<char>, Map<Seq<char>, Field>>, id: Seq<char>) -> Map<Seq<char>, Field> {
    if s.contains_key(id) {
        s[id]
    } else {
        Map::empty()
    }
}

/// Stores that differ at most in document `id`, whose versions are related by `c`.
pub open spec fn store_related(id: Seq<char>, c: OpModel, a: Map<Seq<char>, Map<Seq<char>, Field>>, b: Map<Seq<char>, Map<Seq<char>, Field>>) -> bool {
    a == b || (b.contains_key(id) && b == a.insert(id, b[id]) && related(c, doc(a, id), b[id]))
}

pub open spec fn idem_update(u: UpdateModel) -> bool {
    u.upsert && idem_op(u.op)
}

proof fn lemma_idempotent_update(key: Seq<char>, c: Cmd)
    requires
        is_idempotent(c),
        !(c is BlockStarting),
    ensures
        update_spec(key, c) matches Some(u) && idem_update(u),
{
}

proof fn lemma_store_step(id: Seq<char>, c: OpModel, a: Map<Seq<char>, Map<Seq<char>, Field>>, b: Map<Seq<char>, Map<Seq<char>, Field>>, u: UpdateModel)
    requires
        idem_op(c),
        idem_update(u),
        store_related(id, c, a, b),
    ensures
        store_related(id, c, apply_update(a, u), apply_update(b, u)),
{
    if a == b {
        return;
    }
    let a2 = apply_update(a, u);
    let b2 = apply_update(b, u);
    assert(a2 =~= a.insert(u.id, apply_op(doc(a, u.id), u.op)));
    assert(b2 =~= b.insert(u.id, apply_op(doc(b, u.id), u.op)));
    if u.id == id {
        lemma_related_step(c, u.op, doc(a, id), b[id]);
        assert(b2 =~= a2.insert(id, b2[id]));
    } else {
        assert(doc(b, u.id) == doc(a, u.id));
        assert(doc(a2, id) == doc(a, id));
        assert(b2 =~= a2.insert(id, b[id]));
    }
}

proof fn lemma_store_close(id: Seq<char>, a: Map<Seq<char>, Map<Seq<char>, Field>>, b: Map<Seq<char>, Map<Seq<char>, Field>>, u: UpdateModel)
    requires
        idem_update(u),
        u.id == id,
        store_related(id, u.op, a, b),
    ensures
        apply_update(a, u) == apply_update(b, u),
{
    if a == b {
        return;
    }
    lemma_related_close(u.op, doc(a, id), b[id]);
    assert(apply_update(b, u) =~= apply_update(a, u));
}

proof fn lemma_store_open(s: Map<Seq<char>, Map<Seq<char>, Field>>, u: UpdateModel)
    requires
        idem_update(u),
    ensures
        store_related(u.id, u.op, s, apply_update(s, u)),
{
    let b = apply_update(s, u);
    let d = doc(s, u.id);
    match u.op {
        OpModel::SetTimestamped(v, ts) => {
            if accepts_ts(d, ts) {
                assert(b[u.id] =~= d.insert("value"@, b[u.id]["value"@]).insert("timestamp"@, Field::Num(ts as int)));
            } else {
                assert(s.contains_key(u.id));
                assert(b =~= s);
            }
        },
        _ => {},
    }
    if !(b =~= s) {
        assert(b =~= s.insert(u.id, b[u.id]));
    }
}

pub open spec fn all_idempotent(cs: Seq<Cmd>) -> bool {
    forall|i: int| 0 <= i < cs.len() ==> is_idempotent(#[trigger] cs[i])
}

proof fn lemma_apply_all_split(s: Map<Seq<char>, Map<Seq<char>, Field>>, key: Seq<char>, a: Seq<Cmd>, b: Seq<Cmd>)
    ensures
        apply_all(s, key, a + b) == apply_all(apply_all(s, key, a), key, b),
    decreases b.len(),
{
    if b.len() == 0 {
        assert(a + b =~= a);
    } else {
        assert((a + b).drop_last() =~= a + b.drop_last());
        assert((a + b).last() == b.last());
        lemma_apply_all_split(s, key, a, b.drop_last());
    }
}

proof fn lemma_relate_through(key: Seq<char>, id: Seq<char>, c: OpModel, a: Map<Seq<char>, Map<Seq<char>, Field>>, b: Map<Seq<char>, Map<Seq<char>, Field>>, q: Seq<Cmd>)
    requires
        idem_op(c),
        all_idempotent(q),
        store_related(id, c, a, b),
    ensures
        store_related(id, c, apply_all(a, key, q), apply_all(b, key, q)),
    decreases q.len(),
{
    if q.len() > 0 {
        lemma_relate_through(key, id, c, a, b, q.drop_last());
        let x = q.last();
        assert(is_idempotent(q[q.len() - 1]));
        if !(x is BlockStarting) {
            lemma_idempotent_update(key, x);
            lemma_store_step(id, c, apply_all(a, key, q.drop_last()), apply_all(b, key, q.drop_last()), update_spec(key, x).unwrap());
        }
    }
}

proof fn lemma_apply_one(s: Map<Seq<char>, Map<Seq<char>, Field>>, key: Seq<char>, c: Cmd)
    ensures
        apply_all(s, key, seq![c]) == apply_cmd(s, key, c),
{
    assert(seq![c].drop_last() =~= Seq::<Cmd>::empty());
    assert(seq![c].last() == c);
    assert(apply_all(s, key, Seq::<Cmd>::empty()) == s);
}

/// An earlier application of an idempotent command is erased by a later
/// one, whatever idempotent commands stand between them.
proof fn lemma_absorb(s: Map<Seq<char>, Map<Seq<char>, Field>>, key: Seq<char>, c: Cmd, q: Seq<Cmd>)
    requires
        is_idempotent(c),
        all_idempotent(q),
    ensures
        apply_all(s, key, seq![c] + q + seq![c]) == apply_all(s, key, q + seq![c]),
{
    lemma_apply_all_split(s, key, seq![c], q);
    lemma_apply_all_split(s, key, seq![c] + q, seq![c]);
    lemma_apply_all_split(s, key, q, seq![c]);
    let s1 = apply_cmd(s, key, c);
    let a = apply_all(s, key, q);
    let b = apply_all(s1, key, q);
    lemma_apply_one(s, key, c);
    lemma_apply_one(a, key, c);
    lemma_apply_one(b, key, c);
    if c is BlockStarting {
        assert(s1 == s);
    } else {
        lemma_idempotent_update(key, c);
        let u = update_spec(key, c).unwrap();
        lemma_store_open(s, u);
        lemma_relate_through(key, u.id, u.op, s, s1, q);
        lemma_store_close(u.id, a, b, u);
    }
}

/// Dropping the first application of the leading commands one at a time.
proof fn lemma_replay_from(s: Map<Seq<char>, Map<Seq<char>, Field>>, key: Seq<char>, cs: Seq<Cmd>, k: int)
    requires
        all_idempotent(cs),
        0 <= k <= cs.len(),
    ensures
        apply_all(s, key, cs.skip(k) + cs) == apply_all(s, key, cs),
    decreases cs.len() - k,
{
    let n = cs.len() as int;
    if k == n {
        assert(cs.skip(n) + cs =~= cs);
    } else {
        lemma_replay_from(s, key, cs, k + 1);
        let c = cs[k];
        let q = cs.skip(k + 1) + cs.take(k);
        let r = cs.skip(k + 1);
        assert(all_idempotent(q)) by {
            assert forall|i: int| 0 <= i < q.len() implies is_idempotent(#[trigger] q[i]) by {
                if i < n - k - 1 {
                    assert(q[i] == cs[k + 1 + i]);
                } else {
                    assert(q[i] == cs[i - (n - k - 1)]);
                }
            };
        };
        assert(cs.skip(k) + cs =~= seq![c] + q + seq![c] + r);
        assert(cs.skip(k + 1) + cs =~= q + seq![c] + r);
        lemma_apply_all_split(s, key, seq![c] + q + seq![c], r);
        lemma_apply_all_split(s, key, q + seq![c], r);
        lemma_absorb(s, key, c, q);
    }
}

/// Idempotent replay: applying a sequence of idempotent commands twice
/// leaves the store as applying it once.
pub proof fn lemma_idempotent_replay(s: Map<Seq<char>, Map<Seq<char>, Field>>, key: Seq<char>, cs: Seq<Cmd>)
    requires
        all_idempotent(cs),
    ensures
        apply_all(apply_all(s, key, cs), key, cs) == apply_all(s, key, cs),
{
    lemma_apply_all_split(s, key, cs, cs);
    lemma_replay_from(s, key, cs, 0);
    assert(cs.skip(0) =~= cs);
}

} // verus!
