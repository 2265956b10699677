//! Engine-wide laws: facts that relate several commands, proved once and
//! for all over the command semantics.

use vstd::prelude::*;

use crate::command::get_result;
use crate::command::llen_result;
use crate::command::lrange_result;
use crate::command::msg_wrong_kind;
use crate::command::none_label;
use crate::command::pop_step;
use crate::command::push_step;
use crate::command::set_step;
use crate::command::ttl_result;
use crate::command::type_result;
use crate::num::sat_add;
use crate::resp::RespModel;
use crate::store::live_at;
use crate::store::live_restrict;
use crate::value::EntryModel;
use crate::value::ValueModel;

verus! {

/// After a `SET` without `EX`, `TTL` reports the no-expiry sentinel, at
/// any later reading.
pub proof fn lemma_ttl_after_set(
    m: Map<Seq<u8>, EntryModel>,
    k: Seq<u8>,
    v: Seq<u8>,
    now: u64,
    later: u64,
)
    ensures
        ttl_result(set_step(m, k, v, None, now), k, later) == RespModel::Int(-1i64),
{
}

/// Against an absent key, `TTL` reports the absent sentinel, `GET` nil,
/// and `TYPE` the `none` label.
pub proof fn lemma_absent_key(m: Map<Seq<u8>, EntryModel>, k: Seq<u8>, now: u64)
    requires
        !m.contains_key(k),
    ensures
        ttl_result(m, k, now) == RespModel::Int(-2i64),
        get_result(m, k, now) == RespModel::Nil,
        type_result(m, k, now) == RespModel::Simple(none_label()),
{
}

/// A `SET` with a zero time to live is dead on arrival: every later read
/// sees nil — never a wrong-kind error — and every later sweep removes
/// the key.
pub proof fn lemma_set_zero_ttl(
    m: Map<Seq<u8>, EntryModel>,
    k: Seq<u8>,
    v: Seq<u8>,
    now: u64,
    later: u64,
)
    requires
        now <= later,
    ensures
        get_result(set_step(m, k, v, Some(0), now), k, later) == RespModel::Nil,
        !live_at(set_step(m, k, v, Some(0), now), k, later),
        !live_restrict(set_step(m, k, v, Some(0), now), later).contains_key(k),
{
    assert(sat_add(now, 0) == now);
}

/// `DEL` is idempotent: removing an absent key changes nothing and counts
/// zero, and after any removal the key is absent, so a repeated `DEL`
/// counts zero again.
pub proof fn lemma_del_idempotent(m: Map<Seq<u8>, EntryModel>, k: Seq<u8>)
    ensures
        !m.contains_key(k) ==> m.remove(k) == m,
        !m.remove(k).contains_key(k),
{
    if !m.contains_key(k) {
        assert(m.remove(k) =~= m);
    }
}

/// Expiration is one-directional: what a sweep removes stays removed at
/// every later reading, so sweeping twice leaves exactly what the later
/// sweep alone leaves.
pub proof fn lemma_sweep_monotone(m: Map<Seq<u8>, EntryModel>, t1: u64, t2: u64)
    requires
        t1 <= t2,
    ensures
        live_restrict(live_restrict(m, t1), t2) == live_restrict(m, t2),
{
    assert(live_restrict(live_restrict(m, t1), t2) =~= live_restrict(m, t2));
}

/// The list round trip: pushing `vals` at the back of a fresh key and
/// reading the whole range returns `vals` in order; a further front push
/// of `x` makes the whole range `x` followed by `vals`.
pub proof fn lemma_list_round_trip(
    m: Map<Seq<u8>, EntryModel>,
    k: Seq<u8>,
    vals: Seq<Seq<u8>>,
    x: Seq<u8>,
    now: u64,
)
    requires
        !m.contains_key(k),
        vals.len() > 0,
    ensures
        lrange_result(push_step(m, k, vals, false).0, k, 0, -1, now) == RespModel::Array(vals),
        lrange_result(
            push_step(push_step(m, k, vals, false).0, k, seq![x], true).0,
            k,
            0,
            -1,
            now,
        ) == RespModel::Array(seq![x] + vals),
{
    let m1 = push_step(m, k, vals, false).0;
    assert(m1[k].value == ValueModel::List(vals));
    assert(vals.subrange(0, vals.len() as int) =~= vals);
    let m2 = push_step(m1, k, seq![x], true).0;
    assert(m2[k].value == ValueModel::List(seq![x] + vals));
    let l2 = seq![x] + vals;
    assert(l2.subrange(0, l2.len() as int) =~= l2);
}

/// The draining invariant: after pushing a single element onto a fresh
/// key, a pop returns that element and removes the key entirely, so a
/// following `LLEN` counts zero and `TYPE` reports `none`.
pub proof fn lemma_pop_drains(m: Map<Seq<u8>, EntryModel>, k: Seq<u8>, a: Seq<u8>, now: u64)
    requires
        !m.contains_key(k),
    ensures
        pop_step(push_step(m, k, seq![a], false).0, k, false, now).1 == RespModel::Bulk(a),
        pop_step(push_step(m, k, seq![a], false).0, k, false, now).0 == m.remove(k),
        llen_result(pop_step(push_step(m, k, seq![a], false).0, k, false, now).0, k, now)
            == RespModel::Uint(0),
        type_result(pop_step(push_step(m, k, seq![a], false).0, k, false, now).0, k, now)
            == RespModel::Simple(none_label()),
{
    let m1 = push_step(m, k, seq![a], false).0;
    assert(m1[k].value == ValueModel::List(seq![a]));
    assert(seq![a].last() == a);
    let m2 = pop_step(m1, k, false, now).0;
    assert(m2 == m1.remove(k));
    assert(m1.remove(k) =~= m.remove(k));
    assert(!m2.contains_key(k));
}

/// The type guard: a push against a string-valued key reports the
/// wrong-kind error, changes nothing, and leaves `GET` returning the
/// string.
pub proof fn lemma_type_guard(
    m: Map<Seq<u8>, EntryModel>,
    k: Seq<u8>,
    v: Seq<u8>,
    x: Seq<u8>,
    now: u64,
    later: u64,
)
    ensures
        push_step(set_step(m, k, v, None, now), k, seq![x], true).0 == set_step(
            m,
            k,
            v,
            None,
            now,
        ),
        push_step(set_step(m, k, v, None, now), k, seq![x], true).1 == RespModel::Error(
            msg_wrong_kind(),
        ),
        get_result(push_step(set_step(m, k, v, None, now), k, seq![x], true).0, k, later)
            == RespModel::Bulk(v),
{
}

/// Negative-index clamping: bounds far below the front and far past the
/// back cover the whole list, and a start at or past the length yields an
/// empty range.
pub proof fn lemma_lrange_clamps(
    m: Map<Seq<u8>, EntryModel>,
    k: Seq<u8>,
    start: int,
    stop: int,
    now: u64,
)
    requires
        live_at(m, k, now),
        m[k].value is List,
    ensures
        ({
            let l = m[k].value->List_0;
            &&& (start <= -l.len() && stop >= l.len() - 1 && l.len() > 0 ==> lrange_result(
                m,
                k,
                start,
                stop,
                now,
            ) == RespModel::Array(l))
            &&& (start >= l.len() ==> lrange_result(m, k, start, stop, now)
                == RespModel::Array(Seq::<Seq<u8>>::empty()))
        }),
{
    let l = m[k].value->List_0;
    if start <= -l.len() && stop >= l.len() - 1 && l.len() > 0 {
        assert(l.subrange(0, l.len() as int) =~= l);
    }
    if start >= l.len() {
        let b0 = if stop < 0 {
            l.len() + stop
        } else {
            stop
        };
        let b = if b0 > l.len() - 1 {
            l.len() - 1
        } else {
            b0
        };
        assert(start > b);
    }
}

} // verus!
