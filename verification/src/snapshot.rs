//! Snapshot persistence: the live bindings at a point in time, with
//! deadlines translated between the in-process monotonic clock and the
//! wall clock.
//!
//! [`snapshot`] captures every live entry, turning each monotonic deadline
//! into an absolute wall-clock one; the caller serializes the result and
//! writes the file. [`load_snapshot`] rebuilds a fresh store from such
//! entries, skipping those already dead at load time, turning wall-clock
//! deadlines back into monotonic ones. No encoding is fixed here: any
//! faithful encoding of the entry list round-trips.

use vstd::prelude::*;

use crate::bytes::copy_bytes;
use crate::bytes::views_of;
use crate::num::sat_add;
use crate::num::sat_add_u64;
use crate::store::Store;
use crate::store::entry_ok;
use crate::store::live_at;
use crate::store::value_ok;
use crate::value::Entry;
use crate::value::EntryModel;
use crate::value::Value;
use crate::value::ValueModel;
use crate::value::clone_value;
use crate::value::entry_expired;

verus! {

/// One persisted binding: a key, its value, and an optional absolute
/// wall-clock deadline in whole seconds.
pub struct SnapshotEntry {
    pub key: Vec<u8>,
    pub value: Value,
    pub expires_at_wall: Option<u64>,
}

/// Mathematical model of a [`SnapshotEntry`].
pub struct SnapshotEntryModel {
    pub key: Seq<u8>,
    pub value: ValueModel,
    pub expires_at_wall: Option<u64>,
}

impl View for SnapshotEntry {
    type V = SnapshotEntryModel;

    open spec fn view(&self) -> SnapshotEntryModel {
        SnapshotEntryModel {
            key: self.key@,
            value: self.value@,
            expires_at_wall: self.expires_at_wall,
        }
    }
}

/// The models of a persisted entry vector.
pub open spec fn snaps_of(s: Seq<SnapshotEntry>) -> Seq<SnapshotEntryModel> {
    s.map_values(|e: SnapshotEntry| e@)
}

/// The keys of a persisted entry sequence, in order.
pub open spec fn snap_keys(s: Seq<SnapshotEntryModel>) -> Seq<Seq<u8>> {
    s.map_values(|e: SnapshotEntryModel| e.key)
}

/// The wall-clock image of a monotonic deadline `d` at save time.
pub open spec fn wall_of(d: u64, now_mono: u64, now_wall: u64) -> u64 {
    sat_add(
        now_wall,
        if d > now_mono {
            (d - now_mono) as u64
        } else {
            0
        },
    )
}

/// The monotonic image of a wall-clock deadline `w` at load time.
pub open spec fn mono_of(w: u64, now_mono: u64, now_wall: u64) -> u64 {
    sat_add(
        now_mono,
        if w > now_wall {
            (w - now_wall) as u64
        } else {
            0
        },
    )
}

/// A persisted entry is taken at load time iff its deadline, if any, is
/// still in the future, and its value is well formed.
pub open spec fn load_keep(e: SnapshotEntryModel, now_wall: u64) -> bool {
    &&& match e.expires_at_wall {
        Some(w) => w > now_wall,
        None => true,
    }
    &&& value_ok(e.value)
}

/// The entry that a kept persisted binding becomes.
pub open spec fn load_entry(e: SnapshotEntryModel, now_mono: u64, now_wall: u64) -> EntryModel {
    EntryModel {
        value: e.value,
        expires_at: match e.expires_at_wall {
            None => None,
            Some(w) => Some(mono_of(w, now_mono, now_wall)),
        },
    }
}

/// The key space that a persisted entry sequence rebuilds, first to last;
/// of two bindings of one key, the later wins.
pub open spec fn load_map(s: Seq<SnapshotEntryModel>, now_mono: u64, now_wall: u64) -> Map<
    Seq<u8>,
    EntryModel,
>
    decreases s.len(),
{
    if s.len() == 0 {
        Map::empty()
    } else {
        let m = load_map(s.drop_last(), now_mono, now_wall);
        let e = s.last();
        if load_keep(e, now_wall) {
            m.insert(e.key, load_entry(e, now_mono, now_wall))
        } else {
            m
        }
    }
}

/// `s` is a faithful snapshot of the key space `m`, taken at the clock
/// readings `now_mono` and `now_wall`: one entry for each live binding and
/// nothing else, values unchanged, deadlines in wall-clock form.
pub open spec fn is_snapshot_of(
    s: Seq<SnapshotEntryModel>,
    m: Map<Seq<u8>, EntryModel>,
    now_mono: u64,
    now_wall: u64,
) -> bool {
    &&& snap_keys(s).no_duplicates()
    &&& forall|j: int|
        0 <= j < s.len() ==> {
            let e = #[trigger] s[j];
            &&& live_at(m, e.key, now_mono)
            &&& e.value == m[e.key].value
            &&& value_ok(e.value)
            &&& e.expires_at_wall == match m[e.key].expires_at {
                None => None::<u64>,
                Some(d) => Some(wall_of(d, now_mono, now_wall)),
            }
        }
    &&& forall|k: Seq<u8>| live_at(m, k, now_mono) ==> #[trigger] snap_keys(s).contains(k)
}

/// Captures the live bindings of `store` as persisted entries.
pub fn snapshot(store: &Store, now_mono: u64, now_wall: u64) -> (r: Vec<SnapshotEntry>)
    requires
        store.wf(),
    ensures
        is_snapshot_of(snaps_of(r@), store@, now_mono, now_wall),
{
    let keys = store.live_keys(now_mono);
    let mut out: Vec<SnapshotEntry> = Vec::new();
    let n = keys.len();
    let mut i: usize = 0;
    while i < n
        invariant
            store.wf(),
            n == keys@.len(),
            views_of(keys@).no_duplicates(),
            forall|k: Seq<u8>| #[trigger] views_of(keys@).contains(k) <==> live_at(
                store@,
                k,
                now_mono,
            ),
            i <= n,
            out@.len() == i,
            forall|j: int| 0 <= j < i ==> snaps_of(out@)[j].key == #[trigger] views_of(keys@)[j],
            forall|j: int|
                0 <= j < i ==> {
                    let e = #[trigger] snaps_of(out@)[j];
                    &&& live_at(store@, e.key, now_mono)
                    &&& e.value == store@[e.key].value
                    &&& value_ok(e.value)
                    &&& e.expires_at_wall == match store@[e.key].expires_at {
                        None => None::<u64>,
                        Some(d) => Some(wall_of(d, now_mono, now_wall)),
                    }
                },
        decreases n - i,
    {
        proof {
            assert(views_of(keys@)[i as int] == keys@[i as int]@);
            assert(views_of(keys@).contains(views_of(keys@)[i as int]));
        }
        let key = &keys[i];
        match store.lookup(key) {
            Some(e) => {
                proof {
                    store.lemma_wf_entries();
                    assert(entry_ok(store@[key@]));
                }
                let wall: Option<u64> = match e.expires_at {
                    None => None,
                    Some(d) => Some(
                        sat_add_u64(
                            now_wall,
                            if d > now_mono {
                                d - now_mono
                            } else {
                                0
                            },
                        ),
                    ),
                };
                let ghost o0 = out@;
                out.push(
                    SnapshotEntry {
                        key: copy_bytes(key),
                        value: clone_value(&e.value),
                        expires_at_wall: wall,
                    },
                );
                proof {
                    assert(out@ == o0.push(out@.last()));
                    assert forall|j: int| 0 <= j < i implies snaps_of(out@)[j] == snaps_of(
                        o0,
                    )[j] by {
                        assert(out@[j] == o0[j]);
                    }
                    assert(snaps_of(out@)[i as int] == out@.last()@);
                    let snap = out@.last()@;
                    assert(snap.key == keys@[i as int]@);
                    assert(live_at(store@, snap.key, now_mono));
                    assert(e@ == store@[snap.key]);
                    assert(snap.value == store@[snap.key].value);
                    assert(value_ok(snap.value));
                    assert(snap.expires_at_wall == match store@[snap.key].expires_at {
                        None => None::<u64>,
                        Some(d) => Some(wall_of(d, now_mono, now_wall)),
                    });
                    assert forall|j: int|
                        0 <= j < i + 1 implies {
                            let p = #[trigger] snaps_of(out@)[j];
                            &&& live_at(store@, p.key, now_mono)
                            &&& p.value == store@[p.key].value
                            &&& value_ok(p.value)
                            &&& p.expires_at_wall == match store@[p.key].expires_at {
                                None => None::<u64>,
                                Some(d) => Some(wall_of(d, now_mono, now_wall)),
                            }
                        } by {
                        if j < i {
                            assert(snaps_of(out@)[j] == snaps_of(o0)[j]);
                        } else {
                            assert(snaps_of(out@)[j] == snap);
                        }
                    }
                    assert forall|j: int| 0 <= j < i + 1 implies snaps_of(out@)[j].key
                        == #[trigger] views_of(keys@)[j] by {
                        if j < i {
                            assert(snaps_of(out@)[j] == snaps_of(o0)[j]);
                        } else {
                            assert(snaps_of(out@)[j] == snap);
                            assert(views_of(keys@)[j] == keys@[j]@);
                        }
                    }
                }
            },
            None => {
                proof {
                    assert(false);
                }
            },
        }
        i += 1;
    }
    proof {
        let s = snaps_of(out@);
        assert forall|j: int| 0 <= j < s.len() implies snap_keys(s)[j] == #[trigger] views_of(
            keys@,
        )[j] by {
            assert(snap_keys(s)[j] == s[j].key);
        }
        assert(snap_keys(s) =~= views_of(keys@));
        assert forall|k: Seq<u8>| live_at(store@, k, now_mono) implies #[trigger] snap_keys(
            s,
        ).contains(k) by {
            assert(views_of(keys@).contains(k));
        }
    }
    out
}

/// Inserts one kept persisted binding into the store being rebuilt.
fn insert_entry(store: &mut Store, e: &SnapshotEntry, now_mono: u64, now_wall: u64)
    requires
        old(store).wf(),
        load_keep(e@, now_wall),
    ensures
        final(store).wf(),
        final(store)@ == old(store)@.insert(e@.key, load_entry(e@, now_mono, now_wall)),
{
    let deadline: Option<u64> = match e.expires_at_wall {
        None => None,
        Some(w) => Some(
            sat_add_u64(
                now_mono,
                if w > now_wall {
                    w - now_wall
                } else {
                    0
                },
            ),
        ),
    };
    let entry = Entry { value: clone_value(&e.value), expires_at: deadline };
    store.upsert(&e.key, entry);
}

/// Rebuilds a fresh store from persisted entries: entries already dead at
/// the load's clock readings are skipped, and a malformed empty list is
/// dropped rather than stored.
pub fn load_snapshot(entries: &Vec<SnapshotEntry>, now_mono: u64, now_wall: u64) -> (r: Store)
    ensures
        r.wf(),
        r@ == load_map(snaps_of(entries@), now_mono, now_wall),
{
    let mut store = Store::new();
    let n = entries.len();
    let mut i: usize = 0;
    proof {
        assert(snaps_of(entries@).take(0) =~= Seq::<SnapshotEntryModel>::empty());
    }
    while i < n
        invariant
            n == entries@.len(),
            i <= n,
            store.wf(),
            store@ == load_map(snaps_of(entries@).take(i as int), now_mono, now_wall),
        decreases n - i,
    {
        proof {
            let s = snaps_of(entries@);
            assert(s.take(i + 1).drop_last() =~= s.take(i as int));
            assert(s.take(i + 1).last() == s[i as int]);
            assert(s[i as int] == entries@[i as int]@);
        }
        let e = &entries[i];
        let fresh: bool = match e.expires_at_wall {
            None => true,
            Some(w) => w > now_wall,
        };
        if fresh {
            match &e.value {
                Value::Str(_) => {
                    insert_entry(&mut store, e, now_mono, now_wall);
                },
                Value::List(l) => {
                    if l.len() > 0 {
                        insert_entry(&mut store, e, now_mono, now_wall);
                    }
                },
            }
        }
        i += 1;
    }
    proof {
        assert(snaps_of(entries@).take(n as int) =~= snaps_of(entries@));
    }
    store
}

/// The key spaces that a snapshot prefix rebuilds: every key it carries
/// whose translated deadline has not passed, values unchanged, deadlines
/// re-anchored to the loading clock.
proof fn lemma_load_of_snapshot_entries(
    s: Seq<SnapshotEntryModel>,
    m: Map<Seq<u8>, EntryModel>,
    nm: u64,
    nw: u64,
    nm2: u64,
    nw2: u64,
)
    requires
        snap_keys(s).no_duplicates(),
        forall|j: int|
            0 <= j < s.len() ==> {
                let e = #[trigger] s[j];
                &&& live_at(m, e.key, nm)
                &&& e.value == m[e.key].value
                &&& value_ok(e.value)
                &&& e.expires_at_wall == match m[e.key].expires_at {
                    None => None::<u64>,
                    Some(d) => Some(wall_of(d, nm, nw)),
                }
            },
    ensures
        load_map(s, nm2, nw2) == Map::new(
            |k: Seq<u8>|
                snap_keys(s).contains(k) && (match m[k].expires_at {
                    None => true,
                    Some(d) => wall_of(d, nm, nw) > nw2,
                }),
            |k: Seq<u8>|
                (EntryModel {
                    value: m[k].value,
                    expires_at: match m[k].expires_at {
                        None => None,
                        Some(d) => Some(mono_of(wall_of(d, nm, nw), nm2, nw2)),
                    },
                }),
        ),
    decreases s.len(),
{
    let target = Map::new(
        |k: Seq<u8>|
            snap_keys(s).contains(k) && (match m[k].expires_at {
                None => true,
                Some(d) => wall_of(d, nm, nw) > nw2,
            }),
        |k: Seq<u8>|
            (EntryModel {
                value: m[k].value,
                expires_at: match m[k].expires_at {
                    None => None,
                    Some(d) => Some(mono_of(wall_of(d, nm, nw), nm2, nw2)),
                },
            }),
    );
    if s.len() == 0 {
        assert forall|k: Seq<u8>| !(#[trigger] snap_keys(s).contains(k)) by {
            assert(snap_keys(s).len() == 0);
        }
        assert(load_map(s, nm2, nw2) =~= target);
    } else {
        let dl = s.drop_last();
        let last = s.last();
        assert forall|j: int| 0 <= j < snap_keys(s).len() implies #[trigger] snap_keys(s)[j]
            == s[j].key by {}
        assert forall|j: int| 0 <= j < dl.len() implies #[trigger] snap_keys(dl)[j]
            == snap_keys(s)[j] by {
            assert(dl[j] == s[j]);
        }
        assert(snap_keys(dl) =~= snap_keys(s).drop_last());
        assert(snap_keys(dl).no_duplicates());
        lemma_load_of_snapshot_entries(dl, m, nm, nw, nm2, nw2);
        // The last key is fresh with respect to the prefix.
        assert(!snap_keys(dl).contains(last.key)) by {
            if snap_keys(dl).contains(last.key) {
                let j = choose|j: int|
                    0 <= j < snap_keys(dl).len() && snap_keys(dl)[j] == last.key;
                assert(snap_keys(s)[j] == snap_keys(s)[s.len() - 1]);
                assert(false);
            }
        }
        // Membership in the whole is membership in the prefix or the last key.
        assert forall|k: Seq<u8>| #[trigger] snap_keys(s).contains(k) implies snap_keys(
            dl,
        ).contains(k) || k == last.key by {
            let j = choose|j: int| 0 <= j < snap_keys(s).len() && snap_keys(s)[j] == k;
            if j < dl.len() {
                assert(snap_keys(dl)[j] == k);
            }
        }
        assert forall|k: Seq<u8>| snap_keys(dl).contains(k) implies #[trigger] snap_keys(
            s,
        ).contains(k) by {
            let j = choose|j: int| 0 <= j < snap_keys(dl).len() && snap_keys(dl)[j] == k;
            assert(snap_keys(s)[j] == k);
        }
        assert(snap_keys(s)[s.len() - 1] == last.key);
        assert(snap_keys(s).contains(last.key));
        if load_keep(last, nw2) {
            assert(load_map(s, nm2, nw2) =~= target);
        } else {
            assert(load_map(s, nm2, nw2) =~= target);
        }
    }
}

/// The snapshot round trip: a snapshot taken at one pair of clock readings
/// and loaded at another rebuilds exactly the bindings that were live at
/// the save and whose wall-clock deadlines have not passed by the load,
/// values unchanged, remaining time carried over to the loading clock.
pub proof fn lemma_snapshot_roundtrip(
    s: Seq<SnapshotEntryModel>,
    m: Map<Seq<u8>, EntryModel>,
    nm: u64,
    nw: u64,
    nm2: u64,
    nw2: u64,
)
    requires
        is_snapshot_of(s, m, nm, nw),
    ensures
        load_map(s, nm2, nw2) == Map::new(
            |k: Seq<u8>|
                m.contains_key(k) && !entry_expired(m[k], nm) && (match m[k].expires_at {
                    None => true,
                    Some(d) => wall_of(d, nm, nw) > nw2,
                }),
            |k: Seq<u8>|
                (EntryModel {
                    value: m[k].value,
                    expires_at: match m[k].expires_at {
                        None => None,
                        Some(d) => Some(mono_of(wall_of(d, nm, nw), nm2, nw2)),
                    },
                }),
        ),
{
    lemma_load_of_snapshot_entries(s, m, nm, nw, nm2, nw2);
    assert forall|k: Seq<u8>| #[trigger] snap_keys(s).contains(k) implies live_at(m, k, nm) by {
        let j = choose|j: int| 0 <= j < snap_keys(s).len() && snap_keys(s)[j] == k;
        assert(snap_keys(s)[j] == s[j].key);
        assert(live_at(m, s[j].key, nm));
    }
    assert(load_map(s, nm2, nw2) =~= Map::new(
        |k: Seq<u8>|
            m.contains_key(k) && !entry_expired(m[k], nm) && (match m[k].expires_at {
                None => true,
                Some(d) => wall_of(d, nm, nw) > nw2,
            }),
        |k: Seq<u8>|
            (EntryModel {
                value: m[k].value,
                expires_at: match m[k].expires_at {
                    None => None,
                    Some(d) => Some(mono_of(wall_of(d, nm, nw), nm2, nw2)),
                },
            }),
    ));
}

} // verus!
