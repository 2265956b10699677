//! The key space: a mapping from byte-string keys to typed entries, with
//! per-key expiration.
//!
//! The store is modelled as a `Map<Seq<u8>, EntryModel>`; the concrete
//! representation is an association vector with pairwise-distinct keys.
//! Two invariants are maintained: keys are unique, and a stored list is
//! never empty (draining a list removes the key).

use vstd::prelude::*;

use crate::bytes::bytes_eq;
use crate::bytes::copy_bytes;
use crate::bytes::views_of;
use crate::value::Entry;
use crate::value::EntryModel;
use crate::value::Value;
use crate::value::ValueModel;
use crate::value::entry_expired;

verus! {

/// One key together with its entry.
pub struct Slot {
    pub key: Vec<u8>,
    pub entry: Entry,
}

/// Mathematical model of a [`Slot`].
pub struct SlotModel {
    pub key: Seq<u8>,
    pub entry: EntryModel,
}

impl View for Slot {
    type V = SlotModel;

    open spec fn view(&self) -> SlotModel {
        SlotModel { key: self.key@, entry: self.entry@ }
    }
}

/// Some slot of `s` carries the key `k`.
pub open spec fn seq_has_key(s: Seq<SlotModel>, k: Seq<u8>) -> bool {
    exists|i: int| 0 <= i < s.len() && s[i].key == k
}

/// The position of the slot carrying `k`, when one exists.
pub open spec fn index_of_key(s: Seq<SlotModel>, k: Seq<u8>) -> int {
    choose|i: int| 0 <= i < s.len() && s[i].key == k
}

/// The key-to-entry mapping that a slot sequence represents.
pub open spec fn map_of_slots(s: Seq<SlotModel>) -> Map<Seq<u8>, EntryModel> {
    Map::new(|k: Seq<u8>| seq_has_key(s, k), |k: Seq<u8>| s[index_of_key(s, k)].entry)
}

/// No two slots carry the same key.
pub open spec fn unique_keys(s: Seq<SlotModel>) -> bool {
    forall|i: int, j: int| 0 <= i < j < s.len() ==> s[i].key != s[j].key
}

/// A list value holds at least one element.
pub open spec fn value_ok(v: ValueModel) -> bool {
    v matches ValueModel::List(l) ==> l.len() > 0
}

/// A list-valued entry holds at least one element.
pub open spec fn entry_ok(e: EntryModel) -> bool {
    value_ok(e.value)
}

/// Well-formed slot sequence: unique keys, and no empty lists.
pub open spec fn slots_ok(s: Seq<SlotModel>) -> bool {
    &&& unique_keys(s)
    &&& forall|i: int| 0 <= i < s.len() ==> entry_ok(#[trigger] s[i].entry)
}

/// In a unique-keys sequence, the slot at position `i` is the one that the
/// represented map associates with its key.
proof fn lemma_slot_index(s: Seq<SlotModel>, i: int)
    requires
        unique_keys(s),
        0 <= i < s.len(),
    ensures
        seq_has_key(s, s[i].key),
        index_of_key(s, s[i].key) == i,
        map_of_slots(s)[s[i].key] == s[i].entry,
{
    assert(seq_has_key(s, s[i].key)) by {
        assert(0 <= i < s.len() && s[i].key == s[i].key);
    }
    let j = index_of_key(s, s[i].key);
    assert(0 <= j < s.len() && s[j].key == s[i].key);
    if i < j {
        assert(false);
    }
    if j < i {
        assert(false);
    }
}

/// Appending a slot with a fresh key inserts its binding into the map.
proof fn lemma_map_push(s: Seq<SlotModel>, slot: SlotModel)
    requires
        slots_ok(s),
        entry_ok(slot.entry),
        !seq_has_key(s, slot.key),
    ensures
        slots_ok(s.push(slot)),
        map_of_slots(s.push(slot)) == map_of_slots(s).insert(slot.key, slot.entry),
{
    let s2 = s.push(slot);
    assert forall|i: int, j: int| 0 <= i < j < s2.len() implies s2[i].key != s2[j].key by {
        if j < s.len() {
            assert(s[i].key != s[j].key);
        } else {
            if s2[i].key == slot.key {
                assert(seq_has_key(s, slot.key)) by {
                    assert(0 <= i < s.len() && s[i].key == slot.key);
                }
            }
        }
    }
    assert forall|i: int| 0 <= i < s2.len() implies entry_ok(#[trigger] s2[i].entry) by {
        if i < s.len() {
            assert(entry_ok(s[i].entry));
        }
    }
    assert(map_of_slots(s2) =~= map_of_slots(s).insert(slot.key, slot.entry)) by {
        assert forall|k: Seq<u8>| #[trigger] seq_has_key(s2, k) implies seq_has_key(s, k) || k
            == slot.key by {
            let i = choose|i: int| 0 <= i < s2.len() && s2[i].key == k;
            if i < s.len() {
                assert(seq_has_key(s, k)) by {
                    assert(0 <= i < s.len() && s[i].key == k);
                }
            }
        }
        assert forall|k: Seq<u8>| seq_has_key(s, k) implies #[trigger] seq_has_key(s2, k)
            && map_of_slots(s2)[k] == map_of_slots(s)[k] by {
            let i = index_of_key(s, k);
            assert(0 <= i < s.len() && s[i].key == k);
            lemma_slot_index(s, i);
            assert(s2[i] == s[i]);
            lemma_slot_index(s2, i);
        }
        lemma_slot_index(s2, s.len() as int);
    }
}

/// Removing the slot at `i` removes its key's binding from the map.
proof fn lemma_map_remove(s: Seq<SlotModel>, i: int)
    requires
        slots_ok(s),
        0 <= i < s.len(),
    ensures
        slots_ok(s.remove(i)),
        !seq_has_key(s.remove(i), s[i].key),
        map_of_slots(s.remove(i)) == map_of_slots(s).remove(s[i].key),
{
    let s2 = s.remove(i);
    assert forall|a: int, b: int| 0 <= a < b < s2.len() implies s2[a].key != s2[b].key by {
        let a0 = if a < i { a } else { a + 1 };
        let b0 = if b < i { b } else { b + 1 };
        assert(s2[a] == s[a0]);
        assert(s2[b] == s[b0]);
        assert(s[a0].key != s[b0].key);
    }
    assert forall|a: int| 0 <= a < s2.len() implies entry_ok(#[trigger] s2[a].entry) by {
        let a0 = if a < i { a } else { a + 1 };
        assert(s2[a] == s[a0]);
        assert(entry_ok(s[a0].entry));
    }
    assert forall|a: int| 0 <= a < s2.len() implies s2[a].key != s[i].key by {
        let a0 = if a < i { a } else { a + 1 };
        assert(s2[a] == s[a0]);
        if a0 < i {
            assert(s[a0].key != s[i].key);
        } else {
            assert(s[i].key != s[a0].key);
        }
    }
    assert(map_of_slots(s2) =~= map_of_slots(s).remove(s[i].key)) by {
        assert forall|k: Seq<u8>| #[trigger] seq_has_key(s2, k) implies seq_has_key(s, k) && k
            != s[i].key && map_of_slots(s2)[k] == map_of_slots(s)[k] by {
            let a = index_of_key(s2, k);
            assert(0 <= a < s2.len() && s2[a].key == k);
            lemma_slot_index(s2, a);
            let a0 = if a < i { a } else { a + 1 };
            assert(s2[a] == s[a0]);
            lemma_slot_index(s, a0);
        }
        assert forall|k: Seq<u8>| seq_has_key(s, k) && k != s[i].key implies #[trigger]
            seq_has_key(s2, k) by {
            let a0 = index_of_key(s, k);
            assert(0 <= a0 < s.len() && s[a0].key == k);
            if a0 < i {
                assert(s2[a0] == s[a0]);
                assert(seq_has_key(s2, k)) by {
                    assert(0 <= a0 < s2.len() && s2[a0].key == k);
                }
            } else {
                assert(a0 != i);
                assert(s2[a0 - 1] == s[a0]);
                assert(seq_has_key(s2, k)) by {
                    assert(0 <= a0 - 1 < s2.len() && s2[a0 - 1].key == k);
                }
            }
        }
    }
}

/// The key `k` is bound in `m` and its entry has not expired at `now`.
pub open spec fn live_at(m: Map<Seq<u8>, EntryModel>, k: Seq<u8>, now: u64) -> bool {
    m.contains_key(k) && !entry_expired(m[k], now)
}

/// The slots that survive a sweep at `now`.
pub open spec fn keep_live(now: u64) -> spec_fn(SlotModel) -> bool {
    |s: SlotModel| !entry_expired(s.entry, now)
}

/// The bindings of `m` whose entries are live at `now`.
pub open spec fn live_restrict(m: Map<Seq<u8>, EntryModel>, now: u64) -> Map<
    Seq<u8>,
    EntryModel,
> {
    Map::new(|k: Seq<u8>| m.contains_key(k) && !entry_expired(m[k], now), |k: Seq<u8>| m[k])
}

/// Filtering a well-formed slot sequence down to its live slots restricts
/// the represented map to its live bindings.
proof fn lemma_map_of_live(s: Seq<SlotModel>, now: u64)
    requires
        slots_ok(s),
    ensures
        slots_ok(s.filter(keep_live(now))),
        map_of_slots(s.filter(keep_live(now))) == live_restrict(map_of_slots(s), now),
    decreases s.len(),
{
    reveal(Seq::filter);
    let f = s.filter(keep_live(now));
    if s.len() == 0 {
        assert(map_of_slots(f) =~= live_restrict(map_of_slots(s), now));
    } else {
        let dl = s.drop_last();
        let last = s.last();
        assert(slots_ok(dl)) by {
            assert(forall|i: int| 0 <= i < dl.len() ==> dl[i] == s[i]);
        }
        lemma_map_of_live(dl, now);
        let fdl = dl.filter(keep_live(now));
        assert(!seq_has_key(fdl, last.key)) by {
            if seq_has_key(fdl, last.key) {
                assert(map_of_slots(fdl).contains_key(last.key));
                assert(live_restrict(map_of_slots(dl), now).contains_key(last.key));
                assert(seq_has_key(dl, last.key));
                let i = choose|i: int| 0 <= i < dl.len() && dl[i].key == last.key;
                assert(s[i].key == s[s.len() - 1].key);
                assert(false);
            }
        }
        // Relate the submap over the prefix to the full map.
        assert forall|k: Seq<u8>| seq_has_key(dl, k) implies #[trigger] seq_has_key(s, k)
            && map_of_slots(dl)[k] == map_of_slots(s)[k] by {
            let i = index_of_key(dl, k);
            assert(0 <= i < dl.len() && dl[i].key == k);
            lemma_slot_index(dl, i);
            assert(s[i] == dl[i]);
            lemma_slot_index(s, i);
        }
        assert forall|k: Seq<u8>| seq_has_key(s, k) && k != last.key implies #[trigger]
            seq_has_key(dl, k) by {
            let i = index_of_key(s, k);
            assert(0 <= i < s.len() && s[i].key == k);
            assert(i != s.len() - 1);
            assert(dl[i] == s[i]);
            assert(0 <= i < dl.len() && dl[i].key == k);
        }
        lemma_slot_index(s, s.len() - 1);
        if keep_live(now)(last) {
            assert(f == fdl.push(last));
            lemma_map_push(fdl, last);
            assert(map_of_slots(f) =~= live_restrict(map_of_slots(s), now));
        } else {
            assert(f == fdl);
            assert(map_of_slots(f) =~= live_restrict(map_of_slots(s), now));
        }
    }
}

/// How one more element changes a filtered prefix.
proof fn lemma_filter_take_succ(s: Seq<SlotModel>, i: int, pred: spec_fn(SlotModel) -> bool)
    requires
        0 <= i < s.len(),
    ensures
        pred(s[i]) ==> s.take(i + 1).filter(pred) == s.take(i).filter(pred).push(s[i]),
        !pred(s[i]) ==> s.take(i + 1).filter(pred) == s.take(i).filter(pred),
{
    assert(s.take(i + 1) =~= s.take(i) + seq![s[i]]);
    Seq::filter_distributes_over_add(s.take(i), seq![s[i]], pred);
    reveal_with_fuel(Seq::filter, 2);
    assert(seq![s[i]].drop_last() =~= Seq::<SlotModel>::empty());
    if pred(s[i]) {
        assert(seq![s[i]].filter(pred) =~= seq![s[i]]);
        assert(s.take(i).filter(pred) + seq![s[i]] =~= s.take(i).filter(pred).push(s[i]));
    } else {
        assert(seq![s[i]].filter(pred) =~= Seq::<SlotModel>::empty());
        assert(s.take(i).filter(pred) + Seq::<SlotModel>::empty() =~= s.take(i).filter(pred));
    }
}

/// Taking keys commutes with appending a slot.
proof fn lemma_key_map_push(f: Seq<SlotModel>, x: SlotModel)
    ensures
        (f.push(x)).map_values(|s: SlotModel| s.key) == f.map_values(|s: SlotModel| s.key).push(
            x.key,
        ),
{
    let g = |s: SlotModel| s.key;
    assert forall|j: int| 0 <= j < f.len() + 1 implies #[trigger] (f.push(x)).map_values(g)[j]
        == f.map_values(g).push(x.key)[j] by {
        if j < f.len() {
            assert(f.push(x)[j] == f[j]);
        } else {
            assert(f.push(x)[j] == x);
        }
    }
    assert((f.push(x)).map_values(g) =~= f.map_values(g).push(x.key));
}

/// Taking slot models commutes with appending a slot.
proof fn lemma_slot_views_push(v: Seq<Slot>, x: Slot)
    ensures
        (v.push(x)).map_values(|s: Slot| s@) == v.map_values(|s: Slot| s@).push(x@),
{
    let g = |s: Slot| s@;
    assert forall|j: int| 0 <= j < v.len() + 1 implies #[trigger] (v.push(x)).map_values(g)[j]
        == v.map_values(g).push(x@)[j] by {
        if j < v.len() {
            assert(v.push(x)[j] == v[j]);
        } else {
            assert(v.push(x)[j] == x);
        }
    }
    assert((v.push(x)).map_values(g) =~= v.map_values(g).push(x@));
}

/// The outcome of a pop against a key.
pub enum PopOutcome {
    /// The key is absent or expired.
    Missing,
    /// The key holds a string, not a list.
    WrongKind,
    /// The removed element.
    Item(Vec<u8>),
}

/// The list after pushing `vs`: prepended in order when `front` is set,
/// appended in order otherwise.
pub open spec fn pushed_list(l: Seq<Seq<u8>>, vs: Seq<Seq<u8>>, front: bool) -> Seq<Seq<u8>> {
    if front {
        vs + l
    } else {
        l + vs
    }
}

/// The store: every present key maps to a live-or-not entry; liveness at a
/// clock reading is decided by [`entry_expired`].
pub struct Store {
    slots: Vec<Slot>,
}

impl View for Store {
    type V = Map<Seq<u8>, EntryModel>;

    closed spec fn view(&self) -> Map<Seq<u8>, EntryModel> {
        map_of_slots(self.slot_seq())
    }
}

impl Store {
    /// The represented slot sequence.
    pub closed spec fn slot_seq(&self) -> Seq<SlotModel> {
        self.slots@.map_values(|s: Slot| s@)
    }

    /// Well-formedness: unique keys, and no empty stored lists.
    pub closed spec fn wf(&self) -> bool {
        slots_ok(self.slot_seq())
    }

    /// In a well-formed store, no binding holds an empty list.
    pub proof fn lemma_wf_entries(&self)
        requires
            self.wf(),
        ensures
            forall|k: Seq<u8>| #[trigger] self@.contains_key(k) ==> entry_ok(self@[k]),
    {
        let s = self.slot_seq();
        assert forall|k: Seq<u8>| #[trigger] self@.contains_key(k) implies entry_ok(
            self@[k],
        ) by {
            let i = index_of_key(s, k);
            assert(0 <= i < s.len() && s[i].key == k);
            lemma_slot_index(s, i);
            assert(entry_ok(s[i].entry));
        }
    }

    /// A fresh, empty store.
    pub fn new() -> (r: Store)
        ensures
            r.wf(),
            r@ == Map::<Seq<u8>, EntryModel>::empty(),
    {
        let r = Store { slots: Vec::new() };
        proof {
            assert(r@ =~= Map::<Seq<u8>, EntryModel>::empty());
        }
        r
    }

    /// The position of `key`'s slot, if the key is present.
    fn find(&self, key: &Vec<u8>) -> (r: Option<usize>)
        requires
            self.wf(),
        ensures
            match r {
                Some(i) => {
                    &&& i < self.slot_seq().len()
                    &&& self.slot_seq()[i as int].key == key@
                    &&& index_of_key(self.slot_seq(), key@) == i
                    &&& self@.contains_key(key@)
                    &&& self@[key@] == self.slot_seq()[i as int].entry
                },
                None => !self@.contains_key(key@),
            },
    {
        let n = self.slots.len();
        let mut i: usize = 0;
        while i < n
            invariant
                self.wf(),
                n == self.slots@.len(),
                i <= n,
                forall|j: int| 0 <= j < i ==> self.slot_seq()[j].key != key@,
            decreases n - i,
        {
            if bytes_eq(&self.slots[i].key, key) {
                proof {
                    lemma_slot_index(self.slot_seq(), i as int);
                }
                return Some(i);
            }
            i += 1;
        }
        proof {
            assert(!seq_has_key(self.slot_seq(), key@));
        }
        None
    }

    /// A borrow of `key`'s entry, if the key is physically present. No
    /// liveness filter is applied: callers decide what an expired entry
    /// means for them.
    pub fn lookup(&self, key: &Vec<u8>) -> (r: Option<&Entry>)
        requires
            self.wf(),
        ensures
            match r {
                Some(e) => self@.contains_key(key@) && e@ == self@[key@],
                None => !self@.contains_key(key@),
            },
    {
        match self.find(key) {
            Some(i) => Some(&self.slots[i].entry),
            None => None,
        }
    }

    /// Binds `key` to `entry`, overwriting any previous binding of any type.
    pub fn upsert(&mut self, key: &Vec<u8>, entry: Entry)
        requires
            old(self).wf(),
            entry_ok(entry@),
        ensures
            final(self).wf(),
            final(self)@ == old(self)@.insert(key@, entry@),
    {
        let ghost s0 = self.slot_seq();
        match self.find(key) {
            Some(i) => {
                let mut slot = self.slots.remove(i);
                slot.entry = entry;
                self.slots.push(slot);
                proof {
                    assert(self.slot_seq() =~= s0.remove(i as int).push(
                        (SlotModel { key: key@, entry: entry@ }),
                    ));
                    lemma_map_remove(s0, i as int);
                    lemma_map_push(
                        s0.remove(i as int),
                        (SlotModel { key: key@, entry: entry@ }),
                    );
                    assert(map_of_slots(s0).remove(key@).insert(key@, entry@) =~= map_of_slots(
                        s0,
                    ).insert(key@, entry@));
                }
            },
            None => {
                self.slots.push(Slot { key: copy_bytes(key), entry });
                proof {
                    assert(self.slot_seq() =~= s0.push(
                        (SlotModel { key: key@, entry: entry@ }),
                    ));
                    lemma_map_push(s0, (SlotModel { key: key@, entry: entry@ }));
                }
            },
        }
    }

    /// Unbinds `key`; reports whether a binding (live or expired) was there.
    pub fn remove_key(&mut self, key: &Vec<u8>) -> (r: bool)
        requires
            old(self).wf(),
        ensures
            final(self).wf(),
            r == old(self)@.contains_key(key@),
            final(self)@ == old(self)@.remove(key@),
    {
        let ghost s0 = self.slot_seq();
        match self.find(key) {
            Some(i) => {
                self.slots.remove(i);
                proof {
                    assert(self.slot_seq() =~= s0.remove(i as int));
                    lemma_map_remove(s0, i as int);
                }
                true
            },
            None => {
                proof {
                    assert(old(self)@.remove(key@) =~= old(self)@);
                }
                false
            },
        }
    }

    /// Overwrites the deadline of `key`'s entry, whatever its liveness;
    /// reports whether the key was there.
    pub fn set_expiry(&mut self, key: &Vec<u8>, deadline: u64) -> (r: bool)
        requires
            old(self).wf(),
        ensures
            final(self).wf(),
            r == old(self)@.contains_key(key@),
            old(self)@.contains_key(key@) ==> final(self)@ == old(self)@.insert(
                key@,
                (EntryModel { value: old(self)@[key@].value, expires_at: Some(deadline) }),
            ),
            !old(self)@.contains_key(key@) ==> final(self)@ == old(self)@,
    {
        let ghost s0 = self.slot_seq();
        match self.find(key) {
            Some(i) => {
                let slot = self.slots.remove(i);
                let entry = Entry { value: slot.entry.value, expires_at: Some(deadline) };
                self.slots.push(Slot { key: slot.key, entry });
                proof {
                    let m = (SlotModel {
                        key: key@,
                        entry: (EntryModel {
                            value: s0[i as int].entry.value,
                            expires_at: Some(deadline),
                        }),
                    });
                    assert(self.slot_seq() =~= s0.remove(i as int).push(m));
                    lemma_map_remove(s0, i as int);
                    lemma_map_push(s0.remove(i as int), m);
                    assert(map_of_slots(s0).remove(key@).insert(m.key, m.entry)
                        =~= map_of_slots(s0).insert(m.key, m.entry));
                }
                true
            },
            None => false,
        }
    }

    /// Pushes copies of `vals` onto `key`'s list, creating the key (with no
    /// expiry) when it is absent, prepending in argument order when `front`
    /// is set and appending otherwise. No liveness filter is applied: an
    /// expired, unswept list accepts pushes and keeps its deadline. Returns
    /// the new length, or `None` when the key holds a string.
    pub fn list_push(&mut self, key: &Vec<u8>, vals: &Vec<Vec<u8>>, front: bool) -> (r: Option<
        usize,
    >)
        requires
            old(self).wf(),
            vals@.len() > 0,
        ensures
            final(self).wf(),
            !old(self)@.contains_key(key@) ==> {
                &&& r matches Some(n) && n == vals@.len()
                &&& final(self)@ == old(self)@.insert(
                    key@,
                    (EntryModel { value: ValueModel::List(views_of(vals@)), expires_at: None }),
                )
            },
            old(self)@.contains_key(key@) ==> match old(self)@[key@].value {
                ValueModel::Str(_) => r is None && final(self)@ == old(self)@,
                ValueModel::List(l) => {
                    &&& r matches Some(n) && n == l.len() + vals@.len()
                    &&& final(self)@ == old(self)@.insert(
                        key@,
                        (EntryModel {
                            value: ValueModel::List(pushed_list(l, views_of(vals@), front)),
                            expires_at: old(self)@[key@].expires_at,
                        }),
                    )
                },
            },
    {
        let ghost s0 = self.slot_seq();
        match self.find(key) {
            None => {
                let list = crate::bytes::copy_list(vals);
                let n = list.len();
                let entry = Entry { value: Value::List(list), expires_at: None };
                self.slots.push(Slot { key: copy_bytes(key), entry });
                proof {
                    let m = (SlotModel {
                        key: key@,
                        entry: (EntryModel {
                            value: ValueModel::List(views_of(vals@)),
                            expires_at: None,
                        }),
                    });
                    assert(self.slot_seq() =~= s0.push(m));
                    lemma_map_push(s0, m);
                }
                Some(n)
            },
            Some(i) => {
                let mut slot = self.slots.remove(i);
                proof {
                    lemma_map_remove(s0, i as int);
                    assert(self.slot_seq() =~= s0.remove(i as int));
                }
                let expires = slot.entry.expires_at;
                match slot.entry.value {
                    Value::Str(s) => {
                        let entry = Entry { value: Value::Str(s), expires_at: expires };
                        self.slots.push(Slot { key: slot.key, entry });
                        proof {
                            assert(self.slot_seq() =~= s0.remove(i as int).push(s0[i as int]));
                            lemma_map_push(s0.remove(i as int), s0[i as int]);
                            assert(map_of_slots(s0).remove(key@).insert(
                                s0[i as int].key,
                                s0[i as int].entry,
                            ) =~= map_of_slots(s0));
                        }
                        None
                    },
                    Value::List(mut l) => {
                        let ghost lv0 = views_of(l@);
                        let ghost vs = views_of(vals@);
                        if front {
                            let mut fresh = crate::bytes::copy_list(vals);
                            crate::bytes::append_copies(&mut fresh, &l);
                            l = fresh;
                        } else {
                            crate::bytes::append_copies(&mut l, vals);
                        }
                        proof {
                            assert(views_of(l@) == pushed_list(lv0, vs, front));
                        }
                        let n = l.len();
                        let entry = Entry { value: Value::List(l), expires_at: expires };
                        self.slots.push(Slot { key: slot.key, entry });
                        proof {
                            let m = (SlotModel {
                                key: key@,
                                entry: (EntryModel {
                                    value: ValueModel::List(pushed_list(lv0, vs, front)),
                                    expires_at: s0[i as int].entry.expires_at,
                                }),
                            });
                            assert(self.slot_seq() =~= s0.remove(i as int).push(m));
                            lemma_map_push(s0.remove(i as int), m);
                            assert(map_of_slots(s0).remove(key@).insert(m.key, m.entry)
                                =~= map_of_slots(s0).insert(m.key, m.entry));
                        }
                        Some(n)
                    },
                }
            },
        }
    }

    /// Removes and returns the front or back element of `key`'s list,
    /// dropping the key entirely when the list drains to empty. Absent and
    /// expired keys report `Missing`.
    pub fn list_pop(&mut self, key: &Vec<u8>, now: u64, front: bool) -> (r: PopOutcome)
        requires
            old(self).wf(),
        ensures
            final(self).wf(),
            !live_at(old(self)@, key@, now) ==> r is Missing && final(self)@ == old(self)@,
            live_at(old(self)@, key@, now) ==> match old(self)@[key@].value {
                ValueModel::Str(_) => r is WrongKind && final(self)@ == old(self)@,
                ValueModel::List(l) => {
                    &&& l.len() > 0
                    &&& r matches PopOutcome::Item(v) && v@ == if front {
                        l[0]
                    } else {
                        l.last()
                    }
                    &&& final(self)@ == if l.len() == 1 {
                        old(self)@.remove(key@)
                    } else {
                        old(self)@.insert(
                            key@,
                            (EntryModel {
                                value: ValueModel::List(
                                    if front {
                                        l.drop_first()
                                    } else {
                                        l.drop_last()
                                    },
                                ),
                                expires_at: old(self)@[key@].expires_at,
                            }),
                        )
                    }
                },
            },
    {
        let ghost s0 = self.slot_seq();
        match self.find(key) {
            None => PopOutcome::Missing,
            Some(i) => {
                if self.slots[i].entry.is_expired(now) {
                    return PopOutcome::Missing;
                }
                let mut slot = self.slots.remove(i);
                proof {
                    lemma_map_remove(s0, i as int);
                    assert(self.slot_seq() =~= s0.remove(i as int));
                }
                let expires = slot.entry.expires_at;
                match slot.entry.value {
                    Value::Str(s) => {
                        let entry = Entry { value: Value::Str(s), expires_at: expires };
                        self.slots.push(Slot { key: slot.key, entry });
                        proof {
                            assert(self.slot_seq() =~= s0.remove(i as int).push(s0[i as int]));
                            lemma_map_push(s0.remove(i as int), s0[i as int]);
                            assert(map_of_slots(s0).remove(key@).insert(
                                s0[i as int].key,
                                s0[i as int].entry,
                            ) =~= map_of_slots(s0));
                        }
                        PopOutcome::WrongKind
                    },
                    Value::List(mut l) => {
                        let ghost lv0 = views_of(l@);
                        proof {
                            assert(entry_ok(s0[i as int].entry));
                        }
                        let v = if front {
                            l.remove(0)
                        } else {
                            let j = l.len() - 1;
                            l.remove(j)
                        };
                        if l.len() == 0 {
                            PopOutcome::Item(v)
                        } else {
                            let entry = Entry { value: Value::List(l), expires_at: expires };
                            self.slots.push(Slot { key: slot.key, entry });
                            proof {
                                let m = (SlotModel {
                                    key: key@,
                                    entry: (EntryModel {
                                        value: ValueModel::List(
                                            if front {
                                                lv0.drop_first()
                                            } else {
                                                lv0.drop_last()
                                            },
                                        ),
                                        expires_at: s0[i as int].entry.expires_at,
                                    }),
                                });
                                assert(views_of(l@) =~= if front {
                                    lv0.drop_first()
                                } else {
                                    lv0.drop_last()
                                });
                                assert(self.slot_seq() =~= s0.remove(i as int).push(m));
                                lemma_map_push(s0.remove(i as int), m);
                                assert(map_of_slots(s0).remove(key@).insert(m.key, m.entry)
                                    =~= map_of_slots(s0).insert(m.key, m.entry));
                            }
                            PopOutcome::Item(v)
                        }
                    },
                }
            },
        }
    }

    /// Copies of all keys whose entries are live at `now`, without
    /// duplicates; the order is unspecified.
    pub fn live_keys(&self, now: u64) -> (r: Vec<Vec<u8>>)
        requires
            self.wf(),
        ensures
            views_of(r@).no_duplicates(),
            forall|k: Seq<u8>| #[trigger] views_of(r@).contains(k) <==> live_at(self@, k, now),
    {
        let ghost s0 = self.slot_seq();
        let mut out: Vec<Vec<u8>> = Vec::new();
        let n = self.slots.len();
        let mut i: usize = 0;
        while i < n
            invariant
                self.wf(),
                s0 == self.slot_seq(),
                n == self.slots@.len(),
                i <= n,
                views_of(out@) == s0.take(i as int).filter(keep_live(now)).map_values(
                    |s: SlotModel| s.key,
                ),
            decreases n - i,
        {
            proof {
                lemma_filter_take_succ(s0, i as int, keep_live(now));
            }
            if !self.slots[i].entry.is_expired(now) {
                let ghost o0 = out@;
                out.push(copy_bytes(&self.slots[i].key));
                proof {
                    let c = out@.last();
                    assert(out@ == o0.push(c));
                    assert(c@ == s0[i as int].key);
                    assert forall|j: int| 0 <= j < out@.len() implies #[trigger] views_of(out@)[j]
                        == views_of(o0).push(c@)[j] by {
                        if j < o0.len() {
                            assert(out@[j] == o0[j]);
                        } else {
                            assert(out@[j] == c);
                        }
                    }
                    assert(views_of(out@) =~= views_of(o0).push(c@));
                    lemma_key_map_push(s0.take(i as int).filter(keep_live(now)), s0[i as int]);
                }
            }
            i += 1;
        }
        proof {
            assert(s0.take(n as int) =~= s0);
            lemma_map_of_live(s0, now);
            let f = s0.filter(keep_live(now));
            let keys = f.map_values(|s: SlotModel| s.key);
            assert forall|a: int, b: int| 0 <= a < b < keys.len() implies keys[a] != keys[b] by {
                assert(f[a].key != f[b].key);
            }
            assert forall|k: Seq<u8>| #[trigger] keys.contains(k) implies live_at(self@, k, now) by {
                let a = choose|a: int| 0 <= a < keys.len() && keys[a] == k;
                lemma_slot_index(f, a);
                assert(map_of_slots(f).contains_key(k));
            }
            assert forall|k: Seq<u8>| live_at(self@, k, now) implies #[trigger] keys.contains(
                k,
            ) by {
                assert(map_of_slots(f).contains_key(k));
                let a = index_of_key(f, k);
                assert(0 <= a < f.len() && f[a].key == k);
                assert(keys[a] == k);
            }
        }
        out
    }

    /// The sweep: removes every entry whose deadline has been reached,
    /// leaving exactly the live bindings.
    pub fn cleanup_expired(&mut self, now: u64)
        requires
            old(self).wf(),
        ensures
            final(self).wf(),
            final(self)@ == live_restrict(old(self)@, now),
    {
        let ghost s0 = self.slot_seq();
        let mut kept: Vec<Slot> = Vec::new();
        let n = self.slots.len();
        let mut i: usize = 0;
        while i < n
            invariant
                old(self).wf(),
                s0 == self.slot_seq(),
                self.wf(),
                n == self.slots@.len(),
                i <= n,
                kept@.map_values(|s: Slot| s@) == s0.take(i as int).filter(keep_live(now)),
            decreases n - i,
        {
            proof {
                lemma_filter_take_succ(s0, i as int, keep_live(now));
            }
            if !self.slots[i].entry.is_expired(now) {
                let ghost k0 = kept@;
                let slot = Slot {
                    key: copy_bytes(&self.slots[i].key),
                    entry: crate::value::clone_entry(&self.slots[i].entry),
                };
                kept.push(slot);
                proof {
                    let c = kept@.last();
                    assert(kept@ == k0.push(c));
                    assert(c@ == s0[i as int]);
                    lemma_slot_views_push(k0, c);
                }
            }
            i += 1;
        }
        self.slots = kept;
        proof {
            assert(s0.take(n as int) =~= s0);
            lemma_map_of_live(s0, now);
            assert(self.slot_seq() =~= s0.filter(keep_live(now)));
        }
    }
}

} // verus!
