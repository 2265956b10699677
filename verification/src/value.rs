//! The stored value shapes and the per-entry expiration model.

use vstd::prelude::*;

use crate::bytes::copy_bytes;
use crate::bytes::copy_list;
use crate::bytes::views_of;

verus! {

/// A stored value: a scalar byte string or an ordered, non-empty list of
/// byte strings. Keys and values travel as whitespace-delimited text on the
/// wire, so bytes are the natural representation.
pub enum Value {
    Str(Vec<u8>),
    List(Vec<Vec<u8>>),
}

/// Mathematical model of a [`Value`].
pub enum ValueModel {
    Str(Seq<u8>),
    List(Seq<Seq<u8>>),
}

impl View for Value {
    type V = ValueModel;

    open spec fn view(&self) -> ValueModel {
        match self {
            Value::Str(s) => ValueModel::Str(s@),
            Value::List(l) => ValueModel::List(l@.map_values(|v: Vec<u8>| v@)),
        }
    }
}

/// The stored unit per key: a typed value plus an optional absolute
/// monotonic-clock deadline, in seconds.
pub struct Entry {
    pub value: Value,
    pub expires_at: Option<u64>,
}

/// Mathematical model of an [`Entry`].
pub struct EntryModel {
    pub value: ValueModel,
    pub expires_at: Option<u64>,
}

impl View for Entry {
    type V = EntryModel;

    open spec fn view(&self) -> EntryModel {
        EntryModel { value: self.value@, expires_at: self.expires_at }
    }
}

/// An entry is expired exactly when it carries a deadline that `now` has
/// reached. Expiration is one-directional: once `now` reaches the deadline
/// the entry is dead for every later reading as well.
pub open spec fn entry_expired(e: EntryModel, now: u64) -> bool {
    match e.expires_at {
        Some(d) => d <= now,
        None => false,
    }
}

/// An owned copy of a value.
pub fn clone_value(v: &Value) -> (r: Value)
    ensures
        r@ == v@,
{
    match v {
        Value::Str(s) => Value::Str(copy_bytes(s)),
        Value::List(l) => {
            let out = copy_list(l);
            proof {
                assert(views_of(out@) == views_of(l@));
            }
            Value::List(out)
        },
    }
}

/// An owned copy of an entry.
pub fn clone_entry(e: &Entry) -> (r: Entry)
    ensures
        r@ == e@,
{
    Entry { value: clone_value(&e.value), expires_at: e.expires_at }
}

impl Entry {
    /// True iff this entry's deadline, if any, has been reached at `now`.
    pub fn is_expired(&self, now: u64) -> (r: bool)
        ensures
            r == entry_expired(self@, now),
    {
        match self.expires_at {
            Some(d) => d <= now,
            None => false,
        }
    }
}

} // verus!
