//! The command processor: from a tokenized request to a response and a
//! store mutation.
//!
//! Every command that reads or writes the key space is interpreted here,
//! against an explicit clock reading. The three persistence commands
//! perform file I/O and are handed back to the caller as actions.

use vstd::prelude::*;

use vstd::string::StrSliceExecFns;
use vstd::string::StringSliceAdditionalSpecFns;

use crate::bytes::bytes_eq;
use crate::bytes::copy_bytes;
use crate::bytes::copy_range;
use crate::bytes::copy_tail;
use crate::bytes::views_of;
use crate::num::dec_val;
use crate::num::parse_i64;
use crate::num::parse_u64;
use crate::num::sat_add;
use crate::num::sat_add_u64;
use crate::num::is_u64_text;
use crate::num::is_i64_text;
use crate::num::int_val;
use crate::num::u64_digits;
use crate::resp::Resp;
use crate::resp::RespModel;
use crate::store::PopOutcome;
use crate::store::Store;
use crate::store::live_at;
use crate::store::pushed_list;
use crate::tokenize::tokenize;
use crate::tokenize::tokens_of;
use crate::value::Entry;
use crate::value::EntryModel;
use crate::value::Value;
use crate::value::ValueModel;

verus! {

// ---------------------------------------------------------------------------
// Labels and messages
// ---------------------------------------------------------------------------
/// The success label.
pub open spec fn ok_msg() -> Seq<u8> {
    "OK".spec_bytes()
}

/// The liveness-check label.
pub open spec fn pong_msg() -> Seq<u8> {
    "PONG".spec_bytes()
}

/// The label of string-typed keys.
pub open spec fn string_label() -> Seq<u8> {
    "string".spec_bytes()
}

/// The label of list-typed keys.
pub open spec fn list_label() -> Seq<u8> {
    "list".spec_bytes()
}

/// The label of absent keys.
pub open spec fn none_label() -> Seq<u8> {
    "none".spec_bytes()
}

/// The error message for a blank request line.
pub open spec fn msg_empty() -> Seq<u8> {
    "empty command".spec_bytes()
}

/// The error message for an unrecognized command word.
pub open spec fn msg_unknown() -> Seq<u8> {
    "unknown command".spec_bytes()
}

/// The error message for an operation against a key of the other type.
pub open spec fn msg_wrong_kind() -> Seq<u8> {
    "Operation against a key holding the wrong kind of value".spec_bytes()
}

/// The error message for a malformed `EX` argument.
pub open spec fn msg_bad_expire() -> Seq<u8> {
    "invalid expire time".spec_bytes()
}

// ---------------------------------------------------------------------------
// Upper-casing the command word
// ---------------------------------------------------------------------------
/// ASCII upper-casing of one byte.
pub open spec fn upper_byte(b: u8) -> u8 {
    if 97 <= b <= 122 {
        (b - 32) as u8
    } else {
        b
    }
}

/// ASCII upper-casing of a byte string.
pub open spec fn upper_seq(s: Seq<u8>) -> Seq<u8> {
    s.map_values(|b: u8| upper_byte(b))
}

/// Upper-cases a token, so command words match case-insensitively.
fn to_upper(s: &Vec<u8>) -> (r: Vec<u8>)
    ensures
        r@ == upper_seq(s@),
{
    let mut out: Vec<u8> = Vec::new();
    let mut i: usize = 0;
    proof {
        assert(out@ =~= upper_seq(s@).take(0));
    }
    while i < s.len()
        invariant
            i <= s@.len(),
            out@ == upper_seq(s@).take(i as int),
        decreases s@.len() - i,
    {
        let b = s[i];
        if b >= 97 && b <= 122 {
            out.push(b - 32);
        } else {
            out.push(b);
        }
        proof {
            assert(out@ =~= upper_seq(s@).take(i + 1));
        }
        i += 1;
    }
    proof {
        assert(upper_seq(s@).take(s@.len() as int) =~= upper_seq(s@));
    }
    out
}

// ---------------------------------------------------------------------------
// The parsed command
// ---------------------------------------------------------------------------
/// The command that a token sequence denotes.
#[allow(non_camel_case_types)]
pub enum CmdModel {
    /// Bind a string value, with an optional time to live in seconds.
    SET { key: Seq<u8>, val: Seq<u8>, ex: Option<u64> },
    /// A `SET` whose `EX` argument is not a number.
    SET_BAD_EX,
    GET { key: Seq<u8> },
    DEL { key: Seq<u8> },
    KEYS,
    TYPE { key: Seq<u8> },
    EXPIRE { key: Seq<u8>, secs: Option<u64> },
    TTL { key: Seq<u8> },
    /// `LPUSH` (front) or `RPUSH` (back).
    PUSH { key: Seq<u8>, vals: Seq<Seq<u8>>, front: bool },
    /// `LPOP` (front) or `RPOP` (back).
    POP { key: Seq<u8>, front: bool },
    LLEN { key: Seq<u8> },
    LRANGE { key: Seq<u8>, start: int, stop: int },
    SAVE,
    BGSAVE,
    LASTSAVE,
    PING,
    /// A recognized command with the wrong number of arguments; carries its
    /// usage message.
    USAGE { msg: Seq<u8> },
    /// A blank request line.
    EMPTY,
    /// An unrecognized command word.
    UNKNOWN,
}

/// The optional seconds argument of `EXPIRE`: `None` when malformed.
pub open spec fn parse_secs(t: Seq<u8>) -> Option<u64> {
    if is_u64_text(t) {
        Some(dec_val(u64_digits(t)) as u64)
    } else {
        None
    }
}

/// A bound argument of `LRANGE`, with its silent fallback default.
pub open spec fn parse_bound(t: Seq<u8>, default: int) -> int {
    if is_i64_text(t) {
        int_val(t)
    } else {
        default
    }
}

/// What a `SET` request denotes, once the word itself matched.
pub open spec fn parse_set(toks: Seq<Seq<u8>>) -> CmdModel {
    if toks.len() < 3 {
        CmdModel::USAGE { msg: "usage: SET key value [EX seconds]".spec_bytes() }
    } else if toks.len() >= 5 && upper_seq(toks[3]) == "EX".spec_bytes() {
        match parse_secs(toks[4]) {
            Some(secs) => CmdModel::SET { key: toks[1], val: toks[2], ex: Some(secs) },
            None => CmdModel::SET_BAD_EX,
        }
    } else {
        CmdModel::SET { key: toks[1], val: toks[2], ex: None }
    }
}

/// The command denoted by a token sequence: the first token is the command
/// word, matched case-insensitively.
pub open spec fn parse_cmd(toks: Seq<Seq<u8>>) -> CmdModel {
    if toks.len() == 0 {
        CmdModel::EMPTY
    } else {
        let c = upper_seq(toks[0]);
        if c == "SET".spec_bytes() {
            parse_set(toks)
        } else if c == "GET".spec_bytes() {
            if toks.len() != 2 {
                CmdModel::USAGE { msg: "usage: GET key".spec_bytes() }
            } else {
                CmdModel::GET { key: toks[1] }
            }
        } else if c == "LPUSH".spec_bytes() {
            if toks.len() < 3 {
                CmdModel::USAGE { msg: "usage: LPUSH key value [value ...]".spec_bytes() }
            } else {
                CmdModel::PUSH { key: toks[1], vals: toks.skip(2), front: true }
            }
        } else if c == "RPUSH".spec_bytes() {
            if toks.len() < 3 {
                CmdModel::USAGE { msg: "usage: RPUSH key value [value ...]".spec_bytes() }
            } else {
                CmdModel::PUSH { key: toks[1], vals: toks.skip(2), front: false }
            }
        } else if c == "LPOP".spec_bytes() {
            if toks.len() != 2 {
                CmdModel::USAGE { msg: "usage: LPOP key".spec_bytes() }
            } else {
                CmdModel::POP { key: toks[1], front: true }
            }
        } else if c == "RPOP".spec_bytes() {
            if toks.len() != 2 {
                CmdModel::USAGE { msg: "usage: RPOP key".spec_bytes() }
            } else {
                CmdModel::POP { key: toks[1], front: false }
            }
        } else if c == "LLEN".spec_bytes() {
            if toks.len() != 2 {
                CmdModel::USAGE { msg: "usage: LLEN key".spec_bytes() }
            } else {
                CmdModel::LLEN { key: toks[1] }
            }
        } else if c == "LRANGE".spec_bytes() {
            if toks.len() != 4 {
                CmdModel::USAGE { msg: "usage: LRANGE key start stop".spec_bytes() }
            } else {
                CmdModel::LRANGE {
                    key: toks[1],
                    start: parse_bound(toks[2], 0),
                    stop: parse_bound(toks[3], -1),
                }
            }
        } else if c == "SAVE".spec_bytes() {
            CmdModel::SAVE
        } else if c == "BGSAVE".spec_bytes() {
            CmdModel::BGSAVE
        } else if c == "LASTSAVE".spec_bytes() {
            CmdModel::LASTSAVE
        } else if c == "EXPIRE".spec_bytes() {
            if toks.len() != 3 {
                CmdModel::USAGE { msg: "usage: EXPIRE key seconds".spec_bytes() }
            } else {
                CmdModel::EXPIRE { key: toks[1], secs: parse_secs(toks[2]) }
            }
        } else if c == "TTL".spec_bytes() {
            if toks.len() != 2 {
                CmdModel::USAGE { msg: "usage: TTL key".spec_bytes() }
            } else {
                CmdModel::TTL { key: toks[1] }
            }
        } else if c == "DEL".spec_bytes() {
            if toks.len() != 2 {
                CmdModel::USAGE { msg: "usage: DEL key".spec_bytes() }
            } else {
                CmdModel::DEL { key: toks[1] }
            }
        } else if c == "KEYS".spec_bytes() {
            CmdModel::KEYS
        } else if c == "TYPE".spec_bytes() {
            if toks.len() != 2 {
                CmdModel::USAGE { msg: "usage: TYPE key".spec_bytes() }
            } else {
                CmdModel::TYPE { key: toks[1] }
            }
        } else if c == "PING".spec_bytes() {
            CmdModel::PING
        } else {
            CmdModel::UNKNOWN
        }
    }
}

// ---------------------------------------------------------------------------
// Per-command read results
// ---------------------------------------------------------------------------
/// What `GET` answers: the string value of a live key, nil when absent or
/// expired, and the wrong-kind error against a list.
pub open spec fn get_result(m: Map<Seq<u8>, EntryModel>, k: Seq<u8>, now: u64) -> RespModel {
    if live_at(m, k, now) {
        match m[k].value {
            ValueModel::Str(s) => RespModel::Bulk(s),
            ValueModel::List(_) => RespModel::Error(msg_wrong_kind()),
        }
    } else {
        RespModel::Nil
    }
}

/// What `TYPE` answers: the live type's label, or `none`.
pub open spec fn type_result(m: Map<Seq<u8>, EntryModel>, k: Seq<u8>, now: u64) -> RespModel {
    if live_at(m, k, now) {
        match m[k].value {
            ValueModel::Str(_) => RespModel::Simple(string_label()),
            ValueModel::List(_) => RespModel::Simple(list_label()),
        }
    } else {
        RespModel::Simple(none_label())
    }
}

/// What `TTL` answers: `-2` for an absent key, `-1` for a key with no
/// deadline, else the whole seconds left (zero once expired). The check is
/// physical: an expired key not yet swept reports `0`, not `-2`.
pub open spec fn ttl_result(m: Map<Seq<u8>, EntryModel>, k: Seq<u8>, now: u64) -> RespModel {
    if !m.contains_key(k) {
        RespModel::Int(-2i64)
    } else {
        match m[k].expires_at {
            None => RespModel::Int(-1i64),
            Some(d) => RespModel::Uint(
                if d > now {
                    (d - now) as u64
                } else {
                    0
                },
            ),
        }
    }
}

/// What `LLEN` answers: the live list's length, `0` when absent or
/// expired, and the wrong-kind error against a string.
pub open spec fn llen_result(m: Map<Seq<u8>, EntryModel>, k: Seq<u8>, now: u64) -> RespModel {
    if live_at(m, k, now) {
        match m[k].value {
            ValueModel::Str(_) => RespModel::Error(msg_wrong_kind()),
            ValueModel::List(l) => RespModel::Uint(l.len() as u64),
        }
    } else {
        RespModel::Uint(0)
    }
}

/// What `LRANGE` answers: the inclusive element range, with negative
/// indices counted from the end and both bounds clamped to the list; an
/// empty array when the clamped range is empty, the key absent or expired.
pub open spec fn lrange_result(
    m: Map<Seq<u8>, EntryModel>,
    k: Seq<u8>,
    start: int,
    stop: int,
    now: u64,
) -> RespModel {
    if live_at(m, k, now) {
        match m[k].value {
            ValueModel::Str(_) => RespModel::Error(msg_wrong_kind()),
            ValueModel::List(l) => {
                let a0 = if start < 0 {
                    l.len() + start
                } else {
                    start
                };
                let a = if a0 < 0 {
                    0
                } else {
                    a0
                };
                let b0 = if stop < 0 {
                    l.len() + stop
                } else {
                    stop
                };
                let b = if b0 > l.len() - 1 {
                    l.len() - 1
                } else {
                    b0
                };
                if a > b {
                    RespModel::Array(Seq::empty())
                } else {
                    RespModel::Array(l.subrange(a, b + 1))
                }
            },
        }
    } else {
        RespModel::Array(Seq::empty())
    }
}

// ---------------------------------------------------------------------------
// Per-command mutation steps
// ---------------------------------------------------------------------------
/// How `SET` changes the key space: an unconditional overwrite, with the
/// deadline `secs` after `now` when `EX` was given.
pub open spec fn set_step(
    m: Map<Seq<u8>, EntryModel>,
    k: Seq<u8>,
    v: Seq<u8>,
    ex: Option<u64>,
    now: u64,
) -> Map<Seq<u8>, EntryModel> {
    m.insert(
        k,
        EntryModel {
            value: ValueModel::Str(v),
            expires_at: match ex {
                Some(secs) => Some(sat_add(now, secs)),
                None => None,
            },
        },
    )
}

/// How `EXPIRE` changes the key space and what it answers: the deadline is
/// overwritten whenever the key is physically present, liveness unchecked.
pub open spec fn expire_step(m: Map<Seq<u8>, EntryModel>, k: Seq<u8>, secs: u64, now: u64) -> (
    Map<Seq<u8>, EntryModel>,
    RespModel,
) {
    if m.contains_key(k) {
        (
            m.insert(
                k,
                EntryModel { value: m[k].value, expires_at: Some(sat_add(now, secs)) },
            ),
            RespModel::Int(1),
        )
    } else {
        (m, RespModel::Int(0))
    }
}

/// How a push changes the key space and what it answers: the wrong-kind
/// error against a string; otherwise the list grows (prepended in argument
/// order at the front, appended at the back), the key being created with no
/// expiry when absent. Liveness is unchecked: an expired, unswept list
/// accepts pushes and keeps its deadline.
pub open spec fn push_step(
    m: Map<Seq<u8>, EntryModel>,
    k: Seq<u8>,
    vals: Seq<Seq<u8>>,
    front: bool,
) -> (Map<Seq<u8>, EntryModel>, RespModel) {
    if m.contains_key(k) {
        match m[k].value {
            ValueModel::Str(_) => (m, RespModel::Error(msg_wrong_kind())),
            ValueModel::List(l) => (
                m.insert(
                    k,
                    EntryModel {
                        value: ValueModel::List(pushed_list(l, vals, front)),
                        expires_at: m[k].expires_at,
                    },
                ),
                RespModel::Uint(((l.len() + vals.len()) as u64)),
            ),
        }
    } else {
        (
            m.insert(k, EntryModel { value: ValueModel::List(vals), expires_at: None }),
            RespModel::Uint((vals.len() as u64)),
        )
    }
}

/// How a pop changes the key space and what it answers: nil when absent or
/// expired, the wrong-kind error against a string, else the front or back
/// element leaves; a drained list takes its key with it. A stored list is
/// never empty, so the empty-list case is vacuous on well-formed stores.
pub open spec fn pop_step(m: Map<Seq<u8>, EntryModel>, k: Seq<u8>, front: bool, now: u64) -> (
    Map<Seq<u8>, EntryModel>,
    RespModel,
) {
    if !live_at(m, k, now) {
        (m, RespModel::Nil)
    } else {
        match m[k].value {
            ValueModel::Str(_) => (m, RespModel::Error(msg_wrong_kind())),
            ValueModel::List(l) => {
                if l.len() == 0 {
                    (m, RespModel::Nil)
                } else {
                    (
                        if l.len() == 1 {
                            m.remove(k)
                        } else {
                            m.insert(
                                k,
                                EntryModel {
                                    value: ValueModel::List(
                                        if front {
                                            l.drop_first()
                                        } else {
                                            l.drop_last()
                                        },
                                    ),
                                    expires_at: m[k].expires_at,
                                },
                            )
                        },
                        RespModel::Bulk(
                            if front {
                                l[0]
                            } else {
                                l.last()
                            },
                        ),
                    )
                }
            },
        }
    }
}

// ---------------------------------------------------------------------------
// The processor's contract
// ---------------------------------------------------------------------------
/// What the processor hands back: a finished reply, or a persistence
/// action that the caller must perform (the engine does no file I/O).
pub enum Outcome {
    Reply(Resp),
    /// Write a snapshot now and reply with its result.
    DoSave,
    /// Start a background snapshot and acknowledge.
    DoBgSave,
    /// Report the snapshot file's timestamp.
    DoLastSave,
}

/// Mathematical model of an [`Outcome`].
pub enum OutcomeModel {
    Reply(RespModel),
    DoSave,
    DoBgSave,
    DoLastSave,
}

impl View for Outcome {
    type V = OutcomeModel;

    open spec fn view(&self) -> OutcomeModel {
        match self {
            Outcome::Reply(r) => OutcomeModel::Reply(r@),
            Outcome::DoSave => OutcomeModel::DoSave,
            Outcome::DoBgSave => OutcomeModel::DoBgSave,
            Outcome::DoLastSave => OutcomeModel::DoLastSave,
        }
    }
}

/// The full operational contract of one command: how the key space `m0`
/// becomes `m1`, and which outcome is produced, for the request `toks` at
/// clock reading `now`.
pub open spec fn outcome_matches(
    m0: Map<Seq<u8>, EntryModel>,
    m1: Map<Seq<u8>, EntryModel>,
    toks: Seq<Seq<u8>>,
    now: u64,
    o: OutcomeModel,
) -> bool {
    match parse_cmd(toks) {
        CmdModel::EMPTY => m1 == m0 && o == OutcomeModel::Reply(RespModel::Error(msg_empty())),
        CmdModel::UNKNOWN => m1 == m0 && o == OutcomeModel::Reply(
            RespModel::Error(msg_unknown()),
        ),
        CmdModel::USAGE { msg } => m1 == m0 && o == OutcomeModel::Reply(RespModel::Error(msg)),
        CmdModel::PING => m1 == m0 && o == OutcomeModel::Reply(RespModel::Simple(pong_msg())),
        CmdModel::SAVE => m1 == m0 && o == OutcomeModel::DoSave,
        CmdModel::BGSAVE => m1 == m0 && o == OutcomeModel::DoBgSave,
        CmdModel::LASTSAVE => m1 == m0 && o == OutcomeModel::DoLastSave,
        CmdModel::SET { key, val, ex } => {
            &&& m1 == set_step(m0, key, val, ex, now)
            &&& o == OutcomeModel::Reply(RespModel::Simple(ok_msg()))
        },
        CmdModel::SET_BAD_EX => m1 == m0 && o == OutcomeModel::Reply(
            RespModel::Error(msg_bad_expire()),
        ),
        CmdModel::GET { key } => m1 == m0 && o == OutcomeModel::Reply(get_result(m0, key, now)),
        CmdModel::DEL { key } => {
            &&& m1 == m0.remove(key)
            &&& o == OutcomeModel::Reply(
                RespModel::Int(
                    if m0.contains_key(key) {
                        1
                    } else {
                        0
                    },
                ),
            )
        },
        CmdModel::KEYS => {
            &&& m1 == m0
            &&& o matches OutcomeModel::Reply(RespModel::Array(keys))
            &&& (o matches OutcomeModel::Reply(RespModel::Array(keys)) ==> keys.no_duplicates()
                && (forall|k: Seq<u8>| #[trigger] keys.contains(k) <==> live_at(m0, k, now)))
        },
        CmdModel::TYPE { key } => m1 == m0 && o == OutcomeModel::Reply(
            type_result(m0, key, now),
        ),
        CmdModel::EXPIRE { key, secs } => match secs {
            None => m1 == m0 && o == OutcomeModel::Reply(RespModel::Int(0)),
            Some(s) => m1 == expire_step(m0, key, s, now).0 && o == OutcomeModel::Reply(
                expire_step(m0, key, s, now).1,
            ),
        },
        CmdModel::TTL { key } => m1 == m0 && o == OutcomeModel::Reply(ttl_result(m0, key, now)),
        CmdModel::PUSH { key, vals, front } => {
            &&& m1 == push_step(m0, key, vals, front).0
            &&& o == OutcomeModel::Reply(push_step(m0, key, vals, front).1)
        },
        CmdModel::POP { key, front } => {
            &&& (live_at(m0, key, now) ==> crate::store::entry_ok(m0[key]))
            &&& m1 == pop_step(m0, key, front, now).0
            &&& o == OutcomeModel::Reply(pop_step(m0, key, front, now).1)
        },
        CmdModel::LLEN { key } => m1 == m0 && o == OutcomeModel::Reply(
            llen_result(m0, key, now),
        ),
        CmdModel::LRANGE { key, start, stop } => m1 == m0 && o == OutcomeModel::Reply(
            lrange_result(m0, key, start, stop, now),
        ),
    }
}

// ---------------------------------------------------------------------------
// The processor
// ---------------------------------------------------------------------------
/// A usage-error reply.
fn usage(msg: Vec<u8>) -> (r: Outcome)
    ensures
        r@ == OutcomeModel::Reply(RespModel::Error(msg@)),
{
    Outcome::Reply(Resp::Error(msg))
}

/// The wrong-kind error reply.
fn wrong_kind() -> (r: Outcome)
    ensures
        r@ == OutcomeModel::Reply(RespModel::Error(msg_wrong_kind())),
{
    Outcome::Reply(
        Resp::Error("Operation against a key holding the wrong kind of value".as_bytes_vec()),
    )
}

/// Interprets one tokenized request against the store at clock reading
/// `now`.
pub fn process_tokens(tokens: &Vec<Vec<u8>>, store: &mut Store, now: u64) -> (r: Outcome)
    requires
        old(store).wf(),
    ensures
        final(store).wf(),
        outcome_matches(old(store)@, final(store)@, views_of(tokens@), now, r@),
{
    let ghost toks = views_of(tokens@);
    if tokens.len() == 0 {
        return Outcome::Reply(Resp::Error("empty command".as_bytes_vec()));
    }
    proof {
        assert(toks[0] == tokens@[0]@);
        assert(toks.len() == tokens@.len());
    }
    let cmd = to_upper(&tokens[0]);
    if bytes_eq(&cmd, &"SET".as_bytes_vec()) {
        if tokens.len() < 3 {
            return usage("usage: SET key value [EX seconds]".as_bytes_vec());
        }
        proof {
            assert(toks[1] == tokens@[1]@);
            assert(toks[2] == tokens@[2]@);
        }
        let mut deadline: Option<u64> = None;
        if tokens.len() >= 5 {
            proof {
                assert(toks[3] == tokens@[3]@);
                assert(toks[4] == tokens@[4]@);
            }
            let w = to_upper(&tokens[3]);
            if bytes_eq(&w, &"EX".as_bytes_vec()) {
                match parse_u64(&tokens[4]) {
                    Some(secs) => {
                        deadline = Some(sat_add_u64(now, secs));
                    },
                    None => {
                        return Outcome::Reply(Resp::Error("invalid expire time".as_bytes_vec()));
                    },
                }
            }
        }
        let entry = Entry { value: Value::Str(copy_bytes(&tokens[2])), expires_at: deadline };
        store.upsert(&tokens[1], entry);
        return Outcome::Reply(Resp::Simple("OK".as_bytes_vec()));
    }
    if bytes_eq(&cmd, &"GET".as_bytes_vec()) {
        if tokens.len() != 2 {
            return usage("usage: GET key".as_bytes_vec());
        }
        proof {
            assert(toks[1] == tokens@[1]@);
        }
        return match store.lookup(&tokens[1]) {
            Some(e) => {
                if e.is_expired(now) {
                    Outcome::Reply(Resp::Nil)
                } else {
                    match &e.value {
                        Value::Str(s) => Outcome::Reply(Resp::Bulk(copy_bytes(s))),
                        Value::List(_) => wrong_kind(),
                    }
                }
            },
            None => Outcome::Reply(Resp::Nil),
        };
    }
    if bytes_eq(&cmd, &"LPUSH".as_bytes_vec()) {
        if tokens.len() < 3 {
            return usage("usage: LPUSH key value [value ...]".as_bytes_vec());
        }
        return push_cmd(tokens, store, true);
    }
    if bytes_eq(&cmd, &"RPUSH".as_bytes_vec()) {
        if tokens.len() < 3 {
            return usage("usage: RPUSH key value [value ...]".as_bytes_vec());
        }
        return push_cmd(tokens, store, false);
    }
    if bytes_eq(&cmd, &"LPOP".as_bytes_vec()) {
        if tokens.len() != 2 {
            return usage("usage: LPOP key".as_bytes_vec());
        }
        return pop_cmd(tokens, store, now, true);
    }
    if bytes_eq(&cmd, &"RPOP".as_bytes_vec()) {
        if tokens.len() != 2 {
            return usage("usage: RPOP key".as_bytes_vec());
        }
        return pop_cmd(tokens, store, now, false);
    }
    if bytes_eq(&cmd, &"LLEN".as_bytes_vec()) {
        if tokens.len() != 2 {
            return usage("usage: LLEN key".as_bytes_vec());
        }
        proof {
            assert(toks[1] == tokens@[1]@);
        }
        return match store.lookup(&tokens[1]) {
            Some(e) => {
                if e.is_expired(now) {
                    Outcome::Reply(Resp::Uint(0))
                } else {
                    match &e.value {
                        Value::Str(_) => wrong_kind(),
                        Value::List(l) => Outcome::Reply(Resp::Uint(l.len() as u64)),
                    }
                }
            },
            None => Outcome::Reply(Resp::Uint(0)),
        };
    }
    if bytes_eq(&cmd, &"LRANGE".as_bytes_vec()) {
        if tokens.len() != 4 {
            return usage("usage: LRANGE key start stop".as_bytes_vec());
        }
        return lrange_cmd(tokens, store, now);
    }
    if bytes_eq(&cmd, &"SAVE".as_bytes_vec()) {
        return Outcome::DoSave;
    }
    if bytes_eq(&cmd, &"BGSAVE".as_bytes_vec()) {
        return Outcome::DoBgSave;
    }
    if bytes_eq(&cmd, &"LASTSAVE".as_bytes_vec()) {
        return Outcome::DoLastSave;
    }
    if bytes_eq(&cmd, &"EXPIRE".as_bytes_vec()) {
        if tokens.len() != 3 {
            return usage("usage: EXPIRE key seconds".as_bytes_vec());
        }
        proof {
            assert(toks[1] == tokens@[1]@);
            assert(toks[2] == tokens@[2]@);
        }
        return match parse_u64(&tokens[2]) {
            None => Outcome::Reply(Resp::Int(0)),
            Some(secs) => {
                let d = sat_add_u64(now, secs);
                if store.set_expiry(&tokens[1], d) {
                    Outcome::Reply(Resp::Int(1))
                } else {
                    Outcome::Reply(Resp::Int(0))
                }
            },
        };
    }
    if bytes_eq(&cmd, &"TTL".as_bytes_vec()) {
        if tokens.len() != 2 {
            return usage("usage: TTL key".as_bytes_vec());
        }
        proof {
            assert(toks[1] == tokens@[1]@);
        }
        return match store.lookup(&tokens[1]) {
            None => Outcome::Reply(Resp::Int(-2)),
            Some(e) => match e.expires_at {
                None => Outcome::Reply(Resp::Int(-1)),
                Some(d) => Outcome::Reply(
                    Resp::Uint(
                        if d > now {
                            d - now
                        } else {
                            0
                        },
                    ),
                ),
            },
        };
    }
    if bytes_eq(&cmd, &"DEL".as_bytes_vec()) {
        if tokens.len() != 2 {
            return usage("usage: DEL key".as_bytes_vec());
        }
        proof {
            assert(toks[1] == tokens@[1]@);
        }
        let removed = store.remove_key(&tokens[1]);
        return Outcome::Reply(
            Resp::Int(
                if removed {
                    1
                } else {
                    0
                },
            ),
        );
    }
    if bytes_eq(&cmd, &"KEYS".as_bytes_vec()) {
        let keys = store.live_keys(now);
        return Outcome::Reply(Resp::Array(keys));
    }
    if bytes_eq(&cmd, &"TYPE".as_bytes_vec()) {
        if tokens.len() != 2 {
            return usage("usage: TYPE key".as_bytes_vec());
        }
        proof {
            assert(toks[1] == tokens@[1]@);
        }
        return match store.lookup(&tokens[1]) {
            Some(e) => {
                if e.is_expired(now) {
                    Outcome::Reply(Resp::Simple("none".as_bytes_vec()))
                } else {
                    match &e.value {
                        Value::Str(_) => Outcome::Reply(Resp::Simple("string".as_bytes_vec())),
                        Value::List(_) => Outcome::Reply(Resp::Simple("list".as_bytes_vec())),
                    }
                }
            },
            None => Outcome::Reply(Resp::Simple("none".as_bytes_vec())),
        };
    }
    if bytes_eq(&cmd, &"PING".as_bytes_vec()) {
        return Outcome::Reply(Resp::Simple("PONG".as_bytes_vec()));
    }
    Outcome::Reply(Resp::Error("unknown command".as_bytes_vec()))
}

/// The push side of the list commands, after the arity check.
fn push_cmd(tokens: &Vec<Vec<u8>>, store: &mut Store, front: bool) -> (r: Outcome)
    requires
        old(store).wf(),
        tokens@.len() >= 3,
    ensures
        final(store).wf(),
        ({
            let toks = views_of(tokens@);
            let m0 = old(store)@;
            let key = toks[1];
            let vals = toks.skip(2);
            if m0.contains_key(key) {
                match m0[key].value {
                    ValueModel::Str(_) => final(store)@ == m0 && r@ == OutcomeModel::Reply(
                        RespModel::Error(msg_wrong_kind()),
                    ),
                    ValueModel::List(l) => {
                        &&& final(store)@ == m0.insert(
                            key,
                            (EntryModel {
                                value: ValueModel::List(pushed_list(l, vals, front)),
                                expires_at: m0[key].expires_at,
                            }),
                        )
                        &&& r@ == OutcomeModel::Reply(
                            RespModel::Uint(((l.len() + vals.len()) as u64)),
                        )
                    },
                }
            } else {
                &&& final(store)@ == m0.insert(
                    key,
                    (EntryModel { value: ValueModel::List(vals), expires_at: None }),
                )
                &&& r@ == OutcomeModel::Reply(RespModel::Uint((vals.len() as u64)))
            }
        }),
{
    proof {
        assert(views_of(tokens@)[1] == tokens@[1]@);
    }
    let vals = copy_tail(tokens, 2);
    match store.list_push(&tokens[1], &vals, front) {
        Some(n) => Outcome::Reply(Resp::Uint(n as u64)),
        None => wrong_kind(),
    }
}

/// The pop side of the list commands, after the arity check.
fn pop_cmd(tokens: &Vec<Vec<u8>>, store: &mut Store, now: u64, front: bool) -> (r: Outcome)
    requires
        old(store).wf(),
        tokens@.len() >= 2,
    ensures
        final(store).wf(),
        ({
            let m0 = old(store)@;
            let key = views_of(tokens@)[1];
            if !live_at(m0, key, now) {
                final(store)@ == m0 && r@ == OutcomeModel::Reply(RespModel::Nil)
            } else {
                match m0[key].value {
                    ValueModel::Str(_) => final(store)@ == m0 && r@ == OutcomeModel::Reply(
                        RespModel::Error(msg_wrong_kind()),
                    ),
                    ValueModel::List(l) => {
                        &&& l.len() > 0
                        &&& r@ == OutcomeModel::Reply(
                            RespModel::Bulk(
                                if front {
                                    l[0]
                                } else {
                                    l.last()
                                },
                            ),
                        )
                        &&& final(store)@ == if l.len() == 1 {
                            m0.remove(key)
                        } else {
                            m0.insert(
                                key,
                                (EntryModel {
                                    value: ValueModel::List(
                                        if front {
                                            l.drop_first()
                                        } else {
                                            l.drop_last()
                                        },
                                    ),
                                    expires_at: m0[key].expires_at,
                                }),
                            )
                        }
                    },
                }
            }
        }),
{
    proof {
        assert(views_of(tokens@)[1] == tokens@[1]@);
    }
    match store.list_pop(&tokens[1], now, front) {
        PopOutcome::Missing => Outcome::Reply(Resp::Nil),
        PopOutcome::WrongKind => wrong_kind(),
        PopOutcome::Item(v) => Outcome::Reply(Resp::Bulk(v)),
    }
}

/// The range read of the list commands, after the arity check.
fn lrange_cmd(tokens: &Vec<Vec<u8>>, store: &mut Store, now: u64) -> (r: Outcome)
    requires
        old(store).wf(),
        tokens@.len() == 4,
    ensures
        final(store).wf(),
        final(store)@ == old(store)@,
        ({
            let toks = views_of(tokens@);
            r@ == OutcomeModel::Reply(
                lrange_result(
                    old(store)@,
                    toks[1],
                    parse_bound(toks[2], 0),
                    parse_bound(toks[3], -1),
                    now,
                ),
            )
        }),
{
    proof {
        assert(views_of(tokens@)[1] == tokens@[1]@);
        assert(views_of(tokens@)[2] == tokens@[2]@);
        assert(views_of(tokens@)[3] == tokens@[3]@);
    }
    let start: i64 = match parse_i64(&tokens[2]) {
        Some(v) => v,
        None => 0,
    };
    let stop: i64 = match parse_i64(&tokens[3]) {
        Some(v) => v,
        None => -1,
    };
    match store.lookup(&tokens[1]) {
        None => {
            proof {
                assert(views_of(Seq::<Vec<u8>>::empty()) =~= Seq::<Seq<u8>>::empty());
            }
            Outcome::Reply(Resp::Array(Vec::new()))
        },
        Some(e) => {
            if e.is_expired(now) {
                proof {
                    assert(views_of(Seq::<Vec<u8>>::empty()) =~= Seq::<Seq<u8>>::empty());
                }
                Outcome::Reply(Resp::Array(Vec::new()))
            } else {
                match &e.value {
                    Value::Str(_) => wrong_kind(),
                    Value::List(l) => {
                        let len_i: i128 = l.len() as i128;
                        let a0: i128 = if start < 0 {
                            len_i + start as i128
                        } else {
                            start as i128
                        };
                        let a: i128 = if a0 < 0 {
                            0
                        } else {
                            a0
                        };
                        let b0: i128 = if stop < 0 {
                            len_i + stop as i128
                        } else {
                            stop as i128
                        };
                        let b: i128 = if b0 > len_i - 1 {
                            len_i - 1
                        } else {
                            b0
                        };
                        if a > b {
                            proof {
                                assert(views_of(Seq::<Vec<u8>>::empty())
                                    =~= Seq::<Seq<u8>>::empty());
                            }
                            Outcome::Reply(Resp::Array(Vec::new()))
                        } else {
                            let lo = a as usize;
                            let hi = (b + 1) as usize;
                            let part = copy_range(l, lo, hi);
                            Outcome::Reply(Resp::Array(part))
                        }
                    },
                }
            }
        },
    }
}

/// Interprets one request line: tokenization, then command processing.
pub fn process_line(line: &Vec<u8>, store: &mut Store, now: u64) -> (r: Outcome)
    requires
        old(store).wf(),
    ensures
        final(store).wf(),
        outcome_matches(old(store)@, final(store)@, tokens_of(line@), now, r@),
{
    let tokens = tokenize(line);
    process_tokens(&tokens, store, now)
}

} // verus!
