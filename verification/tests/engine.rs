use redrust::Outcome;
use redrust::Store;
use redrust::process_line;
use redrust::render;

fn reply(store: &mut Store, line: &[u8], now: u64) -> Vec<u8> {
    match process_line(&line.to_vec(), store, now) {
        Outcome::Reply(r) => render(&r),
        _ => panic!("expected a direct reply"),
    }
}

#[test]
fn ping_pong() {
    let mut s = Store::new();
    assert_eq!(reply(&mut s, b"PING", 0), b"+PONG\r\n".to_vec());
    assert_eq!(reply(&mut s, b"PiNg", 0), b"+PONG\r\n".to_vec());
}

#[test]
fn empty_line_is_an_error() {
    let mut s = Store::new();
    assert_eq!(reply(&mut s, b"", 0), b"-ERR empty command\r\n".to_vec());
    assert_eq!(reply(&mut s, b"   \t  ", 0), b"-ERR empty command\r\n".to_vec());
}

#[test]
fn unknown_command() {
    let mut s = Store::new();
    assert_eq!(reply(&mut s, b"FROB x", 0), b"-ERR unknown command\r\n".to_vec());
}

#[test]
fn set_get_round_trip() {
    let mut s = Store::new();
    assert_eq!(reply(&mut s, b"SET k v", 0), b"+OK\r\n".to_vec());
    assert_eq!(reply(&mut s, b"GET k", 0), b"$1\r\nv\r\n".to_vec());
}

#[test]
fn get_absent_is_nil() {
    let mut s = Store::new();
    assert_eq!(reply(&mut s, b"GET nope", 0), b"$-1\r\n".to_vec());
}

#[test]
fn ttl_without_expiry_is_minus_one() {
    let mut s = Store::new();
    reply(&mut s, b"SET k v", 0);
    assert_eq!(reply(&mut s, b"TTL k", 7), b":-1\r\n".to_vec());
}

#[test]
fn ttl_absent_is_minus_two() {
    let mut s = Store::new();
    assert_eq!(reply(&mut s, b"TTL nope", 0), b":-2\r\n".to_vec());
}

#[test]
fn type_absent_is_none() {
    let mut s = Store::new();
    assert_eq!(reply(&mut s, b"TYPE nope", 0), b"+none\r\n".to_vec());
}

#[test]
fn type_labels() {
    let mut s = Store::new();
    reply(&mut s, b"SET k v", 0);
    reply(&mut s, b"RPUSH l a", 0);
    assert_eq!(reply(&mut s, b"TYPE k", 0), b"+string\r\n".to_vec());
    assert_eq!(reply(&mut s, b"TYPE l", 0), b"+list\r\n".to_vec());
}

#[test]
fn set_ex_zero_is_dead_on_arrival() {
    let mut s = Store::new();
    assert_eq!(reply(&mut s, b"SET k v EX 0", 5), b"+OK\r\n".to_vec());
    // Never a wrong-kind error, never stale data: at the same reading the
    // entry is already past its deadline.
    assert_eq!(reply(&mut s, b"GET k", 5), b"$-1\r\n".to_vec());
    s.cleanup_expired(6);
    s.cleanup_expired(7);
    assert_eq!(reply(&mut s, b"TYPE k", 7), b"+none\r\n".to_vec());
}

#[test]
fn del_absent_counts_zero() {
    let mut s = Store::new();
    assert_eq!(reply(&mut s, b"DEL nope", 0), b":0\r\n".to_vec());
}

#[test]
fn del_twice_counts_zero_the_second_time() {
    let mut s = Store::new();
    reply(&mut s, b"SET k v", 0);
    assert_eq!(reply(&mut s, b"DEL k", 0), b":1\r\n".to_vec());
    assert_eq!(reply(&mut s, b"DEL k", 0), b":0\r\n".to_vec());
}

#[test]
fn rpush_then_lrange_keeps_order() {
    let mut s = Store::new();
    assert_eq!(reply(&mut s, b"RPUSH k a b c", 0), b":3\r\n".to_vec());
    assert_eq!(
        reply(&mut s, b"LRANGE k 0 -1", 0),
        b"*3\r\n$1\r\na\r\n$1\r\nb\r\n$1\r\nc\r\n".to_vec()
    );
    assert_eq!(reply(&mut s, b"LPUSH k x", 0), b":4\r\n".to_vec());
    assert_eq!(
        reply(&mut s, b"LRANGE k 0 -1", 0),
        b"*4\r\n$1\r\nx\r\n$1\r\na\r\n$1\r\nb\r\n$1\r\nc\r\n".to_vec()
    );
}

#[test]
fn lpush_preserves_argument_order() {
    let mut s = Store::new();
    assert_eq!(reply(&mut s, b"LPUSH k a b c", 0), b":3\r\n".to_vec());
    assert_eq!(
        reply(&mut s, b"LRANGE k 0 -1", 0),
        b"*3\r\n$1\r\na\r\n$1\r\nb\r\n$1\r\nc\r\n".to_vec()
    );
}

#[test]
fn pop_drains_the_key() {
    let mut s = Store::new();
    reply(&mut s, b"RPUSH k a", 0);
    assert_eq!(reply(&mut s, b"RPOP k", 0), b"$1\r\na\r\n".to_vec());
    assert_eq!(reply(&mut s, b"LLEN k", 0), b":0\r\n".to_vec());
    assert_eq!(reply(&mut s, b"TYPE k", 0), b"+none\r\n".to_vec());
}

#[test]
fn lpop_takes_the_front() {
    let mut s = Store::new();
    reply(&mut s, b"RPUSH k a b", 0);
    assert_eq!(reply(&mut s, b"LPOP k", 0), b"$1\r\na\r\n".to_vec());
    assert_eq!(reply(&mut s, b"LRANGE k 0 -1", 0), b"*1\r\n$1\r\nb\r\n".to_vec());
}

#[test]
fn lpop_absent_is_nil() {
    let mut s = Store::new();
    assert_eq!(reply(&mut s, b"LPOP nope", 0), b"$-1\r\n".to_vec());
}

#[test]
fn push_against_string_is_wrong_kind_and_harmless() {
    let mut s = Store::new();
    reply(&mut s, b"SET k v", 0);
    assert_eq!(
        reply(&mut s, b"LPUSH k x", 0),
        b"-ERR Operation against a key holding the wrong kind of value\r\n".to_vec()
    );
    assert_eq!(reply(&mut s, b"GET k", 0), b"$1\r\nv\r\n".to_vec());
}

#[test]
fn get_against_list_is_wrong_kind() {
    let mut s = Store::new();
    reply(&mut s, b"RPUSH k a", 0);
    assert_eq!(
        reply(&mut s, b"GET k", 0),
        b"-ERR Operation against a key holding the wrong kind of value\r\n".to_vec()
    );
}

#[test]
fn llen_and_pop_against_string_are_wrong_kind() {
    let mut s = Store::new();
    reply(&mut s, b"SET k v", 0);
    assert_eq!(
        reply(&mut s, b"LLEN k", 0),
        b"-ERR Operation against a key holding the wrong kind of value\r\n".to_vec()
    );
    assert_eq!(
        reply(&mut s, b"RPOP k", 0),
        b"-ERR Operation against a key holding the wrong kind of value\r\n".to_vec()
    );
}

#[test]
fn lrange_clamps_out_of_range_bounds() {
    let mut s = Store::new();
    reply(&mut s, b"RPUSH k a b c", 0);
    assert_eq!(
        reply(&mut s, b"LRANGE k -100 100", 0),
        b"*3\r\n$1\r\na\r\n$1\r\nb\r\n$1\r\nc\r\n".to_vec()
    );
    assert_eq!(reply(&mut s, b"LRANGE k 5 10", 0), b"*0\r\n".to_vec());
}

#[test]
fn lrange_malformed_bounds_fall_back_to_defaults() {
    let mut s = Store::new();
    reply(&mut s, b"RPUSH k a b c", 0);
    assert_eq!(
        reply(&mut s, b"LRANGE k zz yy", 0),
        b"*3\r\n$1\r\na\r\n$1\r\nb\r\n$1\r\nc\r\n".to_vec()
    );
}

#[test]
fn lrange_partial_and_negative_bounds() {
    let mut s = Store::new();
    reply(&mut s, b"RPUSH k a b c", 0);
    assert_eq!(reply(&mut s, b"LRANGE k 1 2", 0), b"*2\r\n$1\r\nb\r\n$1\r\nc\r\n".to_vec());
    assert_eq!(reply(&mut s, b"LRANGE k -2 -1", 0), b"*2\r\n$1\r\nb\r\n$1\r\nc\r\n".to_vec());
}

#[test]
fn expire_sets_a_deadline() {
    let mut s = Store::new();
    reply(&mut s, b"SET k v", 0);
    assert_eq!(reply(&mut s, b"EXPIRE k 10", 0), b":1\r\n".to_vec());
    assert_eq!(reply(&mut s, b"TTL k", 3), b":7\r\n".to_vec());
    assert_eq!(reply(&mut s, b"GET k", 9), b"$1\r\nv\r\n".to_vec());
    assert_eq!(reply(&mut s, b"GET k", 10), b"$-1\r\n".to_vec());
}

#[test]
fn expire_absent_counts_zero() {
    let mut s = Store::new();
    assert_eq!(reply(&mut s, b"EXPIRE nope 10", 0), b":0\r\n".to_vec());
}

#[test]
fn expire_malformed_seconds_counts_zero() {
    let mut s = Store::new();
    reply(&mut s, b"SET k v", 0);
    assert_eq!(reply(&mut s, b"EXPIRE k zz", 0), b":0\r\n".to_vec());
    assert_eq!(reply(&mut s, b"TTL k", 0), b":-1\r\n".to_vec());
}

#[test]
fn expire_accepts_a_plus_sign() {
    let mut s = Store::new();
    reply(&mut s, b"SET k v", 0);
    assert_eq!(reply(&mut s, b"EXPIRE k +10", 0), b":1\r\n".to_vec());
    assert_eq!(reply(&mut s, b"TTL k", 0), b":10\r\n".to_vec());
}

#[test]
fn set_ex_malformed_seconds_is_an_error() {
    let mut s = Store::new();
    assert_eq!(reply(&mut s, b"SET k v EX zz", 0), b"-ERR invalid expire time\r\n".to_vec());
    assert_eq!(reply(&mut s, b"GET k", 0), b"$-1\r\n".to_vec());
}

#[test]
fn set_ex_sets_the_ttl() {
    let mut s = Store::new();
    assert_eq!(reply(&mut s, b"SET k v EX 100", 0), b"+OK\r\n".to_vec());
    assert_eq!(reply(&mut s, b"TTL k", 40), b":60\r\n".to_vec());
}

#[test]
fn plain_set_overwrites_any_type() {
    let mut s = Store::new();
    reply(&mut s, b"RPUSH k a", 0);
    assert_eq!(reply(&mut s, b"SET k v", 0), b"+OK\r\n".to_vec());
    assert_eq!(reply(&mut s, b"GET k", 0), b"$1\r\nv\r\n".to_vec());
}

#[test]
fn keys_lists_live_keys_only() {
    let mut s = Store::new();
    reply(&mut s, b"SET a 1", 0);
    reply(&mut s, b"RPUSH b x", 0);
    reply(&mut s, b"SET c v EX 1", 0);
    let out = String::from_utf8(reply(&mut s, b"KEYS", 5)).unwrap();
    assert!(out.starts_with("*2\r\n"));
    assert!(out.contains("$1\r\na\r\n"));
    assert!(out.contains("$1\r\nb\r\n"));
    assert!(!out.contains("$1\r\nc\r\n"));
}

#[test]
fn usage_errors_keep_the_store_unchanged() {
    let mut s = Store::new();
    assert_eq!(
        reply(&mut s, b"SET k", 0),
        b"-ERR usage: SET key value [EX seconds]\r\n".to_vec()
    );
    assert_eq!(reply(&mut s, b"GET", 0), b"-ERR usage: GET key\r\n".to_vec());
    assert_eq!(reply(&mut s, b"LRANGE k 1", 0), b"-ERR usage: LRANGE key start stop\r\n".to_vec());
    assert_eq!(reply(&mut s, b"TTL", 0), b"-ERR usage: TTL key\r\n".to_vec());
}

#[test]
fn command_words_match_case_insensitively() {
    let mut s = Store::new();
    assert_eq!(reply(&mut s, b"set k v", 0), b"+OK\r\n".to_vec());
    assert_eq!(reply(&mut s, b"get k", 0), b"$1\r\nv\r\n".to_vec());
}

#[test]
fn persistence_commands_become_actions() {
    let mut s = Store::new();
    assert!(matches!(process_line(&b"SAVE".to_vec(), &mut s, 0), Outcome::DoSave));
    assert!(matches!(process_line(&b"BGSAVE".to_vec(), &mut s, 0), Outcome::DoBgSave));
    assert!(matches!(process_line(&b"LASTSAVE".to_vec(), &mut s, 0), Outcome::DoLastSave));
}

#[test]
fn tokens_split_on_any_whitespace_run() {
    let mut s = Store::new();
    assert_eq!(reply(&mut s, b"SET\t k \t  v", 0), b"+OK\r\n".to_vec());
    assert_eq!(reply(&mut s, b"GET  k", 0), b"$1\r\nv\r\n".to_vec());
}

#[test]
fn extra_set_arguments_without_ex_are_ignored() {
    let mut s = Store::new();
    assert_eq!(reply(&mut s, b"SET k v XX 10", 0), b"+OK\r\n".to_vec());
    assert_eq!(reply(&mut s, b"TTL k", 0), b":-1\r\n".to_vec());
}

#[test]
fn sweeper_removes_only_expired_entries() {
    let mut s = Store::new();
    reply(&mut s, b"SET a keep", 0);
    reply(&mut s, b"SET b gone EX 1", 0);
    s.cleanup_expired(5);
    assert_eq!(reply(&mut s, b"GET a", 5), b"$4\r\nkeep\r\n".to_vec());
    assert_eq!(reply(&mut s, b"TYPE b", 5), b"+none\r\n".to_vec());
    assert_eq!(reply(&mut s, b"TTL b", 5), b":-2\r\n".to_vec());
}

#[test]
fn expire_on_an_unswept_expired_key_revives_it() {
    // The deadline overwrite is physical: an expired key that the sweeper
    // has not yet removed takes a new deadline.
    let mut s = Store::new();
    reply(&mut s, b"SET k v EX 1", 0);
    assert_eq!(reply(&mut s, b"GET k", 5), b"$-1\r\n".to_vec());
    assert_eq!(reply(&mut s, b"EXPIRE k 10", 5), b":1\r\n".to_vec());
    assert_eq!(reply(&mut s, b"GET k", 5), b"$1\r\nv\r\n".to_vec());
}

#[test]
fn ttl_of_an_unswept_expired_key_is_zero() {
    let mut s = Store::new();
    reply(&mut s, b"SET k v EX 1", 0);
    assert_eq!(reply(&mut s, b"TTL k", 5), b":0\r\n".to_vec());
}

#[test]
fn push_onto_expired_list_keeps_its_deadline() {
    // A push is physical: the expired, unswept list accepts the element
    // and stays dead until the sweeper removes it.
    let mut s = Store::new();
    reply(&mut s, b"RPUSH k a", 0);
    reply(&mut s, b"EXPIRE k 1", 0);
    assert_eq!(reply(&mut s, b"RPUSH k b", 5), b":2\r\n".to_vec());
    assert_eq!(reply(&mut s, b"LLEN k", 5), b":0\r\n".to_vec());
}

#[test]
fn values_keep_their_bytes() {
    let mut s = Store::new();
    reply(&mut s, b"SET key some-longer_value.123", 0);
    assert_eq!(reply(&mut s, b"GET key", 0), b"$21\r\nsome-longer_value.123\r\n".to_vec());
}
