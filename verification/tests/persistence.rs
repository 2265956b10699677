use redrust::Outcome;
use redrust::SnapshotEntry;
use redrust::Store;
use redrust::Value;
use redrust::load_snapshot;
use redrust::process_line;
use redrust::render;
use redrust::snapshot;

fn answer(store: &mut Store, line: &[u8], now: u64) -> Vec<u8> {
    match process_line(&line.to_vec(), store, now) {
        Outcome::Reply(r) => render(&r),
        _ => panic!("expected a direct reply"),
    }
}

#[test]
fn snapshot_round_trip_restores_values_and_ttl() {
    let mut s = Store::new();
    answer(&mut s, b"SET a 1", 0);
    answer(&mut s, b"RPUSH b x y", 0);
    answer(&mut s, b"EXPIRE a 100", 0);
    // Save at monotonic 0, wall clock 1000; restart 30 wall seconds later.
    let snap = snapshot(&s, 0, 1000);
    let mut restored = load_snapshot(&snap, 0, 1030);
    assert_eq!(answer(&mut restored, b"GET a", 0), b"$1\r\n1\r\n".to_vec());
    assert_eq!(answer(&mut restored, b"TTL a", 0), b":70\r\n".to_vec());
    assert_eq!(
        answer(&mut restored, b"LRANGE b 0 -1", 0),
        b"*2\r\n$1\r\nx\r\n$1\r\ny\r\n".to_vec()
    );
    assert_eq!(answer(&mut restored, b"TTL b", 0), b":-1\r\n".to_vec());
}

#[test]
fn snapshot_skips_entries_expired_at_save_time() {
    let mut s = Store::new();
    answer(&mut s, b"SET keep v", 0);
    answer(&mut s, b"SET gone w EX 1", 0);
    let snap = snapshot(&s, 5, 1000);
    let mut restored = load_snapshot(&snap, 0, 1000);
    assert_eq!(answer(&mut restored, b"GET keep", 0), b"$1\r\nv\r\n".to_vec());
    assert_eq!(answer(&mut restored, b"TYPE gone", 0), b"+none\r\n".to_vec());
}

#[test]
fn load_skips_entries_dead_on_arrival() {
    let entries = vec![
        SnapshotEntry {
            key: b"fresh".to_vec(),
            value: Value::Str(b"v".to_vec()),
            expires_at_wall: Some(1100),
        },
        SnapshotEntry {
            key: b"stale".to_vec(),
            value: Value::Str(b"w".to_vec()),
            expires_at_wall: Some(900),
        },
    ];
    let mut restored = load_snapshot(&entries, 0, 1000);
    assert_eq!(answer(&mut restored, b"GET fresh", 0), b"$1\r\nv\r\n".to_vec());
    assert_eq!(answer(&mut restored, b"TTL fresh", 0), b":100\r\n".to_vec());
    assert_eq!(answer(&mut restored, b"GET stale", 0), b"$-1\r\n".to_vec());
    assert_eq!(answer(&mut restored, b"TTL stale", 0), b":-2\r\n".to_vec());
}

#[test]
fn load_drops_malformed_empty_lists() {
    let entries = vec![
        SnapshotEntry { key: b"bad".to_vec(), value: Value::List(vec![]), expires_at_wall: None },
        SnapshotEntry {
            key: b"good".to_vec(),
            value: Value::List(vec![b"x".to_vec()]),
            expires_at_wall: None,
        },
    ];
    let mut restored = load_snapshot(&entries, 0, 1000);
    assert_eq!(answer(&mut restored, b"TYPE bad", 0), b"+none\r\n".to_vec());
    assert_eq!(answer(&mut restored, b"LLEN good", 0), b":1\r\n".to_vec());
}

#[test]
fn later_snapshot_entries_win_on_key_clashes() {
    let entries = vec![
        SnapshotEntry {
            key: b"k".to_vec(),
            value: Value::Str(b"old".to_vec()),
            expires_at_wall: None,
        },
        SnapshotEntry {
            key: b"k".to_vec(),
            value: Value::Str(b"new".to_vec()),
            expires_at_wall: None,
        },
    ];
    let mut restored = load_snapshot(&entries, 0, 1000);
    assert_eq!(answer(&mut restored, b"GET k", 0), b"$3\r\nnew\r\n".to_vec());
}

#[test]
fn snapshot_of_empty_store_is_empty() {
    let s = Store::new();
    let snap = snapshot(&s, 0, 1000);
    assert_eq!(snap.len(), 0);
    let mut restored = load_snapshot(&snap, 0, 1000);
    assert_eq!(answer(&mut restored, b"KEYS", 0), b"*0\r\n".to_vec());
}
