use kvstore::aof::{Aof, LogEntry};
use kvstore::clock::{
    deadline_after, from_stamp, instant_from_elapsed, now_millis, seconds_until, to_stamp,
};
use kvstore::keyspace::Keyspace;
use kvstore::store::count_of;
use kvstore::{Entry, Response, Store};

fn texts(parts: &[&str]) -> Vec<String> {
    parts.iter().map(|s| s.to_string()).collect()
}

fn record(entry: &LogEntry) -> (String, String, Option<String>, Option<i64>) {
    (entry.op.clone(), entry.key.clone(), entry.value.clone(), entry.expires_at_ms)
}

fn integer(response: Response) -> i64 {
    match response {
        Response::Integer(n) => n,
        other => panic!("an integer was expected, not {:?}", other),
    }
}

#[test]
fn an_expired_key_answers_as_absent() {
    let fill = |store: &mut Store| {
        store.set_at("text".to_string(), "v".to_string(), Some(1), 1_000);
        store.lpush_at("queue", texts(&["a"]), 1_000);
        store.sadd_at("members", texts(&["a"]), 1_000);
        // only SET gives a lifetime: let a journal bring the other kinds to an end
    };
    let mut store = Store::new(None);
    fill(&mut store);
    assert_eq!(store.get_at("text", 2_000).to_string(), "v");
    assert_eq!(store.get_at("text", 2_001).to_string(), "(nil)");
    let mut store = Store::new(None);
    fill(&mut store);
    assert_eq!(integer(store.exists_key_at("text", 2_001)), 0);
    let mut store = Store::new(None);
    fill(&mut store);
    assert_eq!(integer(store.ttl_at("text", 2_001)), -2);
    let mut store = Store::new(None);
    fill(&mut store);
    assert_eq!(integer(store.del_at("text", 2_001)), 0);
    let mut store = Store::new(None);
    fill(&mut store);
    assert_eq!(store.lpop_at("text", 2_001).to_string(), "(nil)");
    let mut store = Store::new(None);
    fill(&mut store);
    assert_eq!(integer(store.llen_at("text", 2_001)), 0);
    let mut store = Store::new(None);
    fill(&mut store);
    assert_eq!(integer(store.scard_at("text", 2_001)), 0);
    let mut store = Store::new(None);
    fill(&mut store);
    assert_eq!(integer(store.srem_at("text", texts(&["v"]), 2_001)), 0);
    // the commands that create start afresh over an expired key of any kind
    let mut store = Store::new(None);
    fill(&mut store);
    assert_eq!(integer(store.lpush_at("text", texts(&["x", "y"]), 2_001)), 2);
    assert_eq!(integer(store.ttl_at("text", 2_001)), -1);
    let mut store = Store::new(None);
    fill(&mut store);
    assert_eq!(integer(store.sadd_at("text", texts(&["x", "y"]), 2_001)), 2);
    let mut store = Store::new(None);
    fill(&mut store);
    assert_eq!(integer(store.incr_at("text", 2_001)), 1);
    assert_eq!(integer(store.ttl_at("text", 2_001)), -1);
}

#[test]
fn the_clock_may_stand_still() {
    let mut store = Store::new(None);
    store.set_at("k".to_string(), "v".to_string(), Some(2), 10_000);
    // not yet expired at the instant of expiry itself
    assert_eq!(integer(store.exists_key_at("k", 12_000)), 1);
    assert_eq!(integer(store.ttl_at("k", 12_000)), 0);
    assert_eq!(integer(store.ttl_at("k", 10_000)), 2);
    assert_eq!(integer(store.ttl_at("k", 10_001)), 1);
    assert_eq!(integer(store.ttl_at("k", 11_000)), 1);
    assert_eq!(integer(store.ttl_at("k", 11_001)), 0);
    assert_eq!(integer(store.exists_key_at("k", 12_001)), 0);
    // once dropped, an earlier instant does not bring the key back
    assert_eq!(integer(store.exists_key_at("k", 10_000)), 0);
}

#[test]
fn lpush_puts_the_last_value_first() {
    let mut store = Store::new(None);
    assert_eq!(integer(store.lpush_at("q", texts(&["1", "2", "3"]), 5)), 3);
    assert_eq!(integer(store.lpush_at("q", texts(&["4", "5"]), 5)), 5);
    for expected in ["5", "4", "3", "2", "1"] {
        assert_eq!(store.lpop_at("q", 5).to_string(), expected);
    }
    assert_eq!(store.lpop_at("q", 5).to_string(), "(nil)");
    assert_eq!(integer(store.exists_key_at("q", 5)), 0);
}

#[test]
fn lpush_of_nothing_leaves_an_empty_queue() {
    let mut store = Store::new(None);
    assert_eq!(integer(store.lpush_at("q", Vec::new(), 5)), 0);
    assert_eq!(integer(store.exists_key_at("q", 5)), 1);
    assert_eq!(integer(store.llen_at("q", 5)), 0);
    assert_eq!(store.lpop_at("q", 5).to_string(), "(nil)");
    assert_eq!(integer(store.exists_key_at("q", 5)), 1);
}

#[test]
fn sadd_stores_the_set_of_its_members() {
    let mut store = Store::new(None);
    assert_eq!(integer(store.sadd_at("s", texts(&["a", "b", "a", "c", "b", "a"]), 5)), 3);
    assert_eq!(integer(store.scard_at("s", 5)), 3);
    assert_eq!(integer(store.sadd_at("s", texts(&["c", "d", "d", "a", "e"]), 5)), 2);
    assert_eq!(integer(store.scard_at("s", 5)), 5);
    assert_eq!(integer(store.sadd_at("s", Vec::new(), 5)), 0);
    for member in ["a", "b", "c", "d", "e"] {
        assert_eq!(integer(store.srem_at("s", texts(&[member, member]), 5)), 1);
    }
    assert_eq!(integer(store.exists_key_at("s", 5)), 0);
}

#[test]
fn srem_counts_what_the_set_held() {
    let mut store = Store::new(None);
    store.sadd_at("s", texts(&["a", "b", "c"]), 5);
    assert_eq!(integer(store.srem_at("s", texts(&["z", "a", "a", "y", "c"]), 5)), 2);
    assert_eq!(integer(store.scard_at("s", 5)), 1);
    assert_eq!(integer(store.srem_at("s", Vec::new(), 5)), 0);
    assert_eq!(integer(store.exists_key_at("s", 5)), 1);
    assert_eq!(integer(store.srem_at("s", texts(&["b"]), 5)), 1);
    assert_eq!(integer(store.exists_key_at("s", 5)), 0);
    assert_eq!(integer(store.srem_at("s", texts(&["b"]), 5)), 0);
    // an empty set that SADD of nothing left is dropped by the next SREM
    store.sadd_at("e", Vec::new(), 5);
    assert_eq!(integer(store.exists_key_at("e", 5)), 1);
    assert_eq!(integer(store.srem_at("e", texts(&["x"]), 5)), 0);
    assert_eq!(integer(store.exists_key_at("e", 5)), 0);
}

#[test]
fn the_journal_gets_set_and_del() {
    let mut store = Store::new(Some(Aof::new()));
    store.set_at("a".to_string(), "1".to_string(), None, 1_000);
    store.set_at("b".to_string(), "2".to_string(), Some(3), 1_000);
    store.get_at("a", 1_000);
    store.del_at("a", 1_000);
    store.del_at("a", 1_000);
    store.del_at("b", 4_001);
    store.incr_at("n", 5_000);
    store.set_at("n".to_string(), "41".to_string(), Some(1), 5_000);
    store.incr_at("n", 5_500);
    store.incr_at("n", 6_001);
    store.set_at("n".to_string(), "text".to_string(), None, 7_000);
    store.incr_at("n", 7_000);
    store.lpush_at("q", texts(&["a"]), 7_000);
    store.lpop_at("q", 7_000);
    store.sadd_at("s", texts(&["a"]), 7_000);
    store.srem_at("s", texts(&["a"]), 7_000);
    store.incr_at("q2", 7_000);
    store.exists_key_at("a", 7_000);
    store.ttl_at("a", 7_000);
    store.llen_at("a", 7_000);
    store.scard_at("a", 7_000);
    store.keys_with_prefix_at("", 7_000);
    store.sweep_at(9_000);
    let log: Vec<_> = store.take_log().iter().map(record).collect();
    let set = |k: &str, v: &str, at: Option<i64>| {
        ("set".to_string(), k.to_string(), Some(v.to_string()), at)
    };
    let del = |k: &str| ("del".to_string(), k.to_string(), None, None);
    assert_eq!(
        log,
        vec![
            set("a", "1", None),
            set("b", "2", Some(4_000)),
            del("a"),
            set("n", "1", None),
            set("n", "41", Some(6_000)),
            set("n", "42", Some(6_000)),
            set("n", "1", None),
            set("n", "text", None),
            set("q2", "1", None),
        ]
    );
    assert!(store.take_log().is_empty());
    store.del_at("q2", 9_000);
    let log: Vec<_> = store.take_log().iter().map(record).collect();
    assert_eq!(log, vec![del("q2")]);
}

#[test]
fn a_store_without_a_journal_keeps_no_records() {
    let mut store = Store::new(None);
    store.set_at("a".to_string(), "1".to_string(), None, 1_000);
    store.del_at("a", 1_000);
    assert!(store.take_log().is_empty());
}

#[test]
fn a_journal_hands_out_its_records_in_order() {
    let mut aof = Aof::new();
    assert!(aof.take_pending().is_empty());
    aof.log(LogEntry::set("k".to_string(), "v".to_string(), Some(5)));
    aof.log(LogEntry::del("k".to_string()));
    aof.log(LogEntry::set("j".to_string(), "w".to_string(), None));
    let records: Vec<_> = aof.take_pending().iter().map(record).collect();
    assert_eq!(
        records,
        vec![
            ("set".to_string(), "k".to_string(), Some("v".to_string()), Some(5)),
            ("del".to_string(), "k".to_string(), None, None),
            ("set".to_string(), "j".to_string(), Some("w".to_string()), None),
        ]
    );
    assert!(aof.take_pending().is_empty());
    let first = LogEntry::set("k".to_string(), "v".to_string(), Some(u64::MAX));
    assert_eq!(record(&first.clone()), record(&first));
    assert_eq!(first.expires_at_ms, Some(-1));
    let second = LogEntry::del("k".to_string());
    assert_eq!(record(&second.clone()), record(&second));
    let store = Store::new(Some(aof));
    let mut store = store;
    assert!(store.take_log().is_empty());
}

#[test]
fn the_journal_is_framed_in_lines() {
    assert_eq!(Aof::frame("{\"op\":\"del\"}"), "{\"op\":\"del\"}\n");
    assert_eq!(Aof::frame(""), "\n");
    let text = format!("{}{}\n  \n{}", Aof::frame("one"), Aof::frame("two"), Aof::frame("three"));
    assert_eq!(Aof::replay(&text), vec!["one", "two", "three"]);
    assert_eq!(Aof::replay(""), Vec::<String>::new());
    assert_eq!(Aof::replay("\n\n \t\n\r\n"), Vec::<String>::new());
    assert_eq!(Aof::replay("a\r\nb\rc\n\rd\r"), vec!["a", "b\rc", "\rd\r"]);
    assert_eq!(Aof::replay(" a \n\u{a0}\nb"), vec![" a ", "b"]);
    assert_eq!(Aof::replay("last line without end"), vec!["last line without end"]);
}

#[test]
fn lines_that_cannot_be_read_are_passed_over() {
    assert!(Aof::keep_readable(Vec::new()).is_empty());
    assert!(Aof::keep_readable(vec![None, None]).is_empty());
    let kept = Aof::keep_readable(vec![
        None,
        Some(LogEntry::set("a".to_string(), "1".to_string(), None)),
        None,
        None,
        Some(LogEntry::del("a".to_string())),
        Some(LogEntry::set("b".to_string(), "2".to_string(), Some(9))),
        None,
    ]);
    let kept: Vec<_> = kept.iter().map(record).collect();
    assert_eq!(
        kept,
        vec![
            ("set".to_string(), "a".to_string(), Some("1".to_string()), None),
            ("del".to_string(), "a".to_string(), None, None),
            ("set".to_string(), "b".to_string(), Some("2".to_string()), Some(9)),
        ]
    );
}

#[test]
fn replay_rebuilds_the_keys() {
    let entry = |op: &str, key: &str, value: Option<&str>, at: Option<i64>| LogEntry {
        op: op.to_string(),
        key: key.to_string(),
        value: value.map(|v| v.to_string()),
        expires_at_ms: at,
    };
    let mut store = Store::new(Some(Aof::new()));
    store.load_from_aof(vec![
        entry("set", "a", Some("1"), None),
        entry("set", "b", Some("2"), Some(5_000)),
        entry("set", "c", Some("3"), None),
        entry("del", "c", None, None),
        entry("del", "never-there", None, None),
        entry("set", "a", Some("one"), None),
        entry("set", "no-value", None, None),
        entry("SET", "upper", Some("x"), None),
        entry("incr", "other", Some("x"), None),
        entry("", "empty", Some("x"), None),
        entry("del", "b-not", Some("ignored"), Some(1)),
        entry("set", "far", Some("f"), Some(-1)),
        entry("set", "past", Some("p"), Some(0)),
    ]);
    // replaying writes nothing to the store's own journal
    assert!(store.take_log().is_empty());
    assert_eq!(store.get_at("a", 1_000).to_string(), "one");
    assert_eq!(store.get_at("b", 5_000).to_string(), "2");
    assert_eq!(integer(store.ttl_at("b", 1_000)), 4);
    assert_eq!(store.get_at("c", 1_000).to_string(), "(nil)");
    assert_eq!(store.get_at("no-value", 1_000).to_string(), "(nil)");
    assert_eq!(store.get_at("upper", 1_000).to_string(), "(nil)");
    assert_eq!(store.get_at("other", 1_000).to_string(), "(nil)");
    assert_eq!(store.get_at("empty", 1_000).to_string(), "(nil)");
    // a negative stamp is the instant with the same bits: far away
    assert_eq!(store.get_at("far", u64::MAX).to_string(), "f");
    assert_eq!(integer(store.ttl_at("far", 0)), 18_446_744_073_709_551);
    // a key whose expiry lies in the past stays until it is touched
    assert_eq!(store.get_at("past", 0).to_string(), "p");
    assert_eq!(store.get_at("past", 1).to_string(), "(nil)");
    assert_eq!(store.get_at("b", 5_001).to_string(), "(nil)");
    // replay on top of what is there
    store.load_from_aof(vec![entry("del", "a", None, None), entry("set", "z", Some("9"), None)]);
    assert_eq!(store.get_at("a", 1_000).to_string(), "(nil)");
    assert_eq!(store.get_at("z", 1_000).to_string(), "9");
}

#[test]
fn replaying_the_journal_gives_the_same_answers() {
    let mut first = Store::new(Some(Aof::new()));
    first.set_at("a".to_string(), "1".to_string(), None, 100);
    first.set_at("b".to_string(), "2".to_string(), Some(1), 200);
    first.set_at("c".to_string(), "3".to_string(), Some(100), 300);
    first.del_at("a", 400);
    first.set_at("d".to_string(), "4".to_string(), Some(0), 500);
    first.del_at("b", 1_300);
    first.set_at("e".to_string(), "5".to_string(), Some(u64::MAX), 1_400);
    first.set_at("c".to_string(), "three".to_string(), Some(50), 1_500);
    first.del_at("missing", 1_600);
    let journal = first.take_log();
    let mut second = Store::new(None);
    second.load_from_aof(journal);
    for now in [1_600, 2_000, 51_500, 51_501, u64::MAX] {
        for key in ["a", "b", "c", "d", "e", "missing"] {
            assert_eq!(first.get_at(key, now).to_string(), second.get_at(key, now).to_string());
            assert_eq!(integer(first.ttl_at(key, now)), integer(second.ttl_at(key, now)));
            assert_eq!(
                integer(first.exists_key_at(key, now)),
                integer(second.exists_key_at(key, now))
            );
        }
        let mut left: Vec<String> =
            first.keys_with_prefix_at("", now).to_string().split(' ').map(String::from).collect();
        let mut right: Vec<String> =
            second.keys_with_prefix_at("", now).to_string().split(' ').map(String::from).collect();
        left.sort();
        right.sort();
        assert_eq!(left, right);
    }
}

#[test]
fn sweep_drops_what_has_expired() {
    let mut store = Store::new(None);
    store.set_at("a".to_string(), "1".to_string(), Some(1), 0);
    store.set_at("b".to_string(), "2".to_string(), Some(2), 0);
    store.set_at("c".to_string(), "3".to_string(), None, 0);
    store.set_at("d".to_string(), "4".to_string(), Some(1), 0);
    store.sweep_at(1_000);
    assert_eq!(integer(store.exists_key_at("a", 0)), 1);
    store.sweep_at(1_001);
    // swept keys are gone for every instant; the others are untouched
    assert_eq!(integer(store.exists_key_at("a", 0)), 0);
    assert_eq!(integer(store.exists_key_at("d", 0)), 0);
    assert_eq!(integer(store.exists_key_at("b", 0)), 1);
    assert_eq!(integer(store.exists_key_at("c", 0)), 1);
    store.sweep_at(u64::MAX);
    assert_eq!(integer(store.exists_key_at("b", 0)), 0);
    assert_eq!(integer(store.exists_key_at("c", u64::MAX)), 1);
    store.sweep();
    assert_eq!(integer(store.exists_key("c")), 1);
}

#[test]
fn the_clock_reading_commands_agree_with_the_clock() {
    let mut store = Store::new(Some(Aof::new()));
    let before = now_millis();
    assert_eq!(store.set("k".to_string(), "5".to_string(), Some(100)).to_string(), "OK");
    let after = now_millis();
    assert!(before <= after);
    let log = store.take_log();
    let stamp = log[0].expires_at_ms.unwrap() as u64;
    assert!(before + 100_000 <= stamp && stamp <= after + 100_000);
    let left = integer(store.ttl("k"));
    assert!(left == 99 || left == 100);
    assert_eq!(store.incr("k").to_string(), "6");
    assert_eq!(store.get("k").to_string(), "6");
    assert_eq!(store.keys_with_prefix("k").to_string(), "k");
    assert_eq!(store.del("k").to_string(), "1");
    assert_eq!(store.lpush("q", texts(&["a", "b"])).to_string(), "2");
    assert_eq!(store.llen("q").to_string(), "2");
    assert_eq!(store.lpop("q").to_string(), "b");
    assert_eq!(store.sadd("s", texts(&["a", "b"])).to_string(), "2");
    assert_eq!(store.scard("s").to_string(), "2");
    assert_eq!(store.srem("s", texts(&["a"])).to_string(), "1");
    // a clock before the epoch would read zero; this one does not
    assert!(before > 1_600_000_000_000);
    let entry = Entry::string("v".to_string(), Some(after));
    assert!(!entry.is_expired_at(after));
    assert!(entry.is_expired_at(after + 1));
    let entry = Entry::string("v".to_string(), Some(before - 1));
    assert!(entry.is_expired());
    let entry = Entry::string("v".to_string(), Some(after + 60_000));
    assert!(!entry.is_expired());
    assert!(!Entry::string("v".to_string(), None).is_expired());
}

#[test]
fn a_clock_reading_becomes_an_instant() {
    assert_eq!(instant_from_elapsed(None), 0);
    assert_eq!(instant_from_elapsed(Some(0)), 0);
    assert_eq!(instant_from_elapsed(Some(1)), 1);
    assert_eq!(instant_from_elapsed(Some(1_700_000_000_123)), 1_700_000_000_123);
    assert_eq!(instant_from_elapsed(Some(u64::MAX as u128)), u64::MAX);
    assert_eq!(instant_from_elapsed(Some(u64::MAX as u128 + 1)), u64::MAX);
    assert_eq!(instant_from_elapsed(Some(u128::MAX)), u64::MAX);
}

#[test]
fn instants_and_stamps() {
    assert_eq!(deadline_after(1_000, 0), 1_000);
    assert_eq!(deadline_after(1_000, 2), 3_000);
    assert_eq!(deadline_after(0, 18_446_744_073_709_551), 18_446_744_073_709_551_000);
    assert_eq!(deadline_after(615, 18_446_744_073_709_551), 18_446_744_073_709_551_615);
    assert_eq!(deadline_after(616, 18_446_744_073_709_551), u64::MAX);
    assert_eq!(deadline_after(0, 18_446_744_073_709_552), u64::MAX);
    assert_eq!(deadline_after(u64::MAX, 0), u64::MAX);
    assert_eq!(deadline_after(u64::MAX, 1), u64::MAX);
    assert_eq!(deadline_after(5, u64::MAX), u64::MAX);
    assert_eq!(seconds_until(5_000, 1_000), 4);
    assert_eq!(seconds_until(5_000, 1_001), 3);
    assert_eq!(seconds_until(5_000, 4_001), 0);
    assert_eq!(seconds_until(5_000, 5_000), 0);
    assert_eq!(seconds_until(5_000, 9_000), 0);
    assert_eq!(seconds_until(u64::MAX, 0), 18_446_744_073_709_551);
    for t in [0, 1, 1_700_000_000_000, i64::MAX as u64, (i64::MAX as u64) + 1, u64::MAX] {
        assert_eq!(to_stamp(t), t as i64);
        assert_eq!(from_stamp(to_stamp(t)), t);
    }
    for ms in [0, 1, -1, i64::MIN, i64::MAX] {
        assert_eq!(from_stamp(ms), ms as u64);
        assert_eq!(to_stamp(from_stamp(ms)), ms);
    }
    assert_eq!(count_of(0), 0);
    assert_eq!(count_of(7), 7);
    assert_eq!(count_of(usize::MAX), std::cmp::min(usize::MAX as u128, i64::MAX as u128) as i64);
}

#[test]
fn a_keyspace_is_a_map() {
    let mut keys = Keyspace::new();
    assert_eq!(keys.len(), 0);
    assert!(!keys.contains_key("a"));
    assert!(keys.get("a").is_none());
    assert!(keys.take("a").is_none());
    keys.insert("a".to_string(), Entry::string("1".to_string(), None));
    keys.insert("b".to_string(), Entry::string("2".to_string(), Some(9)));
    keys.insert("".to_string(), Entry::string("empty".to_string(), None));
    assert_eq!(keys.len(), 3);
    keys.insert("a".to_string(), Entry::string("one".to_string(), Some(3)));
    assert_eq!(keys.len(), 3);
    assert!(keys.contains_key("a"));
    assert!(keys.contains_key(""));
    assert!(!keys.contains_key("A"));
    let found = keys.get("a").unwrap();
    assert_eq!(found.value.as_string().unwrap(), "one");
    assert_eq!(found.expires_at, Some(3));
    let mut names = keys.names("");
    names.sort();
    assert_eq!(names, vec!["", "a", "b"]);
    assert_eq!(keys.names("a"), vec!["a"]);
    assert_eq!(keys.names("ab"), Vec::<String>::new());
    let slot = keys.take("a").unwrap();
    assert_eq!(slot.key, "a");
    assert_eq!(slot.entry.value.as_string().unwrap(), "one");
    assert!(keys.take("a").is_none());
    assert_eq!(keys.len(), 2);
    keys.sweep(9);
    assert_eq!(keys.len(), 2);
    keys.sweep(10);
    assert_eq!(keys.len(), 1);
    assert!(keys.contains_key(""));
}
