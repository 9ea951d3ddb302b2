use kvstore::aof::Aof;
use kvstore::protocol::{dispatch_at, handle_command_at, reply_line, split_line};
use kvstore::{RedisError, Response, Store};

/// Runs `line` at `now` and gives the line of its response.
fn run(store: &mut Store, line: &str, now: u64) -> String {
    handle_command_at(store, line, now).to_string()
}

fn words(parts: &[&str]) -> Vec<String> {
    parts.iter().map(|s| s.to_string()).collect()
}

#[test]
fn scenario_set_get_del() {
    let mut store = Store::new(None);
    assert_eq!(run(&mut store, "PING", 10), "PONG");
    assert_eq!(run(&mut store, "SET foo bar", 10), "OK");
    assert_eq!(run(&mut store, "GET foo", 10), "bar");
    assert_eq!(run(&mut store, "DEL foo", 10), "1");
    assert_eq!(run(&mut store, "GET foo", 10), "(nil)");
}

#[test]
fn scenario_expiry() {
    let mut store = Store::new(None);
    assert_eq!(run(&mut store, "SET x hello EX 1", 1_000), "OK");
    assert_eq!(run(&mut store, "TTL x", 1_000), "1");
    assert_eq!(run(&mut store, "TTL x", 1_001), "0");
    assert_eq!(run(&mut store, "TTL x", 2_000), "0");
    assert_eq!(run(&mut store, "GET x", 2_000), "hello");
    assert_eq!(run(&mut store, "GET x", 3_000), "(nil)");
    assert_eq!(run(&mut store, "TTL x", 3_000), "-2");
}

#[test]
fn scenario_incr() {
    let mut store = Store::new(None);
    assert_eq!(run(&mut store, "INCR c", 5), "1");
    assert_eq!(run(&mut store, "INCR c", 5), "2");
    assert_eq!(run(&mut store, "SET c notnum", 5), "OK");
    assert_eq!(
        run(&mut store, "INCR c", 5),
        "ERR value 'notnum' is not an integer or out of range"
    );
    assert_eq!(run(&mut store, "GET c", 5), "notnum");
}

#[test]
fn scenario_queue() {
    let mut store = Store::new(None);
    assert_eq!(run(&mut store, "LPUSH q a b c", 5), "3");
    assert_eq!(run(&mut store, "LPOP q", 5), "c");
    assert_eq!(run(&mut store, "LLEN q", 5), "2");
    assert_eq!(run(&mut store, "LPOP q", 5), "b");
    assert_eq!(run(&mut store, "LPOP q", 5), "a");
    assert_eq!(run(&mut store, "LPOP q", 5), "(nil)");
    assert_eq!(run(&mut store, "EXISTS q", 5), "0");
}

#[test]
fn scenario_member_set() {
    let mut store = Store::new(None);
    assert_eq!(run(&mut store, "SADD s a b a", 5), "2");
    assert_eq!(run(&mut store, "SCARD s", 5), "2");
    assert_eq!(run(&mut store, "SREM s a z", 5), "1");
    assert_eq!(run(&mut store, "SCARD s", 5), "1");
    assert_eq!(run(&mut store, "SREM s b", 5), "1");
    assert_eq!(run(&mut store, "EXISTS s", 5), "0");
}

#[test]
fn scenario_wrong_kind() {
    let mut store = Store::new(None);
    assert_eq!(run(&mut store, "SET k v", 5), "OK");
    assert_eq!(
        run(&mut store, "LPUSH k x", 5),
        "ERR WRONGTYPE Operation against a key holding the wrong kind of value"
    );
    assert_eq!(run(&mut store, "GET k", 5), "v");
}

#[test]
fn wrong_kind_for_every_command() {
    let wrong = "ERR WRONGTYPE Operation against a key holding the wrong kind of value";
    let mut store = Store::new(None);
    run(&mut store, "SET text v", 5);
    run(&mut store, "LPUSH queue v", 5);
    run(&mut store, "SADD members v", 5);
    assert_eq!(run(&mut store, "GET queue", 5), wrong);
    assert_eq!(run(&mut store, "GET members", 5), wrong);
    assert_eq!(run(&mut store, "INCR queue", 5), wrong);
    assert_eq!(run(&mut store, "LPUSH text x", 5), wrong);
    assert_eq!(run(&mut store, "LPUSH members x", 5), wrong);
    assert_eq!(run(&mut store, "LPOP text", 5), wrong);
    assert_eq!(run(&mut store, "LLEN members", 5), wrong);
    assert_eq!(run(&mut store, "SADD text x", 5), wrong);
    assert_eq!(run(&mut store, "SADD queue x", 5), wrong);
    assert_eq!(run(&mut store, "SREM queue x", 5), wrong);
    assert_eq!(run(&mut store, "SCARD text", 5), wrong);
    // nothing was changed by the refused commands
    assert_eq!(run(&mut store, "GET text", 5), "v");
    assert_eq!(run(&mut store, "LLEN queue", 5), "1");
    assert_eq!(run(&mut store, "SCARD members", 5), "1");
    // kinds do not matter to these
    assert_eq!(run(&mut store, "EXISTS queue", 5), "1");
    assert_eq!(run(&mut store, "TTL members", 5), "-1");
    assert_eq!(run(&mut store, "DEL queue", 5), "1");
    // SET replaces whatever was there
    assert_eq!(run(&mut store, "SET members now-text", 5), "OK");
    assert_eq!(run(&mut store, "GET members", 5), "now-text");
}

#[test]
fn set_with_empty_value_is_refused() {
    let mut store = Store::new(None);
    let reply = dispatch_at(&mut store, &words(&["SET", "k", ""]), 5);
    assert_eq!(reply.to_string(), "ERR empty value");
    assert!(matches!(reply, Response::Error(RedisError::InvalidType(m)) if m == "empty value"));
    let reply = dispatch_at(&mut store, &words(&["SET", "k", "", "EX", "5"]), 5);
    assert_eq!(reply.to_string(), "ERR empty value");
    assert_eq!(run(&mut store, "EXISTS k", 5), "0");
}

#[test]
fn set_with_zero_lifetime_expires_at_the_next_instant() {
    let mut store = Store::new(None);
    assert_eq!(run(&mut store, "SET k v EX 0", 700), "OK");
    assert_eq!(run(&mut store, "GET k", 700), "v");
    assert_eq!(run(&mut store, "TTL k", 700), "0");
    assert_eq!(run(&mut store, "GET k", 701), "(nil)");
    assert_eq!(run(&mut store, "EXISTS k", 701), "0");
}

#[test]
fn incr_of_the_largest_integer_is_refused() {
    let mut store = Store::new(None);
    run(&mut store, "SET n 9223372036854775807", 5);
    let reply = handle_command_at(&mut store, "INCR n", 5);
    assert!(
        matches!(&reply, Response::Error(RedisError::NotInteger(v)) if v == "9223372036854775807")
    );
    assert_eq!(
        reply.to_string(),
        "ERR value '9223372036854775807' is not an integer or out of range"
    );
    assert_eq!(run(&mut store, "GET n", 5), "9223372036854775807");
    run(&mut store, "SET n 9223372036854775806", 5);
    assert_eq!(run(&mut store, "INCR n", 5), "9223372036854775807");
}

#[test]
fn incr_reads_signs_and_leading_zeros() {
    let mut store = Store::new(None);
    run(&mut store, "SET n -1", 5);
    assert_eq!(run(&mut store, "INCR n", 5), "0");
    assert_eq!(run(&mut store, "INCR n", 5), "1");
    run(&mut store, "SET n +41", 5);
    assert_eq!(run(&mut store, "INCR n", 5), "42");
    assert_eq!(run(&mut store, "GET n", 5), "42");
    run(&mut store, "SET n 007", 5);
    assert_eq!(run(&mut store, "INCR n", 5), "8");
    run(&mut store, "SET n -9223372036854775808", 5);
    assert_eq!(run(&mut store, "INCR n", 5), "-9223372036854775807");
    for bad in ["1.5", "1e3", "0x10", "--1", "+", "-", "1 2", "9223372036854775808", "١"] {
        let mut store = Store::new(None);
        store.set_at("n".to_string(), bad.to_string(), None, 5);
        let expected = format!("ERR value '{}' is not an integer or out of range", bad);
        assert_eq!(run(&mut store, "INCR n", 5), expected);
    }
}

#[test]
fn incr_keeps_the_expiry() {
    let mut store = Store::new(None);
    run(&mut store, "SET n 5 EX 10", 1_000);
    assert_eq!(run(&mut store, "INCR n", 2_000), "6");
    assert_eq!(run(&mut store, "TTL n", 2_000), "9");
    assert_eq!(run(&mut store, "GET n", 11_000), "6");
    assert_eq!(run(&mut store, "GET n", 11_001), "(nil)");
    // once expired, the count starts again and never expires
    assert_eq!(run(&mut store, "INCR n", 11_001), "1");
    assert_eq!(run(&mut store, "TTL n", 11_001), "-1");
}

#[test]
fn keys_with_empty_prefix_lists_every_live_key() {
    let mut store = Store::new(None);
    run(&mut store, "SET a 1", 100);
    run(&mut store, "SET b 2 EX 1", 100);
    run(&mut store, "LPUSH c x", 100);
    run(&mut store, "SADD d x", 100);
    let reply = dispatch_at(&mut store, &words(&["KEYS", ""]), 100);
    let mut names = match reply {
        Response::Array(items) => items
            .into_iter()
            .map(|r| match r {
                Response::BulkString(Some(k)) => k,
                other => panic!("a key was expected, not {:?}", other),
            })
            .collect::<Vec<String>>(),
        other => panic!("an array was expected, not {:?}", other),
    };
    names.sort();
    assert_eq!(names, vec!["a", "b", "c", "d"]);
    let reply = dispatch_at(&mut store, &words(&["KEYS", ""]), 1_101);
    let mut names: Vec<String> = reply.to_string().split(' ').map(|s| s.to_string()).collect();
    names.sort();
    assert_eq!(names, vec!["a", "c", "d"]);
}

#[test]
fn keys_lists_by_prefix() {
    let mut store = Store::new(None);
    assert_eq!(run(&mut store, "KEYS user", 5), "(empty)");
    run(&mut store, "SET user:1 a", 5);
    run(&mut store, "SET user:2 b", 5);
    run(&mut store, "SET group:1 c", 5);
    run(&mut store, "SET use d", 5);
    let mut names: Vec<String> =
        run(&mut store, "KEYS user", 5).split(' ').map(|s| s.to_string()).collect();
    names.sort();
    assert_eq!(names, vec!["user:1", "user:2"]);
    assert_eq!(run(&mut store, "KEYS group:1", 5), "group:1");
    assert_eq!(run(&mut store, "KEYS group:10", 5), "(empty)");
    assert_eq!(run(&mut store, "KEYS x", 5), "(empty)");
}

#[test]
fn keys_sweeps_what_has_expired() {
    let mut store = Store::new(Some(Aof::new()));
    run(&mut store, "SET a 1 EX 1", 0);
    run(&mut store, "SET b 2", 0);
    store.take_log();
    assert_eq!(run(&mut store, "KEYS a", 2_000), "(empty)");
    // the sweep writes nothing to the journal
    assert!(store.take_log().is_empty());
    // had the key lingered, DEL at an earlier instant would still find it
    assert_eq!(run(&mut store, "DEL a", 0), "0");
    assert_eq!(run(&mut store, "DEL b", 0), "1");
}

#[test]
fn command_names_in_any_case() {
    let mut store = Store::new(None);
    assert_eq!(run(&mut store, "ping", 5), "PONG");
    assert_eq!(run(&mut store, "PiNg", 5), "PONG");
    assert_eq!(run(&mut store, "quit", 5), "BYE");
    assert_eq!(run(&mut store, "set Key Value", 5), "OK");
    assert_eq!(run(&mut store, "get Key", 5), "Value");
    assert_eq!(run(&mut store, "get key", 5), "(nil)");
    assert_eq!(run(&mut store, "nope", 5), "ERR unknown command 'NOPE'");
    // only ASCII letters change case
    assert_eq!(run(&mut store, "straße", 5), "ERR unknown command 'STRAßE'");
}

#[test]
fn unknown_and_empty_commands() {
    let mut store = Store::new(None);
    let reply = handle_command_at(&mut store, "INVALID", 5);
    assert!(matches!(&reply, Response::Error(RedisError::InvalidCommand(c)) if c == "INVALID"));
    assert_eq!(reply.to_string(), "ERR unknown command 'INVALID'");
    for blank in ["", " ", "\t\r\n", "\u{a0}\u{2003}", "\u{b}"] {
        let reply = handle_command_at(&mut store, blank, 5);
        assert!(
            matches!(&reply, Response::Error(RedisError::InvalidCommand(c)) if c == "empty command")
        );
        assert_eq!(reply.to_string(), "ERR unknown command 'empty command'");
    }
    let reply = dispatch_at(&mut store, &Vec::new(), 5);
    assert_eq!(reply.to_string(), "ERR unknown command 'empty command'");
}

#[test]
fn wrong_number_of_arguments() {
    let mut store = Store::new(None);
    let reply = handle_command_at(&mut store, "GET", 5);
    assert!(matches!(
        &reply,
        Response::Error(RedisError::WrongArguments { command, expected, got })
            if command == "GET" && expected == "1" && *got == 0
    ));
    assert_eq!(
        reply.to_string(),
        "ERR wrong number of arguments for 'GET' command. Expected 1, got 0"
    );
    for name in ["GET", "DEL", "EXISTS", "TTL", "KEYS", "INCR", "LPOP", "LLEN", "SCARD"] {
        let expected =
            format!("ERR wrong number of arguments for '{}' command. Expected 1, got 2", name);
        assert_eq!(run(&mut store, &format!("{} a b", name.to_lowercase()), 5), expected);
        let expected =
            format!("ERR wrong number of arguments for '{}' command. Expected 1, got 0", name);
        assert_eq!(run(&mut store, name, 5), expected);
    }
    for name in ["LPUSH", "SADD", "SREM"] {
        let expected = format!(
            "ERR wrong number of arguments for '{}' command. Expected at least 2, got 1",
            name
        );
        assert_eq!(run(&mut store, &format!("{} key", name), 5), expected);
        let expected = format!(
            "ERR wrong number of arguments for '{}' command. Expected at least 2, got 0",
            name
        );
        assert_eq!(run(&mut store, name, 5), expected);
    }
    assert_eq!(
        run(&mut store, "SET", 5),
        "ERR wrong number of arguments for 'SET' command. Expected at least 3, got 0"
    );
    assert_eq!(
        run(&mut store, "SET key", 5),
        "ERR wrong number of arguments for 'SET' command. Expected at least 3, got 1"
    );
    assert_eq!(
        run(&mut store, "PING now", 5),
        "ERR wrong number of arguments for 'PING' command. Expected 0, got 1"
    );
    assert_eq!(
        run(&mut store, "QUIT now please", 5),
        "ERR wrong number of arguments for 'QUIT' command. Expected 0, got 2"
    );
    // a refused command leaves no key behind
    assert_eq!(run(&mut store, "KEYS k", 5), "(empty)");
}

#[test]
fn set_joins_the_words_of_the_value() {
    let mut store = Store::new(None);
    assert_eq!(run(&mut store, "SET k  a   b \t c  ", 5), "OK");
    assert_eq!(run(&mut store, "GET k", 5), "a b c");
    // four words: the last two are part of the value
    assert_eq!(run(&mut store, "SET k EX 5", 5), "OK");
    assert_eq!(run(&mut store, "GET k", 5), "EX 5");
    assert_eq!(run(&mut store, "TTL k", 5), "-1");
    // five words with EX last but one: a lifetime
    assert_eq!(run(&mut store, "SET k a b ex 5", 1_000), "OK");
    assert_eq!(run(&mut store, "GET k", 1_000), "a b");
    assert_eq!(run(&mut store, "TTL k", 1_000), "5");
    assert_eq!(run(&mut store, "SET k a b Ex +7", 1_000), "OK");
    assert_eq!(run(&mut store, "TTL k", 1_000), "7");
    // EX elsewhere is part of the value
    assert_eq!(run(&mut store, "SET k a EX 5 b", 5), "OK");
    assert_eq!(run(&mut store, "GET k", 5), "a EX 5 b");
}

#[test]
fn set_with_a_bad_lifetime_is_refused() {
    let mut store = Store::new(None);
    for bad in ["x", "-1", "1.5", "18446744073709551616", "", "5s"] {
        let line = format!("SET k a b EX {}", bad);
        let reply = handle_command_at(&mut store, &line, 5);
        if bad.is_empty() {
            // four words: EX is the value's last word
            assert_eq!(reply.to_string(), "OK");
            assert_eq!(run(&mut store, "GET k", 5), "a b EX");
            run(&mut store, "DEL k", 5);
        } else {
            assert!(matches!(
                &reply,
                Response::Error(RedisError::InvalidType(m)) if m == "invalid EX ttl"
            ));
            assert_eq!(reply.to_string(), "ERR invalid EX ttl");
            assert_eq!(run(&mut store, "EXISTS k", 5), "0");
        }
    }
    assert_eq!(run(&mut store, "SET k a b EX 18446744073709551615", 5), "OK");
    assert_eq!(run(&mut store, "TTL k", 5), "18446744073709551");
}

#[test]
fn lines_are_split_at_ascii_white_space() {
    assert_eq!(split_line("  SET\tk \r\n v\x0c w  "), vec!["SET", "k", "v", "w"]);
    assert_eq!(split_line(""), Vec::<String>::new());
    assert_eq!(split_line(" \t "), Vec::<String>::new());
    // other white space is trimmed at the ends, and is part of a word inside
    assert_eq!(split_line("\u{a0}GET\u{a0}k\u{2003}"), vec!["GET\u{a0}k"]);
    assert_eq!(split_line("\u{b}GET k\u{b}"), vec!["GET", "k"]);
    assert_eq!(split_line("GET\u{b}k"), vec!["GET\u{b}k"]);
    assert_eq!(split_line("one"), vec!["one"]);
}

#[test]
fn what_goes_over_the_wire() {
    let (line, close) = reply_line(&Response::SimpleString("PONG".to_string()));
    assert_eq!((line.as_str(), close), ("PONG\n", false));
    let (line, close) = reply_line(&Response::SimpleString("BYE".to_string()));
    assert_eq!((line.as_str(), close), ("Bye!!!\n", true));
    let (line, close) = reply_line(&Response::BulkString(Some("BYE".to_string())));
    assert_eq!((line.as_str(), close), ("Bye!!!\n", true));
    let (line, close) = reply_line(&Response::Nil);
    assert_eq!((line.as_str(), close), ("(nil)\n", false));
    let (line, close) = reply_line(&Response::Integer(-2));
    assert_eq!((line.as_str(), close), ("-2\n", false));
    let mut store = Store::new(None);
    let (line, close) = reply_line(&handle_command_at(&mut store, "quit", 5));
    assert_eq!((line.as_str(), close), ("Bye!!!\n", true));
    let (line, close) = reply_line(&handle_command_at(&mut store, "bye", 5));
    assert_eq!((line.as_str(), close), ("ERR unknown command 'BYE'\n", false));
}
