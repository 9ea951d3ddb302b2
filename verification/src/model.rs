//! What each command does, stated over the mathematical keyspace: a map from
//! keys to entries. Every function here takes the keyspace before the command
//! and the instant at which the command runs, and gives the keyspace after it,
//! the reply, and the record that the command leaves in the journal, if any.
//!
//! An entry that has expired at that instant counts as absent and is dropped
//! from the keyspace by the command that touches its key.

use crate::aof::LogEntryView;
use crate::clock::{deadline, seconds_left};
use crate::decimal::{decimal, parse_i64};
use crate::error::{ErrorView, ResponseView};
use crate::types::{EntryView, ValueView};
use vstd::prelude::*;

verus! {

/// The keyspace: each key with its entry.
pub type Keys = Map<Seq<char>, EntryView>;

/// What a command leaves behind.
pub struct Outcome {
    /// The keyspace after the command.
    pub keys: Keys,
    /// What the command answers.
    pub reply: ResponseView,
    /// What the command writes to the journal.
    pub record: Option<LogEntryView>,
}

/// True when `key` is in the keyspace with an entry that has not expired.
pub open spec fn live(keys: Keys, key: Seq<char>, now: u64) -> bool {
    keys.contains_key(key) && !keys[key].expired_at(now)
}

/// The keyspace without `key` if its entry has expired, else as it is.
pub open spec fn touch(keys: Keys, key: Seq<char>, now: u64) -> Keys {
    if keys.contains_key(key) && keys[key].expired_at(now) {
        keys.remove(key)
    } else {
        keys
    }
}

/// The keyspace without the entries that have expired.
pub open spec fn swept(keys: Keys, now: u64) -> Keys {
    Map::new(|k: Seq<char>| live(keys, k, now), |k: Seq<char>| keys[k])
}

/// A count as the integer of a reply: the largest integer stands for every
/// count beyond it.
pub open spec fn count(n: nat) -> i64 {
    if n <= i64::MAX {
        n as i64
    } else {
        i64::MAX
    }
}

/// A reply that changes nothing and writes nothing.
pub open spec fn answer(keys: Keys, reply: ResponseView) -> Outcome {
    Outcome { keys, reply, record: None }
}

/// The instant at which an entry set at `now` to live `ttl_secs` seconds
/// expires.
pub open spec fn expiry(ttl_secs: Option<u64>, now: u64) -> Option<u64> {
    match ttl_secs {
        Some(secs) => Some(deadline(now, secs)),
        None => None,
    }
}

/// Storing the text `value` under `key` until `expires_at`, whatever the key
/// held before, and writing that to the journal.
pub open spec fn put(
    keys: Keys,
    key: Seq<char>,
    value: Seq<char>,
    expires_at: Option<u64>,
    reply: ResponseView,
) -> Outcome {
    Outcome {
        keys: keys.insert(key, EntryView::scalar(value, expires_at)),
        reply,
        record: Some(LogEntryView::set(key, value, expires_at)),
    }
}

/// `SET`: the key holds the text `value` from now on; it expires `ttl_secs`
/// seconds from `now`, or never.
pub open spec fn set(
    keys: Keys,
    key: Seq<char>,
    value: Seq<char>,
    ttl_secs: Option<u64>,
    now: u64,
) -> Outcome {
    put(keys, key, value, expiry(ttl_secs, now), ResponseView::ok())
}

/// `GET`: the text under `key`.
pub open spec fn get(keys: Keys, key: Seq<char>, now: u64) -> Outcome {
    let keys = touch(keys, key, now);
    if !keys.contains_key(key) {
        answer(keys, ResponseView::Nil)
    } else {
        match keys[key].value {
            ValueView::Scalar(s) => answer(keys, ResponseView::BulkString(Some(s))),
            _ => answer(keys, ResponseView::wrong_type()),
        }
    }
}

/// `DEL`: the key is gone; the reply counts it if it was live.
pub open spec fn del(keys: Keys, key: Seq<char>, now: u64) -> Outcome {
    if live(keys, key, now) {
        Outcome {
            keys: keys.remove(key),
            reply: ResponseView::Integer(1),
            record: Some(LogEntryView::del(key)),
        }
    } else {
        answer(keys.remove(key), ResponseView::Integer(0))
    }
}

/// `EXISTS`: 1 if the key is live, else 0.
pub open spec fn exists_key(keys: Keys, key: Seq<char>, now: u64) -> Outcome {
    let keys = touch(keys, key, now);
    answer(
        keys,
        ResponseView::Integer(
            if keys.contains_key(key) {
                1
            } else {
                0
            },
        ),
    )
}

/// `TTL`: -2 if the key is not live, -1 if it never expires, else the whole
/// seconds that it has left.
pub open spec fn ttl(keys: Keys, key: Seq<char>, now: u64) -> Outcome {
    let keys = touch(keys, key, now);
    if !keys.contains_key(key) {
        answer(keys, ResponseView::Integer(-2i64))
    } else {
        match keys[key].expires_at {
            Some(t) => answer(keys, ResponseView::Integer(seconds_left(t, now) as i64)),
            None => answer(keys, ResponseView::Integer(-1i64)),
        }
    }
}

/// `INCR`: the integer under `key` grows by one and keeps its expiry; a key
/// that is not live starts at 1 and never expires. A text that is no `i64`,
/// or the largest one, is refused and stays.
pub open spec fn incr(keys: Keys, key: Seq<char>, now: u64) -> Outcome {
    let keys = touch(keys, key, now);
    if !keys.contains_key(key) {
        put(keys, key, decimal(1), None, ResponseView::Integer(1))
    } else {
        match keys[key].value {
            ValueView::Scalar(s) => match parse_i64(s) {
                Some(n) => if n < i64::MAX {
                    put(
                        keys,
                        key,
                        decimal(n + 1),
                        keys[key].expires_at,
                        ResponseView::Integer((n + 1) as i64),
                    )
                } else {
                    answer(keys, ResponseView::Error(ErrorView::NotInteger(s)))
                },
                None => answer(keys, ResponseView::Error(ErrorView::NotInteger(s))),
            },
            _ => answer(keys, ResponseView::wrong_type()),
        }
    }
}

/// The entry that a command finds under `key`: the one that is there, or, if
/// the key is not in `keys`, `fresh`.
pub open spec fn entry_or(keys: Keys, key: Seq<char>, fresh: ValueView) -> EntryView {
    if keys.contains_key(key) {
        keys[key]
    } else {
        EntryView { value: fresh, expires_at: None }
    }
}

/// `LPUSH`: each of `values` in turn becomes the head of the queue under
/// `key`, so the last of them is the head in the end. A key that is not live
/// starts with an empty queue that never expires. The reply is the length of
/// the queue.
pub open spec fn lpush(keys: Keys, key: Seq<char>, values: Seq<Seq<char>>, now: u64) -> Outcome {
    let keys = touch(keys, key, now);
    let found = entry_or(keys, key, ValueView::Queue(Seq::empty()));
    match found.value {
        ValueView::Queue(q) => {
            let queue = values.reverse() + q;
            answer(
                keys.insert(
                    key,
                    EntryView { value: ValueView::Queue(queue), expires_at: found.expires_at },
                ),
                ResponseView::Integer(count(queue.len())),
            )
        },
        _ => answer(keys, ResponseView::wrong_type()),
    }
}

/// `LPOP`: the head of the queue under `key` leaves it and is the reply; a
/// queue that this empties is gone with its key.
pub open spec fn lpop(keys: Keys, key: Seq<char>, now: u64) -> Outcome {
    let keys = touch(keys, key, now);
    if !keys.contains_key(key) {
        answer(keys, ResponseView::Nil)
    } else {
        match keys[key].value {
            ValueView::Queue(q) => if q.len() == 0 {
                answer(keys, ResponseView::Nil)
            } else {
                let rest = q.drop_first();
                answer(
                    if rest.len() == 0 {
                        keys.remove(key)
                    } else {
                        keys.insert(
                            key,
                            EntryView {
                                value: ValueView::Queue(rest),
                                expires_at: keys[key].expires_at,
                            },
                        )
                    },
                    ResponseView::BulkString(Some(q.first())),
                )
            },
            _ => answer(keys, ResponseView::wrong_type()),
        }
    }
}

/// `LLEN`: the length of the queue under `key`; 0 if the key is not live.
pub open spec fn llen(keys: Keys, key: Seq<char>, now: u64) -> Outcome {
    let keys = touch(keys, key, now);
    if !keys.contains_key(key) {
        answer(keys, ResponseView::Integer(0))
    } else {
        match keys[key].value {
            ValueView::Queue(q) => answer(keys, ResponseView::Integer(count(q.len()))),
            _ => answer(keys, ResponseView::wrong_type()),
        }
    }
}

/// `SADD`: the set under `key` gains `members`. A key that is not live starts
/// with an empty set that never expires. The reply counts the members that
/// the set did not hold before.
pub open spec fn sadd(keys: Keys, key: Seq<char>, members: Seq<Seq<char>>, now: u64) -> Outcome {
    let keys = touch(keys, key, now);
    let found = entry_or(keys, key, ValueView::MemberSet(Set::empty()));
    match found.value {
        ValueView::MemberSet(s) => answer(
            keys.insert(
                key,
                EntryView {
                    value: ValueView::MemberSet(s.union(members.to_set())),
                    expires_at: found.expires_at,
                },
            ),
            ResponseView::Integer(count(members.to_set().difference(s).len())),
        ),
        _ => answer(keys, ResponseView::wrong_type()),
    }
}

/// `SREM`: the set under `key` loses `members`; a set that is empty then is
/// gone with its key. The reply counts the members that the set held.
pub open spec fn srem(keys: Keys, key: Seq<char>, members: Seq<Seq<char>>, now: u64) -> Outcome {
    let keys = touch(keys, key, now);
    if !keys.contains_key(key) {
        answer(keys, ResponseView::Integer(0))
    } else {
        match keys[key].value {
            ValueView::MemberSet(s) => {
                let rest = s.difference(members.to_set());
                answer(
                    if rest.is_empty() {
                        keys.remove(key)
                    } else {
                        keys.insert(
                            key,
                            EntryView {
                                value: ValueView::MemberSet(rest),
                                expires_at: keys[key].expires_at,
                            },
                        )
                    },
                    ResponseView::Integer(count(members.to_set().intersect(s).len())),
                )
            },
            _ => answer(keys, ResponseView::wrong_type()),
        }
    }
}

/// `SCARD`: the number of members of the set under `key`; 0 if the key is not
/// live.
pub open spec fn scard(keys: Keys, key: Seq<char>, now: u64) -> Outcome {
    let keys = touch(keys, key, now);
    if !keys.contains_key(key) {
        answer(keys, ResponseView::Integer(0))
    } else {
        match keys[key].value {
            ValueView::MemberSet(s) => answer(keys, ResponseView::Integer(count(s.len()))),
            _ => answer(keys, ResponseView::wrong_type()),
        }
    }
}

/// True when `names` are the keys of `keys` that start with `prefix`, each
/// once, in some order.
pub open spec fn names_with_prefix(keys: Keys, prefix: Seq<char>, names: Seq<Seq<char>>) -> bool {
    &&& names.no_duplicates()
    &&& forall|k: Seq<char>| #[trigger]
        names.contains(k) <==> keys.contains_key(k) && prefix.is_prefix_of(k)
}

/// The reply that lists `names`.
pub open spec fn listing(names: Seq<Seq<char>>) -> ResponseView {
    ResponseView::Array(Seq::new(names.len(), |i: int| ResponseView::BulkString(Some(names[i]))))
}

/// `KEYS`: what holds of the outcome. The keyspace loses every entry that has
/// expired; the reply lists the keys left that start with `prefix`, each
/// once. The order is left open.
pub open spec fn keys_outcome(keys: Keys, prefix: Seq<char>, now: u64, out: Outcome) -> bool {
    &&& out.keys == swept(keys, now)
    &&& out.record is None
    &&& exists|names: Seq<Seq<char>>| #[trigger]
        names_with_prefix(out.keys, prefix, names) && out.reply == listing(names)
}

/// What one journal record does to the keyspace: `set` with a value stores
/// the text, `del` removes the key, anything else changes nothing.
pub open spec fn apply(keys: Keys, record: LogEntryView) -> Keys {
    if record.op == "set"@ {
        match record.value {
            Some(v) => keys.insert(record.key, EntryView::scalar(v, record.expires_at())),
            None => keys,
        }
    } else if record.op == "del"@ {
        keys.remove(record.key)
    } else {
        keys
    }
}

/// What a run of journal records does to the keyspace, oldest first.
pub open spec fn replay(keys: Keys, records: Seq<LogEntryView>) -> Keys
    decreases records.len(),
{
    if records.len() == 0 {
        keys
    } else {
        apply(replay(keys, records.drop_last()), records.last())
    }
}

} // verus!
