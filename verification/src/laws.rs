//! Laws of the commands: what holds of every keyspace, key and instant.
//!
//! Each law is a proof over the functions of [`crate::model`], which are what
//! the methods of the store are proved to compute.

use crate::aof::LogEntryView;
use crate::clock::{deadline, instant_of, stamp_of};
use crate::decimal::{decimal, parse_i64};
use crate::error::ResponseView;
use crate::model;
use crate::model::{
    answer, apply, count, del, exists_key, get, incr, live, llen, lpop, lpush, names_with_prefix, put,
    replay, sadd, scard, srem, swept, touch, ttl, Keys,
};
use crate::types::{EntryView, ValueView};
use vstd::prelude::*;

verus! {

/// An entry that has expired stays expired.
pub proof fn law_expired_stays_expired(entry: EntryView, now: u64, later: u64)
    requires
        entry.expired_at(now),
        now <= later,
    ensures
        entry.expired_at(later),
{
}

/// A key whose entry has expired is not observed: every command that reads
/// answers as for a key that is not there, and every command does what it
/// does when the key is not there.
pub proof fn law_expired_is_absent(
    keys: Keys,
    key: Seq<char>,
    values: Seq<Seq<char>>,
    now: u64,
)
    requires
        keys.contains_key(key),
        keys[key].expired_at(now),
    ensures
        get(keys, key, now).reply == ResponseView::Nil,
        exists_key(keys, key, now).reply == ResponseView::Integer(0),
        ttl(keys, key, now).reply == ResponseView::Integer(-2i64),
        del(keys, key, now).reply == ResponseView::Integer(0),
        lpop(keys, key, now).reply == ResponseView::Nil,
        llen(keys, key, now).reply == ResponseView::Integer(0),
        scard(keys, key, now).reply == ResponseView::Integer(0),
        srem(keys, key, values, now).reply == ResponseView::Integer(0),
        get(keys, key, now) == get(keys.remove(key), key, now),
        exists_key(keys, key, now) == exists_key(keys.remove(key), key, now),
        ttl(keys, key, now) == ttl(keys.remove(key), key, now),
        del(keys, key, now) == del(keys.remove(key), key, now),
        incr(keys, key, now) == incr(keys.remove(key), key, now),
        lpush(keys, key, values, now) == lpush(keys.remove(key), key, values, now),
        lpop(keys, key, now) == lpop(keys.remove(key), key, now),
        llen(keys, key, now) == llen(keys.remove(key), key, now),
        sadd(keys, key, values, now) == sadd(keys.remove(key), key, values, now),
        srem(keys, key, values, now) == srem(keys.remove(key), key, values, now),
        scard(keys, key, now) == scard(keys.remove(key), key, now),
        !swept(keys, now).contains_key(key),
{
    let gone = keys.remove(key);
    assert(touch(keys, key, now) == gone);
    assert(touch(gone, key, now) == gone);
    assert(gone.remove(key) =~= gone);
}

/// What `SET` stored is what `GET` gives, as long as the key has not expired.
pub proof fn law_get_after_set(
    keys: Keys,
    key: Seq<char>,
    value: Seq<char>,
    ttl_secs: Option<u64>,
    now: u64,
    later: u64,
)
    requires
        ttl_secs matches Some(secs) ==> later <= deadline(now, secs),
    ensures
        get(model::set(keys, key, value, ttl_secs, now).keys, key, later).reply
            == ResponseView::BulkString(Some(value)),
        exists_key(model::set(keys, key, value, ttl_secs, now).keys, key, later).reply
            == ResponseView::Integer(1),
{
}

/// A key set to live `secs` seconds is gone at every instant after its
/// deadline; with no seconds to live, at every instant after the `SET`.
pub proof fn law_set_expires(
    keys: Keys,
    key: Seq<char>,
    value: Seq<char>,
    secs: u64,
    now: u64,
    later: u64,
)
    requires
        later > deadline(now, secs),
    ensures
        get(model::set(keys, key, value, Some(secs), now).keys, key, later).reply
            == ResponseView::Nil,
        exists_key(model::set(keys, key, value, Some(secs), now).keys, key, later).reply
            == ResponseView::Integer(0),
        ttl(model::set(keys, key, value, Some(secs), now).keys, key, later).reply
            == ResponseView::Integer(-2i64),
        secs == 0 ==> deadline(now, secs) == now,
{
}

/// `TTL` right after `SET` gives the lifetime back, and -1 where there is
/// none.
pub proof fn law_ttl_after_set(
    keys: Keys,
    key: Seq<char>,
    value: Seq<char>,
    ttl_secs: Option<u64>,
    now: u64,
)
    requires
        ttl_secs matches Some(secs) ==> now + secs * 1000 <= u64::MAX,
    ensures
        ttl(model::set(keys, key, value, ttl_secs, now).keys, key, now).reply
            == ResponseView::Integer(
            match ttl_secs {
                Some(secs) => secs as i64,
                None => -1i64,
            },
        ),
{
    if let Some(secs) = ttl_secs {
        assert((secs * 1000) / 1000 == secs) by (nonlinear_arith);
    }
}

/// A key that `DEL` took is not there, whatever the instant at which one
/// looks.
pub proof fn law_del_then_absent(keys: Keys, key: Seq<char>, now: u64, later: u64)
    ensures
        get(del(keys, key, now).keys, key, later).reply == ResponseView::Nil,
        exists_key(del(keys, key, now).keys, key, later).reply == ResponseView::Integer(0),
        del(del(keys, key, now).keys, key, later).reply == ResponseView::Integer(0),
        del(del(keys, key, now).keys, key, later).record is None,
{
}

/// A command on a live key that holds another kind of value is refused and
/// changes nothing.
pub proof fn law_wrong_kind_changes_nothing(
    keys: Keys,
    key: Seq<char>,
    values: Seq<Seq<char>>,
    now: u64,
)
    requires
        live(keys, key, now),
    ensures
        !(keys[key].value is Scalar) ==> get(keys, key, now) == answer(
            keys,
            ResponseView::wrong_type(),
        ) && incr(keys, key, now) == answer(keys, ResponseView::wrong_type()),
        !(keys[key].value is Queue) ==> lpush(keys, key, values, now) == answer(
            keys,
            ResponseView::wrong_type(),
        ) && lpop(keys, key, now) == answer(keys, ResponseView::wrong_type()) && llen(
            keys,
            key,
            now,
        ) == answer(keys, ResponseView::wrong_type()),
        !(keys[key].value is MemberSet) ==> sadd(keys, key, values, now) == answer(
            keys,
            ResponseView::wrong_type(),
        ) && srem(keys, key, values, now) == answer(keys, ResponseView::wrong_type()) && scard(
            keys,
            key,
            now,
        ) == answer(keys, ResponseView::wrong_type()),
{
}

/// `KEYS` lists no key whose entry has expired.
pub proof fn law_keys_skip_expired(
    keys: Keys,
    key: Seq<char>,
    prefix: Seq<char>,
    names: Seq<Seq<char>>,
    now: u64,
)
    requires
        keys.contains_key(key),
        keys[key].expired_at(now),
        names_with_prefix(swept(keys, now), prefix, names),
    ensures
        !names.contains(key),
{
}

/// `KEYS` with the empty prefix lists exactly the keys that are live.
pub proof fn law_keys_of_empty_prefix(keys: Keys, names: Seq<Seq<char>>, now: u64)
    requires
        names_with_prefix(swept(keys, now), Seq::empty(), names),
    ensures
        forall|k: Seq<char>| #[trigger] names.contains(k) <==> live(keys, k, now),
{
    assert forall|k: Seq<char>| #[trigger] names.contains(k) <==> live(keys, k, now) by {
        assert(Seq::<char>::empty().is_prefix_of(k));
    }
}

/// `LPUSH` on a key that is not live leaves the values in reverse: the last
/// one pushed is the head.
pub proof fn law_lpush_reverses(keys: Keys, key: Seq<char>, values: Seq<Seq<char>>, now: u64)
    requires
        !live(keys, key, now),
    ensures
        lpush(keys, key, values, now).keys.contains_key(key),
        lpush(keys, key, values, now).keys[key].value matches ValueView::Queue(q) && {
            &&& q.len() == values.len()
            &&& forall|i: int| 0 <= i < q.len() ==> q[i] == values[values.len() - 1 - i]
        },
        lpush(keys, key, values, now).reply == ResponseView::Integer(count(values.len())),
{
    let q = values.reverse() + Seq::<Seq<char>>::empty();
    assert(q =~= values.reverse());
}

/// `LPOP` gives back what `LPUSH` pushed last, and leaves what `LPUSH` of the
/// values before it would have left.
pub proof fn law_lpop_undoes_lpush(
    keys: Keys,
    key: Seq<char>,
    values: Seq<Seq<char>>,
    now: u64,
    later: u64,
)
    requires
        values.len() > 0,
        !live(keys, key, now),
    ensures
        lpop(lpush(keys, key, values, now).keys, key, later).reply == ResponseView::BulkString(
            Some(values.last()),
        ),
        values.len() > 1 ==> lpop(lpush(keys, key, values, now).keys, key, later).keys == lpush(
            keys,
            key,
            values.drop_last(),
            now,
        ).keys,
        values.len() == 1 ==> !lpop(lpush(keys, key, values, now).keys, key, later).keys.contains_key(
            key,
        ),
{
    let base = touch(keys, key, now);
    let pushed = lpush(keys, key, values, now).keys;
    let q = values.reverse() + Seq::<Seq<char>>::empty();
    assert(q =~= values.reverse());
    assert(q.first() == values.last());
    assert(touch(pushed, key, later) == pushed);
    if values.len() > 1 {
        let fewer = values.drop_last().reverse() + Seq::<Seq<char>>::empty();
        assert(q.drop_first() =~= fewer);
        assert(lpop(pushed, key, later).keys =~= lpush(keys, key, values.drop_last(), now).keys);
    }
}

/// `SADD` on a key that is not live stores the set of the members, and counts
/// each member once.
pub proof fn law_sadd_stores_the_set(keys: Keys, key: Seq<char>, members: Seq<Seq<char>>, now: u64)
    requires
        !live(keys, key, now),
    ensures
        sadd(keys, key, members, now).keys.contains_key(key),
        sadd(keys, key, members, now).keys[key].value == ValueView::MemberSet(members.to_set()),
        sadd(keys, key, members, now).reply == ResponseView::Integer(
            count(members.to_set().len()),
        ),
        members.to_set().len() <= members.len(),
{
    let none = Set::<Seq<char>>::empty();
    assert(none.union(members.to_set()) =~= members.to_set());
    assert(members.to_set().difference(none) =~= members.to_set());
    members.lemma_cardinality_of_set();
}

/// `SADD` on a live set adds the members to it and counts those that it did
/// not hold.
pub proof fn law_sadd_counts_the_new(
    keys: Keys,
    key: Seq<char>,
    held: Set<Seq<char>>,
    members: Seq<Seq<char>>,
    now: u64,
)
    requires
        live(keys, key, now),
        keys[key].value == ValueView::MemberSet(held),
    ensures
        sadd(keys, key, members, now).keys[key].value == ValueView::MemberSet(
            held.union(members.to_set()),
        ),
        sadd(keys, key, members, now).keys[key].expires_at == keys[key].expires_at,
        sadd(keys, key, members, now).reply == ResponseView::Integer(
            count(members.to_set().difference(held).len()),
        ),
{
}

/// `INCR` on a key that is not live is `SET` of that key to `1` without a
/// lifetime, but for the reply.
pub proof fn law_incr_starts_at_one(keys: Keys, key: Seq<char>, now: u64)
    requires
        !live(keys, key, now),
    ensures
        incr(keys, key, now).keys == model::set(keys, key, decimal(1), None, now).keys,
        incr(keys, key, now).record == model::set(keys, key, decimal(1), None, now).record,
        incr(keys, key, now).reply == ResponseView::Integer(1),
{
    let base = touch(keys, key, now);
    assert(incr(keys, key, now).keys =~= model::set(keys, key, decimal(1), None, now).keys);
}

/// `INCR` on a live integer is storing its successor under the key with the
/// expiry that the key had; where it had none, that is `SET` of the
/// successor without a lifetime, but for the reply.
pub proof fn law_incr_is_set(keys: Keys, key: Seq<char>, text: Seq<char>, n: i64, now: u64)
    requires
        live(keys, key, now),
        keys[key].value == ValueView::Scalar(text),
        parse_i64(text) == Some(n),
        n < i64::MAX,
    ensures
        incr(keys, key, now) == put(
            keys,
            key,
            decimal(n + 1),
            keys[key].expires_at,
            ResponseView::Integer((n + 1) as i64),
        ),
        keys[key].expires_at is None ==> {
            &&& incr(keys, key, now).keys == model::set(keys, key, decimal(n + 1), None, now).keys
            &&& incr(keys, key, now).record == model::set(keys, key, decimal(n + 1), None, now).record
        },
{
}

/// `INCR` counts: after `INCR` has stored a number, the next `INCR` of the
/// key, while it is live, answers with the successor.
pub proof fn law_incr_counts(keys: Keys, key: Seq<char>, n: i64, now: u64, later: u64)
    requires
        incr(keys, key, now).reply == ResponseView::Integer(n),
        n < i64::MAX,
        live(incr(keys, key, now).keys, key, later),
    ensures
        incr(incr(keys, key, now).keys, key, later).reply == ResponseView::Integer((n + 1) as i64),
{
    let first = incr(keys, key, now);
    let base = touch(keys, key, now);
    crate::decimal::lemma_parse_i64_decimal(n);
    assert(first.keys[key].value == ValueView::Scalar(decimal(n as int)));
}

/// A queue that `LPOP` empties is gone: the key is no longer there, whatever
/// the instant at which one looks.
pub proof fn law_lpop_drains(keys: Keys, key: Seq<char>, head: Seq<char>, now: u64, later: u64)
    requires
        live(keys, key, now),
        keys[key].value == ValueView::Queue(seq![head]),
    ensures
        lpop(keys, key, now).reply == ResponseView::BulkString(Some(head)),
        !lpop(keys, key, now).keys.contains_key(key),
        exists_key(lpop(keys, key, now).keys, key, later).reply == ResponseView::Integer(0),
{
    assert(seq![head].drop_first().len() == 0);
}

/// `LPOP` leaves no empty queue behind where it took an item.
pub proof fn law_lpop_leaves_no_empty_queue(keys: Keys, key: Seq<char>, now: u64)
    requires
        lpop(keys, key, now).reply is BulkString,
        lpop(keys, key, now).keys.contains_key(key),
    ensures
        lpop(keys, key, now).keys[key].value matches ValueView::Queue(q) && q.len() > 0,
{
}

/// A set that `SREM` empties is gone: the key is no longer there, whatever
/// the instant at which one looks.
pub proof fn law_srem_drains(
    keys: Keys,
    key: Seq<char>,
    held: Set<Seq<char>>,
    members: Seq<Seq<char>>,
    now: u64,
    later: u64,
)
    requires
        live(keys, key, now),
        keys[key].value == ValueView::MemberSet(held),
        held.subset_of(members.to_set()),
    ensures
        !srem(keys, key, members, now).keys.contains_key(key),
        exists_key(srem(keys, key, members, now).keys, key, later).reply == ResponseView::Integer(
            0,
        ),
{
    assert(held.difference(members.to_set()) =~= Set::<Seq<char>>::empty());
}

/// `SREM` leaves no empty set behind.
pub proof fn law_srem_leaves_no_empty_set(
    keys: Keys,
    key: Seq<char>,
    members: Seq<Seq<char>>,
    now: u64,
)
    requires
        srem(keys, key, members, now).reply is Integer,
        srem(keys, key, members, now).keys.contains_key(key),
    ensures
        srem(keys, key, members, now).keys[key].value matches ValueView::MemberSet(s)
            && !s.is_empty(),
{
}

/// What the commands that read answer depends on the live entries alone.
pub proof fn law_reads_see_live_entries(a: Keys, b: Keys, key: Seq<char>, now: u64)
    requires
        swept(a, now) == swept(b, now),
    ensures
        get(a, key, now).reply == get(b, key, now).reply,
        exists_key(a, key, now).reply == exists_key(b, key, now).reply,
        ttl(a, key, now).reply == ttl(b, key, now).reply,
        llen(a, key, now).reply == llen(b, key, now).reply,
        scard(a, key, now).reply == scard(b, key, now).reply,
        swept(swept(a, now), now) == swept(swept(b, now), now),
{
    assert(swept(a, now).contains_key(key) == live(a, key, now));
    assert(swept(b, now).contains_key(key) == live(b, key, now));
    if live(a, key, now) {
        assert(swept(a, now)[key] == a[key]);
        assert(swept(b, now)[key] == b[key]);
    }
}

/// A command that writes to the journal: `SET`, `DEL` or `INCR`, and the
/// instant at which it runs.
pub enum Write {
    Put { key: Seq<char>, value: Seq<char>, ttl_secs: Option<u64>, at: u64 },
    Delete { key: Seq<char>, at: u64 },
    Count { key: Seq<char>, at: u64 },
}

impl Write {
    /// The instant at which the command runs.
    pub open spec fn at(self) -> u64 {
        match self {
            Write::Put { at, .. } => at,
            Write::Delete { at, .. } => at,
            Write::Count { at, .. } => at,
        }
    }

    /// The keyspace after the command.
    pub open spec fn keys_after(self, keys: Keys) -> Keys {
        match self {
            Write::Put { key, value, ttl_secs, at } => model::set(keys, key, value, ttl_secs, at).keys,
            Write::Delete { key, at } => del(keys, key, at).keys,
            Write::Count { key, at } => incr(keys, key, at).keys,
        }
    }

    /// What the command writes to the journal.
    pub open spec fn record(self, keys: Keys) -> Option<LogEntryView> {
        match self {
            Write::Put { key, value, ttl_secs, at } => model::set(keys, key, value, ttl_secs, at).record,
            Write::Delete { key, at } => del(keys, key, at).record,
            Write::Count { key, at } => incr(keys, key, at).record,
        }
    }
}

/// True when none of `writes` runs before the one before it, and none after
/// `now`.
pub open spec fn in_time(writes: Seq<Write>, now: u64) -> bool {
    &&& forall|i: int, j: int| 0 <= i <= j < writes.len() ==> writes[i].at() <= writes[j].at()
    &&& forall|i: int| 0 <= i < writes.len() ==> writes[i].at() <= now
}

/// The keyspace after `writes` ran on `keys`, first to last.
pub open spec fn written(keys: Keys, writes: Seq<Write>) -> Keys
    decreases writes.len(),
{
    if writes.len() == 0 {
        keys
    } else {
        writes.last().keys_after(written(keys, writes.drop_last()))
    }
}

/// The journal that `writes` leave when they run on `keys`, first to last.
pub open spec fn journal_of(keys: Keys, writes: Seq<Write>) -> Seq<LogEntryView>
    decreases writes.len(),
{
    if writes.len() == 0 {
        Seq::empty()
    } else {
        let before = journal_of(keys, writes.drop_last());
        match writes.last().record(written(keys, writes.drop_last())) {
            Some(r) => before.push(r),
            None => before,
        }
    }
}

/// Replaying the journal brings the keyspace back. Let `SET`, `DEL` and `INCR`
/// commands run on an empty store, none before the one before it. A store
/// that replays the journal they left holds, at any instant from the last
/// command on, the same live entries, so every command that reads answers
/// the same on both.
pub proof fn law_replay_round_trip(writes: Seq<Write>, now: u64)
    requires
        in_time(writes, now),
    ensures
        swept(replay(Keys::empty(), journal_of(Keys::empty(), writes)), now) == swept(
            written(Keys::empty(), writes),
            now,
        ),
    decreases writes.len(),
{
    let none = Keys::empty();
    if writes.len() > 0 {
        let before = writes.drop_last();
        let last = writes.last();
        let ran = written(none, before);
        let read = replay(none, journal_of(none, before));
        assert(in_time(before, now) && in_time(before, last.at())) by {
            assert forall|i: int| 0 <= i < before.len() implies before[i].at() <= last.at() by {
                assert(before[i] == writes[i]);
                assert(writes[i].at() <= writes[writes.len() - 1].at());
            }
            assert forall|i: int, j: int| 0 <= i <= j < before.len() implies before[i].at()
                <= before[j].at() by {
                assert(before[i] == writes[i] && before[j] == writes[j]);
            }
            assert forall|i: int| 0 <= i < before.len() implies before[i].at() <= now by {
                assert(before[i] == writes[i]);
            }
        }
        law_replay_round_trip(before, now);
        law_replay_round_trip(before, last.at());
        let journal = journal_of(none, before);
        match last.record(ran) {
            Some(r) => {
                assert(journal_of(none, writes) == journal.push(r));
                assert(journal.push(r).drop_last() =~= journal);
                assert(replay(none, journal.push(r)) == apply(read, r));
            },
            None => {
                assert(journal_of(none, writes) == journal);
            },
        }
        let ran_after = last.keys_after(ran);
        let read_after = replay(none, journal_of(none, writes));
        match last {
            Write::Put { key, value, ttl_secs, at } => {
                crate::clock::lemma_stamp_round_trip(0);
                assert forall|t: u64| instant_of(stamp_of(t)) == t by {
                    crate::clock::lemma_stamp_round_trip(t);
                }
                reveal_strlit("set");
                reveal_strlit("del");
                assert(read_after == read.insert(key, ran_after[key]));
                assert(swept(read_after, now) =~= swept(ran_after, now)) by {
                    assert forall|k: Seq<char>| live(read_after, k, now) == live(
                        ran_after,
                        k,
                        now,
                    ) && (live(ran_after, k, now) ==> read_after[k] == ran_after[k]) by {
                        if k != key {
                            assert(swept(read, now).contains_key(k) == live(read, k, now));
                            assert(swept(ran, now).contains_key(k) == live(ran, k, now));
                            if live(ran, k, now) {
                                assert(swept(read, now)[k] == read[k]);
                                assert(swept(ran, now)[k] == ran[k]);
                            }
                        }
                    }
                }
            },
            Write::Count { key, at } => {
                assert forall|t: u64| instant_of(stamp_of(t)) == t by {
                    crate::clock::lemma_stamp_round_trip(t);
                }
                assert(swept(read, at).contains_key(key) == live(read, key, at));
                assert(swept(ran, at).contains_key(key) == live(ran, key, at));
                assert(swept(read_after, now) =~= swept(ran_after, now)) by {
                    assert forall|k: Seq<char>| live(read_after, k, now) == live(
                        ran_after,
                        k,
                        now,
                    ) && (live(ran_after, k, now) ==> read_after[k] == ran_after[k]) by {
                        assert(swept(read, now).contains_key(k) == live(read, k, now));
                        assert(swept(ran, now).contains_key(k) == live(ran, k, now));
                        if live(ran, k, now) {
                            assert(swept(read, now)[k] == read[k]);
                            assert(swept(ran, now)[k] == ran[k]);
                        }
                        if k == key && !live(ran, key, at) && read.contains_key(key) {
                            law_expired_stays_expired(read[key], at, now);
                        }
                        if k == key && ran.contains_key(key) && ran[key].expired_at(at) {
                            law_expired_stays_expired(ran[key], at, now);
                        }
                    }
                }
            },
            Write::Delete { key, at } => {
                reveal_strlit("set");
                reveal_strlit("del");
                assert("del"@ != "set"@) by {
                    assert("del"@[0] != "set"@[0]);
                }
                assert(swept(read, at).contains_key(key) == live(read, key, at));
                assert(swept(ran, at).contains_key(key) == live(ran, key, at));
                assert(swept(read_after, now) =~= swept(ran_after, now)) by {
                    assert forall|k: Seq<char>| live(read_after, k, now) == live(
                        ran_after,
                        k,
                        now,
                    ) && (live(ran_after, k, now) ==> read_after[k] == ran_after[k]) by {
                        assert(swept(read, now).contains_key(k) == live(read, k, now));
                        assert(swept(ran, now).contains_key(k) == live(ran, k, now));
                        if live(ran, k, now) {
                            assert(swept(read, now)[k] == read[k]);
                            assert(swept(ran, now)[k] == ran[k]);
                        }
                        if k == key && !live(ran, key, at) && read.contains_key(key) {
                            law_expired_stays_expired(read[key], at, now);
                        }
                    }
                }
            },
        }
    }
}

} // verus!
