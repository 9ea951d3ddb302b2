//! The store: the keyspace and, if the store keeps one, the journal. Each
//! command is a method; what it does is what [`crate::model`] says.
//!
//! Every command comes twice. The method ending in `_at` takes the instant at
//! which it runs. The method without that ending reads the system clock and
//! runs at the instant it read, so its contract holds for some instant.

use crate::aof::{record_views, Aof, LogEntry, LogEntryView};
use crate::clock::{deadline_after, from_stamp, now_millis, seconds_until};
use crate::decimal::{i64_to_string, str_to_i64};
use crate::error::{RedisError, Response, ResponseView};
use crate::keyspace::{Keyspace, Slot};
use crate::model;
use crate::model::{Keys, Outcome};
use crate::text::same_text;
use crate::types::{Entry, RedisValue};
use vstd::prelude::*;

verus! {

/// The keyspace and the journal.
pub struct Store {
    map: Keyspace,
    aof: Option<Aof>,
}

/// A [`Store`] as a map of keys and, if it keeps a journal, the records that
/// wait to be written.
pub struct StoreView {
    pub keys: Keys,
    pub journal: Option<Seq<LogEntryView>>,
}

impl StoreView {
    /// The journal with `record` added, where there is a journal and a record.
    pub open spec fn journal_with(self, record: Option<LogEntryView>) -> Option<Seq<LogEntryView>> {
        match (self.journal, record) {
            (Some(j), Some(r)) => Some(j.push(r)),
            (Some(j), None) => Some(j),
            (None, _) => None,
        }
    }

    /// The store after a command with the outcome `out`.
    pub open spec fn after(self, out: Outcome) -> StoreView {
        StoreView { keys: out.keys, journal: self.journal_with(out.record) }
    }
}

/// True when a command with the outcome `out` leads from `before` to `after`
/// and answers `reply`.
pub open spec fn follows(
    before: StoreView,
    after: StoreView,
    reply: ResponseView,
    out: Outcome,
) -> bool {
    after == before.after(out) && reply == out.reply
}

/// Computes [`model::count`].
pub fn count_of(n: usize) -> (r: i64)
    ensures
        r == model::count(n as nat),
{
    let wide: u64 = n as u64;
    if wide > 0x7fff_ffff_ffff_ffffu64 {
        i64::MAX
    } else {
        wide as i64
    }
}

impl View for Store {
    type V = StoreView;

    closed spec fn view(&self) -> StoreView {
        StoreView {
            keys: self.map@,
            journal: match self.aof {
                Some(a) => Some(a@),
                None => None,
            },
        }
    }
}

impl Store {
    /// A store without keys, which keeps `aof` as its journal if there is one.
    pub fn new(aof: Option<Aof>) -> (r: Store)
        ensures
            r@.keys == Keys::empty(),
            r@.journal == match aof {
                Some(a) => Some(a@),
                None => None,
            },
    {
        Store { map: Keyspace::new(), aof }
    }

    /// Hands `record` to the journal, if the store keeps one.
    fn note(&mut self, record: LogEntry)
        ensures
            final(self)@.keys == old(self)@.keys,
            final(self)@.journal == old(self)@.journal_with(Some(record@)),
    {
        match &mut self.aof {
            Some(aof) => {
                aof.log(record);
            },
            None => {},
        }
    }

    /// Takes out `key` if its entry has expired.
    fn touch(&mut self, key: &str, now: u64)
        ensures
            final(self)@.keys == model::touch(old(self)@.keys, key@, now),
            final(self)@.journal == old(self)@.journal,
    {
        let expired = match self.map.get(key) {
            Some(entry) => entry.is_expired_at(now),
            None => false,
        };
        if expired {
            self.map.take(key);
        }
    }

    /// Takes the records that wait in the journal, oldest first, to be
    /// written; none waits afterwards. A store without a journal gives none.
    pub fn take_log(&mut self) -> (records: Vec<LogEntry>)
        ensures
            final(self)@.keys == old(self)@.keys,
            match old(self)@.journal {
                Some(j) => record_views(records@) == j && final(self)@.journal == Some(
                    Seq::<LogEntryView>::empty(),
                ),
                None => records@.len() == 0 && final(self)@.journal is None,
            },
    {
        match &mut self.aof {
            Some(aof) => aof.take_pending(),
            None => Vec::new(),
        }
    }

    /// Applies the records of a journal, oldest first (see [`model::replay`]).
    /// Nothing of this is written to the store's own journal.
    pub fn load_from_aof(&mut self, entries: Vec<LogEntry>)
        ensures
            final(self)@.keys == model::replay(old(self)@.keys, record_views(entries@)),
            final(self)@.journal == old(self)@.journal,
    {
        let ghost records = record_views(entries@);
        let mut i: usize = 0;
        proof {
            assert(records.take(0) =~= Seq::<LogEntryView>::empty());
        }
        while i < entries.len()
            invariant
                i <= entries.len(),
                records == record_views(entries@),
                self@.keys == model::replay(old(self)@.keys, records.take(i as int)),
                self@.journal == old(self)@.journal,
            decreases entries.len() - i,
        {
            let entry = &entries[i];
            proof {
                let now = records.take(i + 1);
                assert(now.drop_last() =~= records.take(i as int));
                assert(now.last() == entry@);
            }
            if same_text(entry.op.as_str(), "set") {
                match &entry.value {
                    Some(value) => {
                        let expires_at = match entry.expires_at_ms {
                            Some(ms) => Some(from_stamp(ms)),
                            None => None,
                        };
                        self.map.insert(entry.key.clone(), Entry::string(value.clone(), expires_at));
                    },
                    None => {},
                }
            } else if same_text(entry.op.as_str(), "del") {
                self.map.take(entry.key.as_str());
            }
            i += 1;
        }
        proof {
            assert(records.take(entries.len() as int) =~= records);
        }
    }

    /// `SET` at the instant `now` (see [`model::set`]).
    pub fn set_at(&mut self, key: String, value: String, ttl_secs: Option<u64>, now: u64) -> (r:
        Response)
        ensures
            follows(
                old(self)@,
                final(self)@,
                r@,
                model::set(old(self)@.keys, key@, value@, ttl_secs, now),
            ),
    {
        let expires_at = match ttl_secs {
            Some(secs) => Some(deadline_after(now, secs)),
            None => None,
        };
        self.map.insert(key.clone(), Entry::string(value.clone(), expires_at));
        self.note(LogEntry::set(key, value, expires_at));
        Response::ok()
    }

    /// `GET` at the instant `now` (see [`model::get`]).
    pub fn get_at(&mut self, key: &str, now: u64) -> (r: Response)
        ensures
            follows(old(self)@, final(self)@, r@, model::get(old(self)@.keys, key@, now)),
    {
        self.touch(key, now);
        match self.map.get(key) {
            Some(entry) => match entry.value.as_string() {
                Some(text) => Response::BulkString(Some(text.clone())),
                None => Response::wrong_type(),
            },
            None => Response::Nil,
        }
    }

    /// `DEL` at the instant `now` (see [`model::del`]).
    pub fn del_at(&mut self, key: &str, now: u64) -> (r: Response)
        ensures
            follows(old(self)@, final(self)@, r@, model::del(old(self)@.keys, key@, now)),
    {
        match self.map.take(key) {
            Some(slot) => {
                if slot.entry.is_expired_at(now) {
                    Response::Integer(0)
                } else {
                    self.note(LogEntry::del(slot.key));
                    Response::Integer(1)
                }
            },
            None => Response::Integer(0),
        }
    }

    /// `EXISTS` at the instant `now` (see [`model::exists_key`]).
    pub fn exists_key_at(&mut self, key: &str, now: u64) -> (r: Response)
        ensures
            follows(old(self)@, final(self)@, r@, model::exists_key(old(self)@.keys, key@, now)),
    {
        self.touch(key, now);
        if self.map.contains_key(key) {
            Response::Integer(1)
        } else {
            Response::Integer(0)
        }
    }

    /// `TTL` at the instant `now` (see [`model::ttl`]).
    pub fn ttl_at(&mut self, key: &str, now: u64) -> (r: Response)
        ensures
            follows(old(self)@, final(self)@, r@, model::ttl(old(self)@.keys, key@, now)),
    {
        self.touch(key, now);
        match self.map.get(key) {
            Some(entry) => match entry.expires_at {
                Some(t) => Response::Integer(seconds_until(t, now)),
                None => Response::Integer(-1),
            },
            None => Response::Integer(-2),
        }
    }

    /// `INCR` at the instant `now` (see [`model::incr`]).
    pub fn incr_at(&mut self, key: &str, now: u64) -> (r: Response)
        ensures
            follows(old(self)@, final(self)@, r@, model::incr(old(self)@.keys, key@, now)),
    {
        self.touch(key, now);
        let ghost keys = self@.keys;
        match self.map.take(key) {
            Some(slot) => {
                let Slot { key: name, entry } = slot;
                let Entry { value, expires_at } = entry;
                match value {
                    RedisValue::String(text) => {
                        let next = match str_to_i64(text.as_str()) {
                            Some(n) => n.checked_add(1),
                            None => None,
                        };
                        match next {
                            Some(n) => {
                                let grown = i64_to_string(n);
                                self.map.restore(
                                    Slot {
                                        key: name.clone(),
                                        entry: Entry::string(grown.clone(), expires_at),
                                    },
                                );
                                proof {
                                    assert(self@.keys =~= model::incr(keys, key@, now).keys);
                                }
                                self.note(LogEntry::set(name, grown, expires_at));
                                Response::Integer(n)
                            },
                            None => {
                                let reply = Response::Error(RedisError::NotInteger(text.clone()));
                                self.map.restore(
                                    Slot {
                                        key: name,
                                        entry: Entry { value: RedisValue::String(text), expires_at },
                                    },
                                );
                                proof {
                                    assert(self@.keys =~= keys);
                                }
                                reply
                            },
                        }
                    },
                    other => {
                        self.map.restore(
                            Slot { key: name, entry: Entry { value: other, expires_at } },
                        );
                        proof {
                            assert(self@.keys =~= keys);
                        }
                        Response::wrong_type()
                    },
                }
            },
            None => {
                let one = i64_to_string(1);
                self.map.restore(
                    Slot { key: key.to_owned(), entry: Entry::string(one.clone(), None) },
                );
                proof {
                    assert(self@.keys =~= model::incr(old(self)@.keys, key@, now).keys);
                }
                self.note(LogEntry::set(key.to_owned(), one, None));
                Response::Integer(1)
            },
        }
    }

    /// Takes out the entry under `key` to work on it: the entry that is live
    /// at `now`, or, if there is none, a new one that holds `fresh` and never
    /// expires. The key comes with it.
    fn lend(&mut self, key: &str, fresh: Entry, now: u64) -> (slot: Slot)
        requires
            fresh.expires_at is None,
        ensures
            slot.key@ == key@,
            slot.entry@ == model::entry_or(
                model::touch(old(self)@.keys, key@, now),
                key@,
                fresh@.value,
            ),
            final(self)@.keys == model::touch(old(self)@.keys, key@, now).remove(key@),
            final(self)@.journal == old(self)@.journal,
    {
        self.touch(key, now);
        match self.map.take(key) {
            Some(slot) => slot,
            None => {
                proof {
                    assert(self@.keys.remove(key@) =~= self@.keys);
                }
                Slot { key: key.to_owned(), entry: fresh }
            },
        }
    }

    /// `LPUSH` at the instant `now` (see [`model::lpush`]).
    pub fn lpush_at(&mut self, key: &str, values: Vec<String>, now: u64) -> (r: Response)
        ensures
            follows(
                old(self)@,
                final(self)@,
                r@,
                model::lpush(old(self)@.keys, key@, values.deep_view(), now),
            ),
    {
        let ghost keys = model::touch(old(self)@.keys, key@, now);
        let ghost items = values.deep_view();
        let mut slot = self.lend(key, Entry::list(None), now);
        let reply = match slot.entry.value.as_list_mut() {
            Some(list) => {
                let ghost q = list.deep_view();
                let mut i: usize = 0;
                proof {
                    assert(items.take(0).reverse() + q =~= q);
                }
                while i < values.len()
                    invariant
                        i <= values.len(),
                        items == values.deep_view(),
                        list.deep_view() == items.take(i as int).reverse() + q,
                    decreases values.len() - i,
                {
                    let ghost before = list.deep_view();
                    list.push_front(values[i].clone());
                    proof {
                        assert(list.deep_view() =~= seq![items[i as int]] + before);
                        assert(items.take(i + 1).reverse() =~= seq![items[i as int]] + items.take(
                            i as int,
                        ).reverse());
                    }
                    i += 1;
                }
                proof {
                    assert(items.take(values.len() as int) =~= items);
                    assert(list.deep_view().len() == list@.len());
                }
                Response::Integer(count_of(list.len()))
            },
            None => Response::wrong_type(),
        };
        self.map.restore(slot);
        proof {
            let want = model::lpush(old(self)@.keys, key@, items, now);
            assert(self@.keys =~= want.keys);
        }
        reply
    }

    /// `LPOP` at the instant `now` (see [`model::lpop`]).
    pub fn lpop_at(&mut self, key: &str, now: u64) -> (r: Response)
        ensures
            follows(old(self)@, final(self)@, r@, model::lpop(old(self)@.keys, key@, now)),
    {
        self.touch(key, now);
        let ghost keys = self@.keys;
        match self.map.take(key) {
            Some(slot) => {
                let mut slot = slot;
                let reply = match slot.entry.value.as_list_mut() {
                    Some(list) => {
                        let ghost q = list.deep_view();
                        match list.pop_front() {
                            Some(head) => {
                                proof {
                                    assert(list.deep_view() =~= q.drop_first());
                                    assert(head@ == q.first());
                                    assert(list.deep_view().len() == list@.len());
                                }
                                Response::BulkString(Some(head))
                            },
                            None => {
                                proof {
                                    assert(q.len() == 0);
                                    assert(list.deep_view() =~= q);
                                }
                                Response::Nil
                            },
                        }
                    },
                    None => Response::wrong_type(),
                };
                let drained = match &slot.entry.value {
                    RedisValue::List(list) => {
                        proof {
                            assert(list.deep_view().len() == list@.len());
                        }
                        list.len() == 0 && !matches!(reply, Response::Nil)
                    },
                    _ => false,
                };
                if !drained {
                    self.map.restore(slot);
                }
                proof {
                    assert(self@.keys =~= model::lpop(old(self)@.keys, key@, now).keys);
                }
                reply
            },
            None => {
                proof {
                    assert(self@.keys =~= keys);
                }
                Response::Nil
            },
        }
    }

    /// `LLEN` at the instant `now` (see [`model::llen`]).
    pub fn llen_at(&mut self, key: &str, now: u64) -> (r: Response)
        ensures
            follows(old(self)@, final(self)@, r@, model::llen(old(self)@.keys, key@, now)),
    {
        self.touch(key, now);
        match self.map.get(key) {
            Some(entry) => match &entry.value {
                RedisValue::List(list) => {
                    proof {
                        assert(list.deep_view().len() == list@.len());
                    }
                    Response::Integer(count_of(list.len()))
                },
                _ => Response::wrong_type(),
            },
            None => Response::Integer(0),
        }
    }

    /// `SCARD` at the instant `now` (see [`model::scard`]).
    pub fn scard_at(&mut self, key: &str, now: u64) -> (r: Response)
        ensures
            follows(old(self)@, final(self)@, r@, model::scard(old(self)@.keys, key@, now)),
    {
        self.touch(key, now);
        match self.map.get(key) {
            Some(entry) => match &entry.value {
                RedisValue::MemberSet(set) => Response::Integer(count_of(set.len())),
                _ => Response::wrong_type(),
            },
            None => Response::Integer(0),
        }
    }

    /// Takes out every entry that has expired at `now`.
    pub fn sweep_at(&mut self, now: u64)
        ensures
            final(self)@.keys == model::swept(old(self)@.keys, now),
            final(self)@.journal == old(self)@.journal,
    {
        self.map.sweep(now);
    }

    /// `SADD` at the instant `now` (see [`model::sadd`]).
    pub fn sadd_at(&mut self, key: &str, members: Vec<String>, now: u64) -> (r: Response)
        ensures
            follows(
                old(self)@,
                final(self)@,
                r@,
                model::sadd(old(self)@.keys, key@, members.deep_view(), now),
            ),
    {
        let ghost items = members.deep_view();
        let mut slot = self.lend(key, Entry::set(None), now);
        let reply = match slot.entry.value.as_set_mut() {
            Some(set) => {
                let ghost held = set@;
                let mut added: usize = 0;
                let mut i: usize = 0;
                proof {
                    assert(items.take(0).to_set() =~= Set::<Seq<char>>::empty());
                    assert(items.take(0).to_set().difference(held) =~= Set::<Seq<char>>::empty());
                    assert(held.union(items.take(0).to_set()) =~= held);
                }
                while i < members.len()
                    invariant
                        i <= members.len(),
                        items == members.deep_view(),
                        set@ == held.union(items.take(i as int).to_set()),
                        items.take(i as int).to_set().difference(held).finite(),
                        added == items.take(i as int).to_set().difference(held).len(),
                        added <= i,
                    decreases members.len() - i,
                {
                    let fresh = set.insert(members[i].clone());
                    proof {
                        let m = items[i as int];
                        let seen = items.take(i as int).to_set();
                        let more = items.take(i + 1).to_set();
                        assert(items.take(i + 1) =~= items.take(i as int).push(m));
                        items.take(i as int).lemma_push_to_set_commute(m);
                        assert(set@ =~= held.union(more));
                        if fresh {
                            assert(more.difference(held) =~= seen.difference(held).insert(m));
                        } else {
                            assert(more.difference(held) =~= seen.difference(held));
                        }
                    }
                    if fresh {
                        added += 1;
                    }
                    i += 1;
                }
                proof {
                    assert(items.take(members.len() as int) =~= items);
                }
                Response::Integer(count_of(added))
            },
            None => Response::wrong_type(),
        };
        self.map.restore(slot);
        proof {
            let want = model::sadd(old(self)@.keys, key@, items, now);
            assert(self@.keys =~= want.keys);
        }
        reply
    }

    /// `SREM` at the instant `now` (see [`model::srem`]).
    pub fn srem_at(&mut self, key: &str, members: Vec<String>, now: u64) -> (r: Response)
        ensures
            follows(
                old(self)@,
                final(self)@,
                r@,
                model::srem(old(self)@.keys, key@, members.deep_view(), now),
            ),
    {
        let ghost items = members.deep_view();
        self.touch(key, now);
        let ghost keys = self@.keys;
        match self.map.take(key) {
            Some(slot) => {
                let mut slot = slot;
                let reply = match slot.entry.value.as_set_mut() {
                    Some(set) => {
                        let ghost held = set@;
                        let mut removed: usize = 0;
                        let mut i: usize = 0;
                        proof {
                            assert(items.take(0).to_set() =~= Set::<Seq<char>>::empty());
                            assert(items.take(0).to_set().intersect(held) =~= Set::<
                                Seq<char>,
                            >::empty());
                            assert(held.difference(items.take(0).to_set()) =~= held);
                        }
                        while i < members.len()
                            invariant
                                i <= members.len(),
                                items == members.deep_view(),
                                set@ == held.difference(items.take(i as int).to_set()),
                                items.take(i as int).to_set().intersect(held).finite(),
                                removed == items.take(i as int).to_set().intersect(held).len(),
                                removed <= i,
                            decreases members.len() - i,
                        {
                            let was_there = set.remove(members[i].as_str());
                            proof {
                                let m = items[i as int];
                                let seen = items.take(i as int).to_set();
                                let more = items.take(i + 1).to_set();
                                assert(items.take(i + 1) =~= items.take(i as int).push(m));
                                items.take(i as int).lemma_push_to_set_commute(m);
                                assert(set@ =~= held.difference(more));
                                if held.contains(m) {
                                    assert(more.intersect(held) =~= seen.intersect(held).insert(m));
                                } else {
                                    assert(more.intersect(held) =~= seen.intersect(held));
                                }
                            }
                            if was_there {
                                removed += 1;
                            }
                            i += 1;
                        }
                        proof {
                            assert(items.take(members.len() as int) =~= items);
                        }
                        Response::Integer(count_of(removed))
                    },
                    None => Response::wrong_type(),
                };
                let drained = match &slot.entry.value {
                    RedisValue::MemberSet(set) => set.is_empty(),
                    _ => false,
                };
                if !drained {
                    self.map.restore(slot);
                }
                proof {
                    assert(self@.keys =~= model::srem(old(self)@.keys, key@, items, now).keys);
                }
                reply
            },
            None => {
                proof {
                    assert(self@.keys =~= keys);
                }
                Response::Integer(0)
            },
        }
    }

    /// `KEYS` at the instant `now` (see [`model::keys_outcome`]).
    pub fn keys_with_prefix_at(&mut self, prefix: &str, now: u64) -> (r: Response)
        ensures
            model::keys_outcome(
                old(self)@.keys,
                prefix@,
                now,
                Outcome { keys: final(self)@.keys, reply: r@, record: None },
            ),
            final(self)@.journal == old(self)@.journal,
    {
        self.map.sweep(now);
        let names = self.map.names(prefix);
        let ghost listed = names.deep_view();
        let mut items: Vec<Response> = Vec::new();
        let mut i: usize = 0;
        while i < names.len()
            invariant
                i <= names.len(),
                listed == names.deep_view(),
                items.len() == i,
                forall|k: int|
                    0 <= k < i ==> (#[trigger] items@[k])@ == ResponseView::BulkString(
                        Some(listed[k]),
                    ),
            decreases names.len() - i,
        {
            items.push(Response::BulkString(Some(names[i].clone())));
            i += 1;
        }
        let reply = Response::Array(items);
        proof {
            reveal_with_fuel(<Response as View>::view, 2);
            assert(reply@ =~= model::listing(listed)) by {
                assert(reply@->Array_0 =~= model::listing(listed)->Array_0);
            }
            assert(model::names_with_prefix(self@.keys, prefix@, listed));
        }
        reply
    }

    /// `SET` at the instant that the system clock shows.
    pub fn set(&mut self, key: String, value: String, ttl_secs: Option<u64>) -> (r: Response)
        ensures
            exists|now: u64|
                follows(old(self)@, final(self)@, r@, #[trigger] model::set(old(self)@.keys, key@, value@, ttl_secs, now)),
    {
        let now = now_millis();
        self.set_at(key, value, ttl_secs, now)
    }

    /// `GET` at the instant that the system clock shows.
    pub fn get(&mut self, key: &str) -> (r: Response)
        ensures
            exists|now: u64|
                follows(old(self)@, final(self)@, r@, #[trigger] model::get(old(self)@.keys, key@, now)),
    {
        let now = now_millis();
        self.get_at(key, now)
    }

    /// `DEL` at the instant that the system clock shows.
    pub fn del(&mut self, key: &str) -> (r: Response)
        ensures
            exists|now: u64|
                follows(old(self)@, final(self)@, r@, #[trigger] model::del(old(self)@.keys, key@, now)),
    {
        let now = now_millis();
        self.del_at(key, now)
    }

    /// `EXISTS` at the instant that the system clock shows.
    pub fn exists_key(&mut self, key: &str) -> (r: Response)
        ensures
            exists|now: u64|
                follows(old(self)@, final(self)@, r@, #[trigger] model::exists_key(old(self)@.keys, key@, now)),
    {
        let now = now_millis();
        self.exists_key_at(key, now)
    }

    /// `TTL` at the instant that the system clock shows.
    pub fn ttl(&mut self, key: &str) -> (r: Response)
        ensures
            exists|now: u64|
                follows(old(self)@, final(self)@, r@, #[trigger] model::ttl(old(self)@.keys, key@, now)),
    {
        let now = now_millis();
        self.ttl_at(key, now)
    }

    /// `INCR` at the instant that the system clock shows.
    pub fn incr(&mut self, key: &str) -> (r: Response)
        ensures
            exists|now: u64|
                follows(old(self)@, final(self)@, r@, #[trigger] model::incr(old(self)@.keys, key@, now)),
    {
        let now = now_millis();
        self.incr_at(key, now)
    }

    /// `LPUSH` at the instant that the system clock shows.
    pub fn lpush(&mut self, key: &str, values: Vec<String>) -> (r: Response)
        ensures
            exists|now: u64|
                follows(old(self)@, final(self)@, r@, #[trigger] model::lpush(old(self)@.keys, key@, values.deep_view(), now)),
    {
        let now = now_millis();
        self.lpush_at(key, values, now)
    }

    /// `LPOP` at the instant that the system clock shows.
    pub fn lpop(&mut self, key: &str) -> (r: Response)
        ensures
            exists|now: u64|
                follows(old(self)@, final(self)@, r@, #[trigger] model::lpop(old(self)@.keys, key@, now)),
    {
        let now = now_millis();
        self.lpop_at(key, now)
    }

    /// `LLEN` at the instant that the system clock shows.
    pub fn llen(&mut self, key: &str) -> (r: Response)
        ensures
            exists|now: u64|
                follows(old(self)@, final(self)@, r@, #[trigger] model::llen(old(self)@.keys, key@, now)),
    {
        let now = now_millis();
        self.llen_at(key, now)
    }

    /// `SADD` at the instant that the system clock shows.
    pub fn sadd(&mut self, key: &str, members: Vec<String>) -> (r: Response)
        ensures
            exists|now: u64|
                follows(old(self)@, final(self)@, r@, #[trigger] model::sadd(old(self)@.keys, key@, members.deep_view(), now)),
    {
        let now = now_millis();
        self.sadd_at(key, members, now)
    }

    /// `SREM` at the instant that the system clock shows.
    pub fn srem(&mut self, key: &str, members: Vec<String>) -> (r: Response)
        ensures
            exists|now: u64|
                follows(old(self)@, final(self)@, r@, #[trigger] model::srem(old(self)@.keys, key@, members.deep_view(), now)),
    {
        let now = now_millis();
        self.srem_at(key, members, now)
    }

    /// `SCARD` at the instant that the system clock shows.
    pub fn scard(&mut self, key: &str) -> (r: Response)
        ensures
            exists|now: u64|
                follows(old(self)@, final(self)@, r@, #[trigger] model::scard(old(self)@.keys, key@, now)),
    {
        let now = now_millis();
        self.scard_at(key, now)
    }

    /// `KEYS` at the instant that the system clock shows.
    pub fn keys_with_prefix(&mut self, prefix: &str) -> (r: Response)
        ensures
            exists|now: u64| #[trigger]
                model::keys_outcome(
                    old(self)@.keys,
                    prefix@,
                    now,
                    Outcome { keys: final(self)@.keys, reply: r@, record: None },
                ),
            final(self)@.journal == old(self)@.journal,
    {
        let now = now_millis();
        self.keys_with_prefix_at(prefix, now)
    }

    /// Takes out every entry that has expired at the instant that the system
    /// clock shows.
    pub fn sweep(&mut self)
        ensures
            exists|now: u64| final(self)@.keys == #[trigger] model::swept(old(self)@.keys, now),
            final(self)@.journal == old(self)@.journal,
    {
        let now = now_millis();
        self.sweep_at(now)
    }
}

} // verus!
