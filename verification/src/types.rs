//! The values that a key can hold, and the entry that pairs a value with the
//! instant at which it expires.

use crate::clock::now_millis;
use std::collections::VecDeque;
use vstd::hash_map::StringHashMap;
use vstd::hash_set::StringHashSet;
use vstd::prelude::*;
use vstd::utf8::encode_utf8;

verus! {

/// What a key holds: a text, a queue of texts with its head first, a set of
/// texts, or a map from fields to texts.
pub enum RedisValue {
    String(String),
    List(VecDeque<String>),
    MemberSet(StringHashSet),
    Hash(StringHashMap<String>),
}

/// A [`RedisValue`] with each text as its characters.
pub enum ValueView {
    Scalar(Seq<char>),
    Queue(Seq<Seq<char>>),
    MemberSet(Set<Seq<char>>),
    Fields(Map<Seq<char>, Seq<char>>),
}

/// A value and the instant after which it is no longer there.
pub struct Entry {
    pub value: RedisValue,
    pub expires_at: Option<u64>,
}

/// An [`Entry`] with its value as a [`ValueView`].
pub struct EntryView {
    pub value: ValueView,
    pub expires_at: Option<u64>,
}

impl ValueView {
    /// The name of the kind of value.
    pub open spec fn kind_name(self) -> Seq<char> {
        match self {
            ValueView::Scalar(_) => "string"@,
            ValueView::Queue(_) => "list"@,
            ValueView::MemberSet(_) => "set"@,
            ValueView::Fields(_) => "hash"@,
        }
    }

    /// How much the value holds: the bytes of a text in UTF-8, the items of a
    /// queue, the members of a set, the fields of a map.
    pub open spec fn len(self) -> nat {
        match self {
            ValueView::Scalar(s) => encode_utf8(s).len(),
            ValueView::Queue(q) => q.len(),
            ValueView::MemberSet(s) => s.len(),
            ValueView::Fields(m) => m.dom().len(),
        }
    }
}

impl EntryView {
    /// An entry has expired when its instant lies before `now`; one without
    /// an instant never expires.
    pub open spec fn expired_at(self, now: u64) -> bool {
        match self.expires_at {
            Some(t) => t < now,
            None => false,
        }
    }

    /// The entry that holds the text `value`.
    pub open spec fn scalar(value: Seq<char>, expires_at: Option<u64>) -> EntryView {
        EntryView { value: ValueView::Scalar(value), expires_at }
    }
}

impl View for RedisValue {
    type V = ValueView;

    open spec fn view(&self) -> ValueView {
        match self {
            RedisValue::String(s) => ValueView::Scalar(s@),
            RedisValue::List(l) => ValueView::Queue(l.deep_view()),
            RedisValue::MemberSet(s) => ValueView::MemberSet(s@),
            RedisValue::Hash(h) => ValueView::Fields(h@.map_values(|v: String| v@)),
        }
    }
}

impl View for Entry {
    type V = EntryView;

    open spec fn view(&self) -> EntryView {
        EntryView { value: self.value@, expires_at: self.expires_at }
    }
}

impl RedisValue {
    /// The name of the kind of value: `string`, `list`, `set` or `hash`.
    pub fn kind_name(&self) -> (r: &'static str)
        ensures
            r@ == self@.kind_name(),
    {
        match self {
            RedisValue::String(_) => "string",
            RedisValue::List(_) => "list",
            RedisValue::MemberSet(_) => "set",
            RedisValue::Hash(_) => "hash",
        }
    }

    /// The text, if the value is one.
    pub fn as_string(&self) -> (r: Option<&String>)
        ensures
            match r {
                Some(s) => *self == RedisValue::String(*s),
                None => !(self is String),
            },
    {
        match self {
            RedisValue::String(s) => Some(s),
            _ => None,
        }
    }

    /// The queue, if the value is one; what is done to it is done to the value.
    pub fn as_list_mut(&mut self) -> (r: Option<&mut VecDeque<String>>)
        ensures
            match r {
                Some(l) => *old(self) == RedisValue::List(*l) && *final(self) == RedisValue::List(
                    *final(l),
                ),
                None => !(*old(self) is List) && *final(self) == *old(self),
            },
    {
        match self {
            RedisValue::List(list) => Some(list),
            _ => None,
        }
    }

    /// The set, if the value is one; what is done to it is done to the value.
    pub fn as_set_mut(&mut self) -> (r: Option<&mut StringHashSet>)
        ensures
            match r {
                Some(s) => *old(self) == RedisValue::MemberSet(*s) && *final(self)
                    == RedisValue::MemberSet(*final(s)),
                None => !(*old(self) is MemberSet) && *final(self) == *old(self),
            },
    {
        match self {
            RedisValue::MemberSet(set) => Some(set),
            _ => None,
        }
    }

    /// The map, if the value is one; what is done to it is done to the value.
    pub fn as_hash_mut(&mut self) -> (r: Option<&mut StringHashMap<String>>)
        ensures
            match r {
                Some(h) => *old(self) == RedisValue::Hash(*h) && *final(self) == RedisValue::Hash(
                    *final(h),
                ),
                None => !(*old(self) is Hash) && *final(self) == *old(self),
            },
    {
        match self {
            RedisValue::Hash(hash) => Some(hash),
            _ => None,
        }
    }

    /// How much the value holds (see [`ValueView::len`]).
    pub fn len(&self) -> (r: usize)
        ensures
            self is String ==> r == self@.len() as usize,
            !(self is String) ==> r == self@.len(),
    {
        match self {
            RedisValue::String(s) => s.as_str().len(),
            RedisValue::List(list) => {
                proof {
                    assert(list.deep_view().len() == list@.len());
                }
                list.len()
            },
            RedisValue::MemberSet(set) => set.len(),
            RedisValue::Hash(hash) => {
                proof {
                    assert(hash@.map_values(|v: String| v@).dom() =~= hash@.dom());
                }
                hash.len()
            },
        }
    }
}

impl Entry {
    /// The entry that holds `value` until `expires_at`, or for good if there
    /// is no such instant.
    pub fn new(value: RedisValue, expires_at: Option<u64>) -> (e: Entry)
        ensures
            e == (Entry { value, expires_at }),
    {
        Entry { value, expires_at }
    }

    /// The entry that holds the text `value`.
    pub fn string(value: String, expires_at: Option<u64>) -> (e: Entry)
        ensures
            e@ == EntryView::scalar(value@, expires_at),
    {
        Entry::new(RedisValue::String(value), expires_at)
    }

    /// The entry that holds an empty queue.
    pub fn list(expires_at: Option<u64>) -> (e: Entry)
        ensures
            e@ == (EntryView { value: ValueView::Queue(Seq::empty()), expires_at }),
    {
        let queue: VecDeque<String> = VecDeque::new();
        proof {
            assert(queue.deep_view() =~= Seq::<Seq<char>>::empty());
        }
        Entry::new(RedisValue::List(queue), expires_at)
    }

    /// The entry that holds an empty set.
    pub fn set(expires_at: Option<u64>) -> (e: Entry)
        ensures
            e@ == (EntryView { value: ValueView::MemberSet(Set::empty()), expires_at }),
    {
        Entry::new(RedisValue::MemberSet(StringHashSet::new()), expires_at)
    }

    /// The entry that holds an empty map.
    pub fn hash(expires_at: Option<u64>) -> (e: Entry)
        ensures
            e@ == (EntryView { value: ValueView::Fields(Map::empty()), expires_at }),
    {
        let fields: StringHashMap<String> = StringHashMap::new();
        proof {
            assert(fields@.map_values(|v: String| v@) =~= Map::<Seq<char>, Seq<char>>::empty());
        }
        Entry::new(RedisValue::Hash(fields), expires_at)
    }

    /// True when the entry has expired at the instant `now`.
    pub fn is_expired_at(&self, now: u64) -> (r: bool)
        ensures
            r == self@.expired_at(now),
    {
        match self.expires_at {
            Some(t) => t < now,
            None => false,
        }
    }

    /// True when the entry has expired by the system clock: at the instant
    /// that the clock shows, whichever that is.
    pub fn is_expired(&self) -> (r: bool)
        ensures
            exists|now: u64| r == self@.expired_at(now),
    {
        let now = now_millis();
        self.is_expired_at(now)
    }
}

} // verus!
