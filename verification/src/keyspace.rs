//! The keyspace: every key with its entry, no key twice.
//!
//! The entries stand in a vector in no order that matters; seen from outside
//! the keyspace is the map from each key to its entry.

use crate::model::{live, names_with_prefix, swept, Keys};
use crate::text::{chars_of, same_text, starts_with};
use crate::types::Entry;
use vstd::prelude::*;

verus! {

/// A key and what it holds.
pub struct Slot {
    pub key: String,
    pub entry: Entry,
}

/// The keys with their entries.
pub struct Keyspace {
    slots: Vec<Slot>,
}

/// True when one of `slots` has the key `k`.
spec fn holds(slots: Seq<Slot>, k: Seq<char>) -> bool {
    exists|i: int| 0 <= i < slots.len() && (#[trigger] slots[i]).key@ == k
}

/// The place of a slot with the key `k`.
spec fn place_of(slots: Seq<Slot>, k: Seq<char>) -> int {
    choose|i: int| 0 <= i < slots.len() && (#[trigger] slots[i]).key@ == k
}

/// True when no two of `slots` have the same key.
spec fn distinct(slots: Seq<Slot>) -> bool {
    forall|i: int, j: int|
        0 <= i < j < slots.len() ==> (#[trigger] slots[i]).key@ != (#[trigger] slots[j]).key@
}

/// The map from the key of each slot to its entry.
spec fn as_map(slots: Seq<Slot>) -> Keys {
    Map::new(|k: Seq<char>| holds(slots, k), |k: Seq<char>| slots[place_of(slots, k)].entry@)
}

/// The keys of `slots` that start with `prefix`, in the order of the slots.
spec fn prefixed(slots: Seq<Slot>, prefix: Seq<char>) -> Seq<Seq<char>>
    decreases slots.len(),
{
    if slots.len() == 0 {
        Seq::empty()
    } else if prefix.is_prefix_of(slots.last().key@) {
        prefixed(slots.drop_last(), prefix).push(slots.last().key@)
    } else {
        prefixed(slots.drop_last(), prefix)
    }
}

/// Each slot is found in the map under its key.
proof fn lemma_slot_in_map(slots: Seq<Slot>, i: int)
    requires
        distinct(slots),
        0 <= i < slots.len(),
    ensures
        as_map(slots).contains_key(slots[i].key@),
        as_map(slots)[slots[i].key@] == slots[i].entry@,
{
    let k = slots[i].key@;
    assert(holds(slots, k));
    let j = place_of(slots, k);
    assert(0 <= j < slots.len() && slots[j].key@ == k);
    if j < i {
        assert(slots[j].key@ != slots[i].key@);
    } else if i < j {
        assert(slots[i].key@ != slots[j].key@);
    }
}

/// A slot with a new key, put at the end, adds its key to the map.
proof fn lemma_push(slots: Seq<Slot>, slot: Slot)
    requires
        distinct(slots),
        !holds(slots, slot.key@),
    ensures
        distinct(slots.push(slot)),
        as_map(slots.push(slot)) == as_map(slots).insert(slot.key@, slot.entry@),
{
    let after = slots.push(slot);
    let n = slots.len() as int;
    assert forall|i: int, j: int| 0 <= i < j < after.len() implies (#[trigger] after[i]).key@ != (
    #[trigger] after[j]).key@ by {
        if j == n {
            assert(after[i] == slots[i]);
            assert(slots[i].key@ != slot.key@);
        } else {
            assert(after[i] == slots[i] && after[j] == slots[j]);
        }
    }
    let want = as_map(slots).insert(slot.key@, slot.entry@);
    assert forall|k: Seq<char>| as_map(after).contains_key(k) <==> want.contains_key(k) by {
        if holds(after, k) {
            let i = place_of(after, k);
            if i < n {
                assert(slots[i].key@ == k);
            }
        }
        if holds(slots, k) {
            let i = place_of(slots, k);
            assert(after[i].key@ == k);
        }
        if k == slot.key@ {
            assert(after[n].key@ == k);
        }
    }
    assert forall|k: Seq<char>| as_map(after).contains_key(k) implies as_map(after)[k]
        == want[k] by {
        let i = place_of(after, k);
        lemma_slot_in_map(after, i);
        if i < n {
            assert(after[i] == slots[i]);
            lemma_slot_in_map(slots, i);
        }
    }
    assert(as_map(after) =~= want);
}

/// A slot replaced by one with the same key replaces the entry in the map.
proof fn lemma_update(slots: Seq<Slot>, at: int, slot: Slot)
    requires
        distinct(slots),
        0 <= at < slots.len(),
        slots[at].key@ == slot.key@,
    ensures
        distinct(slots.update(at, slot)),
        as_map(slots.update(at, slot)) == as_map(slots).insert(slot.key@, slot.entry@),
{
    let after = slots.update(at, slot);
    assert forall|i: int, j: int| 0 <= i < j < after.len() implies (#[trigger] after[i]).key@ != (
    #[trigger] after[j]).key@ by {
        assert(after[i].key@ == slots[i].key@);
        assert(after[j].key@ == slots[j].key@);
    }
    let want = as_map(slots).insert(slot.key@, slot.entry@);
    assert forall|k: Seq<char>| as_map(after).contains_key(k) <==> want.contains_key(k) by {
        if holds(after, k) {
            let i = place_of(after, k);
            assert(slots[i].key@ == k);
        }
        if holds(slots, k) {
            let i = place_of(slots, k);
            assert(after[i].key@ == k);
        }
        if k == slot.key@ {
            assert(after[at].key@ == k);
        }
    }
    assert forall|k: Seq<char>| as_map(after).contains_key(k) implies as_map(after)[k]
        == want[k] by {
        let i = place_of(after, k);
        lemma_slot_in_map(after, i);
        if i != at {
            assert(after[i] == slots[i]);
            lemma_slot_in_map(slots, i);
            assert(slots[i].key@ != slots[at].key@);
        }
    }
    assert(as_map(after) =~= want);
}

/// A slot taken out takes its key out of the map.
proof fn lemma_remove(slots: Seq<Slot>, at: int)
    requires
        distinct(slots),
        0 <= at < slots.len(),
    ensures
        distinct(slots.remove(at)),
        as_map(slots.remove(at)) == as_map(slots).remove(slots[at].key@),
{
    let after = slots.remove(at);
    let gone = slots[at].key@;
    assert forall|i: int| 0 <= i < after.len() implies #[trigger] after[i] == slots[if i < at {
        i
    } else {
        i + 1
    }] by {}
    assert forall|i: int, j: int| 0 <= i < j < after.len() implies (#[trigger] after[i]).key@ != (
    #[trigger] after[j]).key@ by {
        let a = if i < at {
            i
        } else {
            i + 1
        };
        let b = if j < at {
            j
        } else {
            j + 1
        };
        assert(after[i] == slots[a] && after[j] == slots[b]);
        assert(slots[a].key@ != slots[b].key@);
    }
    let want = as_map(slots).remove(gone);
    assert forall|k: Seq<char>| as_map(after).contains_key(k) <==> want.contains_key(k) by {
        if holds(after, k) {
            let i = place_of(after, k);
            let a = if i < at {
                i
            } else {
                i + 1
            };
            assert(after[i] == slots[a]);
            assert(slots[a].key@ == k);
            if a < at {
                assert(slots[a].key@ != slots[at].key@);
            } else {
                assert(slots[at].key@ != slots[a].key@);
            }
        }
        if holds(slots, k) && k != gone {
            let a = place_of(slots, k);
            let i = if a < at {
                a
            } else {
                a - 1
            };
            assert(after[i] == slots[a]);
            assert(after[i].key@ == k);
        }
    }
    assert forall|k: Seq<char>| as_map(after).contains_key(k) implies as_map(after)[k]
        == want[k] by {
        let i = place_of(after, k);
        let a = if i < at {
            i
        } else {
            i + 1
        };
        lemma_slot_in_map(after, i);
        assert(after[i] == slots[a]);
        lemma_slot_in_map(slots, a);
    }
    assert(as_map(after) =~= want);
}

/// What `prefixed` holds: the keys of the slots that start with the prefix,
/// each once.
proof fn lemma_prefixed(slots: Seq<Slot>, prefix: Seq<char>)
    requires
        distinct(slots),
    ensures
        names_with_prefix(as_map(slots), prefix, prefixed(slots, prefix)),
        forall|k: Seq<char>| #[trigger] prefixed(slots, prefix).contains(k) ==> holds(slots, k),
    decreases slots.len(),
{
    let names = prefixed(slots, prefix);
    if slots.len() == 0 {
        assert forall|k: Seq<char>| #[trigger]
            names.contains(k) <==> as_map(slots).contains_key(k) && prefix.is_prefix_of(k) by {}
    } else {
        let front = slots.drop_last();
        let last = slots.last();
        let n = front.len() as int;
        assert(distinct(front)) by {
            assert forall|i: int, j: int| 0 <= i < j < front.len() implies (
            #[trigger] front[i]).key@ != (#[trigger] front[j]).key@ by {
                assert(front[i] == slots[i] && front[j] == slots[j]);
            }
        }
        lemma_prefixed(front, prefix);
        let before = prefixed(front, prefix);
        assert(!holds(front, last.key@)) by {
            if holds(front, last.key@) {
                let i = place_of(front, last.key@);
                assert(front[i] == slots[i]);
                assert(slots[i].key@ != slots[n].key@);
            }
        }
        assert(slots == front.push(last));
        lemma_push(front, last);
        assert forall|k: Seq<char>| #[trigger] names.contains(k) implies holds(slots, k) by {
            let i = choose|i: int| 0 <= i < names.len() && names[i] == k;
            if i < before.len() {
                assert(before[i] == k);
                assert(before.contains(k));
                let j = place_of(front, k);
                assert(slots[j].key@ == k);
            } else {
                assert(slots[n].key@ == k);
            }
        }
        if prefix.is_prefix_of(last.key@) {
            assert(names == before.push(last.key@));
            assert(names.no_duplicates()) by {
                assert forall|i: int, j: int|
                    0 <= i < names.len() && 0 <= j < names.len() && i != j implies names[i]
                    != names[j] by {
                    if i == before.len() {
                        assert(before.contains(names[j]));
                    } else if j == before.len() {
                        assert(before.contains(names[i]));
                    }
                }
            }
            assert forall|k: Seq<char>| #[trigger]
                names.contains(k) <==> as_map(slots).contains_key(k) && prefix.is_prefix_of(
                    k,
                ) by {
                if names.contains(k) {
                    let i = choose|i: int| 0 <= i < names.len() && names[i] == k;
                    if i < before.len() {
                        assert(before[i] == k);
                        assert(before.contains(k));
                    }
                }
                if as_map(slots).contains_key(k) && prefix.is_prefix_of(k) {
                    if k == last.key@ {
                        assert(names[before.len() as int] == k);
                    } else {
                        assert(before.contains(k));
                        let i = choose|i: int| 0 <= i < before.len() && before[i] == k;
                        assert(names[i] == k);
                    }
                }
            }
        } else {
            assert forall|k: Seq<char>| #[trigger]
                names.contains(k) <==> as_map(slots).contains_key(k) && prefix.is_prefix_of(
                    k,
                ) by {}
        }
    }
}

impl Keyspace {
    #[verifier::type_invariant]
    spec fn no_key_twice(self) -> bool {
        distinct(self.slots@)
    }

    /// The map from each key to its entry.
    pub closed spec fn view(&self) -> Keys {
        as_map(self.slots@)
    }

    /// A keyspace without keys.
    pub fn new() -> (r: Keyspace)
        ensures
            r@ == Keys::empty(),
    {
        let r = Keyspace { slots: Vec::new() };
        proof {
            assert(r@ =~= Keys::empty());
        }
        r
    }

    /// The number of keys.
    pub fn len(&self) -> (n: usize)
        ensures
            n == self@.dom().len(),
            self@.dom().finite(),
    {
        proof {
            use_type_invariant(self);
            lemma_len(self.slots@);
        }
        self.slots.len()
    }

    /// Hands out the slots to be worked on, and leaves none. Whoever calls
    /// puts slots back.
    fn lift(&mut self) -> (slots: Vec<Slot>)
        ensures
            slots == old(self).slots,
            final(self).slots@ == Seq::<Slot>::empty(),
    {
        let mut slots: Vec<Slot> = Vec::new();
        std::mem::swap(&mut self.slots, &mut slots);
        slots
    }

    /// The place of the slot with `key`.
    fn find(&self, key: &str) -> (r: Option<usize>)
        ensures
            match r {
                Some(i) => i < self.slots.len() && self.slots@[i as int].key@ == key@,
                None => !holds(self.slots@, key@),
            },
    {
        let mut i: usize = 0;
        while i < self.slots.len()
            invariant
                i <= self.slots.len(),
                forall|j: int| 0 <= j < i ==> (#[trigger] self.slots@[j]).key@ != key@,
            decreases self.slots.len() - i,
        {
            if same_text(self.slots[i].key.as_str(), key) {
                return Some(i);
            }
            i += 1;
        }
        None
    }

    /// True when `key` is there.
    pub fn contains_key(&self, key: &str) -> (r: bool)
        ensures
            r == self@.contains_key(key@),
    {
        match self.find(key) {
            Some(i) => {
                proof {
                    use_type_invariant(self);
                    lemma_slot_in_map(self.slots@, i as int);
                }
                true
            },
            None => false,
        }
    }

    /// The entry under `key`.
    pub fn get(&self, key: &str) -> (r: Option<&Entry>)
        ensures
            match r {
                Some(e) => self@.contains_key(key@) && self@[key@] == e@,
                None => !self@.contains_key(key@),
            },
    {
        match self.find(key) {
            Some(i) => {
                proof {
                    use_type_invariant(self);
                    lemma_slot_in_map(self.slots@, i as int);
                }
                Some(&self.slots[i].entry)
            },
            None => None,
        }
    }

    /// Puts `entry` under `key`, in place of what was there.
    pub fn insert(&mut self, key: String, entry: Entry)
        ensures
            final(self)@ == old(self)@.insert(key@, entry@),
    {
        proof {
            use_type_invariant(&*self);
        }
        let slot = Slot { key, entry };
        let found = self.find(slot.key.as_str());
        let mut slots = self.lift();
        match found {
            Some(i) => {
                proof {
                    lemma_update(slots@, i as int, slot);
                }
                slots.set(i, slot);
            },
            None => {
                proof {
                    lemma_push(slots@, slot);
                }
                slots.push(slot);
            },
        }
        self.slots = slots;
    }

    /// Puts `slot` among the others; its key must not be there yet.
    pub(crate) fn restore(&mut self, slot: Slot)
        requires
            !old(self)@.contains_key(slot.key@),
        ensures
            final(self)@ == old(self)@.insert(slot.key@, slot.entry@),
    {
        proof {
            use_type_invariant(&*self);
            lemma_push(self.slots@, slot);
        }
        let mut slots = self.lift();
        slots.push(slot);
        self.slots = slots;
    }

    /// Takes out `key` with its entry.
    pub fn take(&mut self, key: &str) -> (r: Option<Slot>)
        ensures
            final(self)@ == old(self)@.remove(key@),
            match r {
                Some(slot) => old(self)@.contains_key(key@) && slot.key@ == key@ && slot.entry@
                    == old(self)@[key@],
                None => !old(self)@.contains_key(key@),
            },
    {
        proof {
            use_type_invariant(&*self);
        }
        match self.find(key) {
            Some(i) => {
                proof {
                    lemma_slot_in_map(self.slots@, i as int);
                    lemma_remove(self.slots@, i as int);
                }
                let mut slots = self.lift();
                let slot = slots.remove(i);
                self.slots = slots;
                Some(slot)
            },
            None => {
                proof {
                    assert(self@.remove(key@) =~= self@);
                }
                None
            },
        }
    }

    /// Takes out every entry that has expired at `now`.
    pub fn sweep(&mut self, now: u64)
        ensures
            final(self)@ == swept(old(self)@, now),
    {
        proof {
            use_type_invariant(&*self);
        }
        let mut slots = self.lift();
        let mut i: usize = 0;
        while i < slots.len()
            invariant
                i <= slots.len(),
                distinct(slots@),
                forall|j: int| 0 <= j < i ==> !(#[trigger] slots@[j]).entry@.expired_at(now),
                swept(as_map(slots@), now) == swept(old(self)@, now),
            decreases slots.len() - i,
        {
            if slots[i].entry.is_expired_at(now) {
                proof {
                    let before = as_map(slots@);
                    let gone = slots@[i as int].key@;
                    lemma_slot_in_map(slots@, i as int);
                    lemma_remove(slots@, i as int);
                    assert(swept(before.remove(gone), now) =~= swept(before, now));
                    let after = slots@.remove(i as int);
                    assert forall|j: int| 0 <= j < i implies !(#[trigger] after[j]).entry@.expired_at(
                        now,
                    ) by {
                        assert(after[j] == slots@[j]);
                    }
                }
                slots.remove(i);
            } else {
                i += 1;
            }
        }
        proof {
            let m = as_map(slots@);
            assert forall|k: Seq<char>| m.contains_key(k) implies live(m, k, now) by {
                let j = place_of(slots@, k);
                lemma_slot_in_map(slots@, j);
            }
            assert(swept(m, now) =~= m);
        }
        self.slots = slots;
    }

    /// The keys that start with `prefix`, each once.
    pub fn names(&self, prefix: &str) -> (names: Vec<String>)
        ensures
            names_with_prefix(self@, prefix@, names.deep_view()),
    {
        let start = chars_of(prefix);
        let mut names: Vec<String> = Vec::new();
        let mut i: usize = 0;
        proof {
            assert(self.slots@.take(0) =~= Seq::<Slot>::empty());
            assert(names.deep_view() =~= prefixed(self.slots@.take(0), prefix@));
        }
        while i < self.slots.len()
            invariant
                i <= self.slots.len(),
                start@ == prefix@,
                names.deep_view() == prefixed(self.slots@.take(i as int), prefix@),
            decreases self.slots.len() - i,
        {
            let ghost before = names.deep_view();
            proof {
                let now = self.slots@.take(i + 1);
                assert(now.drop_last() =~= self.slots@.take(i as int));
                assert(now.last() == self.slots@[i as int]);
            }
            if starts_with(self.slots[i].key.as_str(), &start) {
                names.push(self.slots[i].key.clone());
                proof {
                    assert(names.deep_view() =~= before.push(self.slots@[i as int].key@));
                }
            }
            i += 1;
        }
        proof {
            use_type_invariant(self);
            assert(self.slots@.take(self.slots.len() as int) =~= self.slots@);
            lemma_prefixed(self.slots@, prefix@);
        }
        names
    }
}

/// As many keys as slots.
proof fn lemma_len(slots: Seq<Slot>)
    requires
        distinct(slots),
    ensures
        as_map(slots).dom().finite(),
        as_map(slots).dom().len() == slots.len(),
    decreases slots.len(),
{
    if slots.len() == 0 {
        assert(as_map(slots).dom() =~= Set::<Seq<char>>::empty());
    } else {
        let front = slots.drop_last();
        let last = slots.last();
        let n = front.len() as int;
        assert(distinct(front)) by {
            assert forall|i: int, j: int| 0 <= i < j < front.len() implies (
            #[trigger] front[i]).key@ != (#[trigger] front[j]).key@ by {
                assert(front[i] == slots[i] && front[j] == slots[j]);
            }
        }
        assert(!holds(front, last.key@)) by {
            if holds(front, last.key@) {
                let i = place_of(front, last.key@);
                assert(front[i] == slots[i]);
                assert(slots[i].key@ != slots[n].key@);
            }
        }
        lemma_len(front);
        assert(slots == front.push(last));
        lemma_push(front, last);
        assert(as_map(slots).dom() =~= as_map(front).dom().insert(last.key@));
    }
}

} // verus!
