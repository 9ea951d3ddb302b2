//! The append-only journal: the records that state-changing commands leave,
//! the queue in which they wait for whoever writes them out, and the framing
//! of the journal's text into lines, one record each.
//!
//! How a record is spelled inside its line is not this module's concern: it
//! hands out whole records to be written, and whole lines to be read.

use crate::clock::{instant_of, stamp_of, to_stamp};
use crate::text::{
    append_text, chars_of, chomp, is_blank, lemma_filter_cons, lemma_line_len_is, lines,
    nonblank_lines,
};
use vstd::prelude::*;

verus! {

/// One record of the journal.
#[derive(Debug)]
pub struct LogEntry {
    /// `set` or `del`; a record with another name changes nothing.
    pub op: String,
    pub key: String,
    /// The text that a `set` stores.
    pub value: Option<String>,
    /// The instant at which the key expires, in milliseconds since the epoch.
    pub expires_at_ms: Option<i64>,
}

/// A [`LogEntry`] with each text as its characters.
pub struct LogEntryView {
    pub op: Seq<char>,
    pub key: Seq<char>,
    pub value: Option<Seq<char>>,
    pub expires_at_ms: Option<i64>,
}

/// The records that wait to be written, oldest first.
pub struct Aof {
    pending: Vec<LogEntry>,
}

impl LogEntryView {
    /// The record of storing the text `value` under `key` until `expires_at`.
    pub open spec fn set(key: Seq<char>, value: Seq<char>, expires_at: Option<u64>) -> LogEntryView {
        LogEntryView {
            op: "set"@,
            key,
            value: Some(value),
            expires_at_ms: match expires_at {
                Some(t) => Some(stamp_of(t)),
                None => None,
            },
        }
    }

    /// The record of deleting `key`.
    pub open spec fn del(key: Seq<char>) -> LogEntryView {
        LogEntryView { op: "del"@, key, value: None, expires_at_ms: None }
    }

    /// The instant at which the record's key expires.
    pub open spec fn expires_at(self) -> Option<u64> {
        match self.expires_at_ms {
            Some(ms) => Some(instant_of(ms)),
            None => None,
        }
    }
}

impl View for LogEntry {
    type V = LogEntryView;

    open spec fn view(&self) -> LogEntryView {
        LogEntryView {
            op: self.op@,
            key: self.key@,
            value: match self.value {
                Some(v) => Some(v@),
                None => None,
            },
            expires_at_ms: self.expires_at_ms,
        }
    }
}

/// The views of `records`, in order.
pub open spec fn record_views(records: Seq<LogEntry>) -> Seq<LogEntryView> {
    Seq::new(records.len(), |i: int| records[i]@)
}

/// The lines of a journal that hold a record: all but the blank ones.
pub open spec fn record_lines(text: Seq<char>) -> Seq<Seq<char>> {
    lines(text).filter(|l: Seq<char>| !is_blank(l))
}

/// The records among `read`, in order: a line that held no record that could
/// be read stands as none, and is passed over.
pub open spec fn readable(read: Seq<Option<LogEntry>>) -> Seq<LogEntryView>
    decreases read.len(),
{
    if read.len() == 0 {
        Seq::empty()
    } else {
        match read.last() {
            Some(record) => readable(read.drop_last()).push(record@),
            None => readable(read.drop_last()),
        }
    }
}

/// The journal in which each of `records` stands in a line of its own, as
/// [`Aof::frame`] makes it.
pub open spec fn framed(records: Seq<Seq<char>>) -> Seq<char>
    decreases records.len(),
{
    if records.len() == 0 {
        Seq::empty()
    } else {
        records.first().push('\n') + framed(records.drop_first())
    }
}

/// True when the spelling `record` can stand in a line and be found again:
/// it holds no line feed, is not blank, and does not end in a carriage
/// return.
pub open spec fn fits_a_line(record: Seq<char>) -> bool {
    &&& forall|i: int| 0 <= i < record.len() ==> #[trigger] record[i] != '\n'
    &&& !is_blank(record)
    &&& record.len() > 0 ==> record.last() != '\r'
}

/// What is framed is read back: the lines of a journal made of records that
/// each fit a line are those records, in order.
pub proof fn law_frames_are_read_back(records: Seq<Seq<char>>)
    requires
        forall|i: int| 0 <= i < records.len() ==> fits_a_line(#[trigger] records[i]),
    ensures
        record_lines(framed(records)) == records,
    decreases records.len(),
{
    let keep = |l: Seq<char>| !is_blank(l);
    if records.len() == 0 {
        assert(lines(framed(records)) =~= Seq::<Seq<char>>::empty());
    } else {
        let first = records.first();
        let others = records.drop_first();
        let text = framed(records);
        let n = first.len();
        assert(fits_a_line(records[0]));
        assert forall|i: int| 0 <= i < others.len() implies fits_a_line(#[trigger] others[i]) by {
            assert(others[i] == records[i + 1]);
        }
        law_frames_are_read_back(others);
        assert forall|i: int| 0 <= i < n implies #[trigger] text[i] != '\n' by {
            assert(text[i] == first[i]);
        }
        assert(text[n as int] == '\n');
        lemma_line_len_is(text, n);
        assert(text.take(n as int) =~= first);
        assert(text.skip(n as int + 1) =~= framed(others));
        assert(chomp(first) == first);
        assert(lines(text) == seq![first] + lines(framed(others)));
        lemma_filter_cons(first, lines(framed(others)), keep);
        assert(seq![first] + others =~= records);
    }
}

impl View for Aof {
    type V = Seq<LogEntryView>;

    closed spec fn view(&self) -> Seq<LogEntryView> {
        record_views(self.pending@)
    }
}

impl Clone for LogEntry {
    /// A record with the same texts and the same instant.
    fn clone(&self) -> (r: LogEntry)
        ensures
            r@ == self@,
    {
        LogEntry {
            op: self.op.clone(),
            key: self.key.clone(),
            value: match &self.value {
                Some(v) => Some(v.clone()),
                None => None,
            },
            expires_at_ms: self.expires_at_ms,
        }
    }
}

impl LogEntry {
    /// The record of storing the text `value` under `key` until `expires_at`.
    pub fn set(key: String, value: String, expires_at: Option<u64>) -> (r: LogEntry)
        ensures
            r@ == LogEntryView::set(key@, value@, expires_at),
    {
        let expires_at_ms = match expires_at {
            Some(t) => Some(to_stamp(t)),
            None => None,
        };
        LogEntry { op: "set".to_owned(), key, value: Some(value), expires_at_ms }
    }

    /// The record of deleting `key`.
    pub fn del(key: String) -> (r: LogEntry)
        ensures
            r@ == LogEntryView::del(key@),
    {
        LogEntry { op: "del".to_owned(), key, value: None, expires_at_ms: None }
    }
}

impl Aof {
    /// A journal with nothing waiting.
    pub fn new() -> (aof: Aof)
        ensures
            aof@ == Seq::<LogEntryView>::empty(),
    {
        let aof = Aof { pending: Vec::new() };
        proof {
            assert(aof@ =~= Seq::<LogEntryView>::empty());
        }
        aof
    }

    /// Hands `entry` to the journal: it waits behind all that were handed in
    /// before. This never fails and never blocks.
    pub fn log(&mut self, entry: LogEntry)
        ensures
            final(self)@ == old(self)@.push(entry@),
    {
        self.pending.push(entry);
        proof {
            assert(self@ =~= old(self)@.push(entry@));
        }
    }

    /// Takes out the records that wait, oldest first, for writing. None waits
    /// afterwards.
    pub fn take_pending(&mut self) -> (records: Vec<LogEntry>)
        ensures
            record_views(records@) == old(self)@,
            final(self)@ == Seq::<LogEntryView>::empty(),
    {
        let mut records: Vec<LogEntry> = Vec::new();
        std::mem::swap(&mut self.pending, &mut records);
        proof {
            assert(self@ =~= Seq::<LogEntryView>::empty());
        }
        records
    }

    /// The line that holds the record spelled `encoded`: the spelling and one
    /// line feed.
    pub fn frame(encoded: &str) -> (line: String)
        ensures
            line@ == encoded@.push('\n'),
    {
        let mut line = String::new();
        append_text(&mut line, encoded);
        line.push('\n');
        proof {
            assert(line@ =~= encoded@.push('\n'));
        }
        line
    }

    /// The records of a journal whose lines were read one by one: those of
    /// the lines that could be read, in the order of the lines. A line that
    /// could not be read does not stop the reading of the others.
    pub fn keep_readable(read: Vec<Option<LogEntry>>) -> (records: Vec<LogEntry>)
        ensures
            record_views(records@) == readable(read@),
    {
        let mut read = read;
        let ghost all = read@;
        let mut records: Vec<LogEntry> = Vec::new();
        let mut i: usize = 0;
        proof {
            assert(all.take(0) =~= Seq::<Option<LogEntry>>::empty());
            assert(record_views(records@) =~= readable(all.take(0)));
        }
        while i < read.len()
            invariant
                i <= read.len(),
                read.len() == all.len(),
                forall|k: int| i <= k < read.len() ==> read@[k] == all[k],
                record_views(records@) == readable(all.take(i as int)),
            decreases read.len() - i,
        {
            let ghost before = record_views(records@);
            proof {
                let now = all.take(i + 1);
                assert(now.drop_last() =~= all.take(i as int));
                assert(now.last() == all[i as int]);
            }
            let mut taken: Option<LogEntry> = None;
            std::mem::swap(&mut read[i], &mut taken);
            match taken {
                Some(record) => {
                    records.push(record);
                    proof {
                        assert(record_views(records@) =~= before.push(record@));
                    }
                },
                None => {},
            }
            i += 1;
        }
        proof {
            assert(all.take(read.len() as int) =~= all);
        }
        records
    }

    /// The lines of the journal `text` that hold a record, in order: every
    /// line but the blank ones (see [`lines`]).
    pub fn replay(text: &str) -> (records: Vec<String>)
        ensures
            records.deep_view() == record_lines(text@),
    {
        let v = chars_of(text);
        nonblank_lines(&v)
    }
}

} // verus!
