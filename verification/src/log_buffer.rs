use std::collections::VecDeque;
use std::time::Instant;

use vstd::prelude::*;
use vstd::string::*;

use crate::text::{join_with, seq_join, string_views};

verus! {

/// The monotonic clock reading of the standard library.
#[verifier::external_type_specification]
#[verifier::external_body]
pub struct ExInstant(Instant);

/// The current instant (`Instant::now`).
#[verifier::external_body]
fn instant_now() -> Instant {
    Instant::now()
}

/// Time since `start` (`Instant::elapsed`).
#[verifier::external_body]
fn instant_elapsed(start: &Instant) -> core::time::Duration {
    start.elapsed()
}

/// Whole milliseconds of a duration (`Duration::as_millis`).
#[verifier::external_body]
fn duration_as_millis(d: &core::time::Duration) -> u128 {
    d.as_millis()
}

/// Most entries the buffer keeps.
pub const MAX_ENTRIES: usize = 500;

/// One captured log line.
#[derive(Debug, Clone)]
pub struct LogEntry {
    pub timestamp_ms: u64,
    pub level: String,
    pub target: String,
    pub message: String,
}

impl LogEntry {
    /// A field-by-field copy.
    pub fn duplicate(&self) -> (r: LogEntry)
        ensures
            r == *self,
    {
        LogEntry {
            timestamp_ms: self.timestamp_ms,
            level: self.level.clone(),
            target: self.target.clone(),
            message: self.message.clone(),
        }
    }
}

/// The last `m` elements of `s` (all of them when there are fewer).
pub open spec fn keep_last<T>(s: Seq<T>, m: nat) -> Seq<T> {
    if s.len() > m {
        s.subrange(s.len() - m, s.len() as int)
    } else {
        s
    }
}

/// In-memory ring of the most recent log entries, oldest first.
pub struct LogBuffer {
    entries: VecDeque<LogEntry>,
    start: Instant,
}

impl View for LogBuffer {
    type V = Seq<LogEntry>;

    closed spec fn view(&self) -> Seq<LogEntry> {
        self.entries@
    }
}

impl LogBuffer {
    #[verifier::type_invariant]
    spec fn bounded(&self) -> bool {
        self.entries@.len() <= MAX_ENTRIES
    }

    /// An empty buffer whose clock starts now.
    pub fn new() -> (b: LogBuffer)
        ensures
            b@ == Seq::<LogEntry>::empty(),
    {
        LogBuffer { entries: VecDeque::with_capacity(MAX_ENTRIES), start: instant_now() }
    }

    /// Number of entries held.
    pub fn len(&self) -> (n: usize)
        ensures
            n == self@.len(),
            n <= MAX_ENTRIES,
    {
        proof {
            use_type_invariant(self);
        }
        self.entries.len()
    }

    /// Appends an entry, dropping the oldest when the buffer is full.
    pub fn push(&mut self, entry: LogEntry)
        ensures
            final(self)@ == keep_last(old(self)@.push(entry), MAX_ENTRIES as nat),
            final(self)@.len() <= MAX_ENTRIES,
    {
        proof {
            use_type_invariant(&*self);
        }
        let mut entries: VecDeque<LogEntry> = VecDeque::new();
        std::mem::swap(&mut entries, &mut self.entries);
        if entries.len() >= MAX_ENTRIES {
            entries.pop_front();
        }
        entries.push_back(entry);
        assert(entries@ =~= keep_last(old(self)@.push(entry), MAX_ENTRIES as nat));
        self.entries = entries;
    }

    /// The newest `limit` entries (all when fewer), oldest first.
    pub fn recent(&self, limit: usize) -> (r: Vec<LogEntry>)
        ensures
            r@ == keep_last(self@, limit as nat),
    {
        proof {
            use_type_invariant(self);
        }
        let n: usize = self.entries.len();
        let skip: usize = n.saturating_sub(limit);
        let mut out: Vec<LogEntry> = Vec::new();
        let mut i: usize = skip;
        while i < n
            invariant
                skip <= i <= n,
                n == self.entries@.len(),
                out@ == self.entries@.subrange(skip as int, i as int),
            decreases n - i,
        {
            out.push(self.entries[i].duplicate());
            i = i + 1;
            assert(out@ =~= self.entries@.subrange(skip as int, i as int));
        }
        assert(out@ =~= keep_last(self@, limit as nat));
        out
    }

    /// Milliseconds since the buffer was created (the clock is read, so the
    /// value is whatever the clock gives; it is cut to 64 bits).
    pub fn elapsed_ms(&self) -> u64 {
        let d = instant_elapsed(&self.start);
        let ms: u128 = duration_as_millis(&d);
        millis_as_u64(ms)
    }
}

/// A millisecond count cut to 64 bits, as log timestamps carry it (the low
/// 64 bits; counts below 2^64 are unchanged).
pub fn millis_as_u64(ms: u128) -> (r: u64)
    ensures
        r == ms as u64,
        ms <= u64::MAX ==> r == ms,
{
    ms as u64
}

/// Keeping the last `m` of a sequence, one push at a time, keeps the last
/// `m` of everything pushed: the buffer after any series of pushes holds
/// exactly the newest entries, in arrival order.
pub proof fn lemma_keep_last_push<T>(s: Seq<T>, e: T, m: nat)
    requires
        m > 0,
    ensures
        keep_last(keep_last(s, m).push(e), m) == keep_last(s.push(e), m),
{
    assert(keep_last(keep_last(s, m).push(e), m) =~= keep_last(s.push(e), m));
}

/// Entries pushed one by one into an empty buffer.
pub open spec fn after_pushes(pushed: Seq<LogEntry>) -> Seq<LogEntry>
    decreases pushed.len(),
{
    if pushed.len() == 0 {
        seq![]
    } else {
        keep_last(after_pushes(pushed.drop_last()).push(pushed.last()), MAX_ENTRIES as nat)
    }
}

/// A buffer fed any series of entries holds the newest `MAX_ENTRIES` of
/// them, oldest first; reading the newest `k` gives back the last `k` written.
pub proof fn lemma_buffer_holds_newest(pushed: Seq<LogEntry>, k: nat)
    ensures
        after_pushes(pushed) == keep_last(pushed, MAX_ENTRIES as nat),
        k <= MAX_ENTRIES ==> keep_last(after_pushes(pushed), k) == keep_last(pushed, k),
    decreases pushed.len(),
{
    if pushed.len() > 0 {
        lemma_buffer_holds_newest(pushed.drop_last(), k);
        lemma_keep_last_push(pushed.drop_last(), pushed.last(), MAX_ENTRIES as nat);
        assert(pushed.drop_last().push(pushed.last()) =~= pushed);
    } else {
        assert(keep_last(pushed, MAX_ENTRIES as nat) =~= pushed);
    }
    assert(k <= MAX_ENTRIES ==> keep_last(keep_last(pushed, MAX_ENTRIES as nat), k) =~= keep_last(pushed, k));
}

/// The message and extra fields of one log event, collected field by field.
pub struct MessageParts {
    pub message: String,
    pub fields: Vec<String>,
}

/// A line with its extra `name=value` fields appended after one space,
/// separated by spaces; no fields, no space.
pub open spec fn composed(message: Seq<char>, fields: Seq<Seq<char>>) -> Seq<char> {
    if fields.len() == 0 {
        message
    } else {
        message + " "@ + seq_join(fields, " "@)
    }
}

impl MessageParts {
    /// No message, no fields.
    pub fn new() -> (p: MessageParts)
        ensures
            p.message@ == Seq::<char>::empty(),
            p.fields@.len() == 0,
    {
        MessageParts { message: String::new(), fields: Vec::new() }
    }

    /// Records one event field, given as its name and its debug text: the
    /// field called `message` becomes the message, any other is kept as
    /// `name=value`.
    pub fn record(&mut self, field_name: &str, value_text: &str)
        ensures
            field_name@ == "message"@ ==> final(self).message@ == value_text@ && final(self).fields == old(self).fields,
            field_name@ != "message"@ ==> final(self).message == old(self).message && string_views(final(self).fields@)
                == string_views(old(self).fields@).push(field_name@ + "="@ + value_text@),
    {
        if crate::config::str_eq(field_name, "message") {
            self.message = value_text.to_owned();
        } else {
            let mut f = field_name.to_owned();
            f.append("=");
            f.append(value_text);
            let ghost before = self.fields@;
            self.fields.push(f);
            assert(string_views(self.fields@) =~= string_views(before).push(field_name@ + "="@ + value_text@));
        }
    }

    /// The stored line: the message, then the fields.
    pub fn compose(&self) -> (line: String)
        ensures
            line@ == composed(self.message@, string_views(self.fields@)),
    {
        let mut msg = self.message.clone();
        if self.fields.len() > 0 {
            msg.append(" ");
            let rest = join_with(&self.fields, " ");
            msg.append(rest.as_str());
        }
        msg
    }
}

} // verus!
