//! The audit trail: one entry for every attempted command, kept in order and
//! never changed once written.

use crate::bridge::{is_stamp, local_time_text};
use crate::text::{lemma_lines_append, lemma_lines_one, lines, one_line};
use vstd::prelude::*;

verus! {

/// The layout of an entry's timestamp: local time, to the second.
pub const TIMESTAMP_FORMAT: &'static str = "%Y-%m-%d %H:%M:%S";

/// What an audit entry reports.
#[derive(Debug, Clone, Copy, PartialEq, Eq, Structural)]
pub enum AuditAction {
    /// The command was run.
    Execute,
    /// The command was refused by the allowlist.
    Blocked,
    /// The command could not be started.
    Error,
}

impl AuditAction {
    /// The word written to the log for this action.
    pub open spec fn label(self) -> Seq<char> {
        match self {
            AuditAction::Execute => "EXECUTE"@,
            AuditAction::Blocked => "BLOCKED"@,
            AuditAction::Error => "ERROR"@,
        }
    }

    /// The word written to the log for this action.
    pub fn as_str(self) -> (word: &'static str)
        ensures
            word@ == self.label(),
    {
        match self {
            AuditAction::Execute => "EXECUTE",
            AuditAction::Blocked => "BLOCKED",
            AuditAction::Error => "ERROR",
        }
    }
}

/// What one character is written as in a log line: a line feed as a
/// backslash and `n`, a carriage return as a backslash and `r`, any other
/// character as itself.
pub open spec fn escaped_char(c: char) -> Seq<char> {
    if c == '\n' {
        seq!['\\', 'n']
    } else if c == '\r' {
        seq!['\\', 'r']
    } else {
        seq![c]
    }
}

/// `s` with its line breaks escaped.
pub open spec fn escaped(s: Seq<char>) -> Seq<char>
    decreases s.len(),
{
    if s.len() == 0 {
        Seq::empty()
    } else {
        escaped(s.drop_last()) + escaped_char(s.last())
    }
}

/// Whether `s` holds neither a line feed nor a carriage return.
pub open spec fn unbroken(s: Seq<char>) -> bool {
    forall|i: int| 0 <= i < s.len() ==> #[trigger] s[i] != '\n' && s[i] != '\r'
}

/// Escaped text holds no line break.
pub proof fn lemma_escaped_unbroken(s: Seq<char>)
    ensures
        unbroken(escaped(s)),
    decreases s.len(),
{
    if s.len() > 0 {
        lemma_escaped_unbroken(s.drop_last());
        let before = escaped(s.drop_last());
        let last = escaped_char(s.last());
        assert forall|i: int| 0 <= i < escaped(s).len() implies #[trigger] escaped(s)[i] != '\n'
            && escaped(s)[i] != '\r' by {
            if i < before.len() {
                assert(escaped(s)[i] == before[i]);
            } else {
                assert(escaped(s)[i] == last[i - before.len()]);
            }
        }
    }
}

/// Text without a line break is written as it is.
pub proof fn lemma_escaped_plain(s: Seq<char>)
    requires
        unbroken(s),
    ensures
        escaped(s) == s,
    decreases s.len(),
{
    if s.len() > 0 {
        let rest = s.drop_last();
        assert forall|i: int| 0 <= i < rest.len() implies #[trigger] rest[i] != '\n' && rest[i]
            != '\r' by {
            assert(rest[i] == s[i]);
        }
        lemma_escaped_plain(rest);
        assert(rest + seq![s.last()] == s);
    }
}

/// A timestamp holds no line break.
pub proof fn lemma_stamp_unbroken(s: Seq<char>)
    requires
        is_stamp(s),
    ensures
        unbroken(s),
        escaped(s) == s,
{
    lemma_escaped_plain(s);
}

/// Two texts without a line break make one without a line break.
pub proof fn lemma_unbroken_concat(a: Seq<char>, b: Seq<char>)
    requires
        unbroken(a),
        unbroken(b),
    ensures
        unbroken(a + b),
{
    assert forall|i: int| 0 <= i < (a + b).len() implies #[trigger] (a + b)[i] != '\n' && (a
        + b)[i] != '\r' by {
        if i < a.len() {
            assert((a + b)[i] == a[i]);
        } else {
            assert((a + b)[i] == b[i - a.len()]);
        }
    }
}

/// `s` with its line breaks escaped.
pub fn escape_breaks(s: &str) -> (out: String)
    ensures
        out@ == escaped(s@),
{
    let mut out = String::new();
    for c in it: s.chars()
        invariant
            it.seq() == s@,
            out@ == escaped(s@.take(it.index() as int)),
    {
        proof {
            let grown = s@.take(it.index() + 1);
            assert(grown.drop_last() == s@.take(it.index() as int));
            assert(grown.last() == c);
        }
        if c == '\n' {
            out.push('\\');
            out.push('n');
        } else if c == '\r' {
            out.push('\\');
            out.push('r');
        } else {
            out.push(c);
        }
    }
    assert(s@.take(s@.len() as int) == s@);
    out
}

/// The words and separators of a log line hold no line break.
proof fn lemma_template_unbroken(action: AuditAction)
    ensures
        unbroken("["@),
        unbroken("] ACTION: "@),
        unbroken(" | DETAILS: "@),
        unbroken(" | RESULT: "@),
        unbroken(action.label()),
{
    reveal_strlit("[");
    reveal_strlit("] ACTION: ");
    reveal_strlit(" | DETAILS: ");
    reveal_strlit(" | RESULT: ");
    reveal_strlit("EXECUTE");
    reveal_strlit("BLOCKED");
    reveal_strlit("ERROR");
}

/// One entry makes one line: its text ends in a line feed and holds no
/// other line break, whatever its timestamp, details and result hold.
pub proof fn lemma_entry_is_one_line(e: EntryView)
    ensures
        e.line().len() > 0,
        e.line().last() == '\n',
        unbroken(e.line().drop_last()),
        lines(e.line()) == seq![e.line().drop_last()],
{
    reveal_strlit("\n");
    lemma_template_unbroken(e.action);
    lemma_escaped_unbroken(e.timestamp);
    lemma_escaped_unbroken(e.details);
    lemma_escaped_unbroken(e.result);
    let a = "["@ + escaped(e.timestamp);
    let b = a + "] ACTION: "@;
    let c = b + e.action.label();
    let d = c + " | DETAILS: "@;
    let f = d + escaped(e.details);
    let g = f + " | RESULT: "@;
    let body = g + escaped(e.result);
    lemma_unbroken_concat("["@, escaped(e.timestamp));
    lemma_unbroken_concat(a, "] ACTION: "@);
    lemma_unbroken_concat(b, e.action.label());
    lemma_unbroken_concat(c, " | DETAILS: "@);
    lemma_unbroken_concat(d, escaped(e.details));
    lemma_unbroken_concat(f, " | RESULT: "@);
    lemma_unbroken_concat(g, escaped(e.result));
    assert(e.line() == body + "\n"@);
    assert(e.line().drop_last() == body);
    assert(one_line(body));
    lemma_lines_one(body);
}

/// Writing the line of one entry at the end of a log adds exactly one line
/// to it, whatever the entry holds: no entry can pass for two.
pub proof fn lemma_entry_adds_one_line(log: Seq<char>, e: EntryView)
    requires
        log.len() > 0 ==> log.last() == '\n',
    ensures
        lines(log + e.line()) == lines(log).push(e.line().drop_last()),
        lines(log + e.line()).len() == lines(log).len() + 1,
{
    lemma_entry_is_one_line(e);
    lemma_lines_append(log, e.line());
    assert(lines(log) + seq![e.line().drop_last()] == lines(log).push(e.line().drop_last()));
}

/// One attempted action, its outcome, and when it was recorded.
#[derive(Debug, Clone, PartialEq, Eq)]
pub struct AuditEntry {
    pub timestamp: String,
    pub action: AuditAction,
    pub details: String,
    pub result: String,
}

/// The mathematical value of an [`AuditEntry`].
pub struct EntryView {
    pub timestamp: Seq<char>,
    pub action: AuditAction,
    pub details: Seq<char>,
    pub result: Seq<char>,
}

/// What an entry says, apart from the time at which it was written.
pub struct Note {
    pub action: AuditAction,
    pub details: Seq<char>,
    pub result: Seq<char>,
}

impl EntryView {
    /// The entry without its timestamp.
    pub open spec fn note(self) -> Note {
        Note { action: self.action, details: self.details, result: self.result }
    }

    /// The line that the entry makes in the log file: the template filled
    /// with the timestamp, the details and the result, each with its line
    /// breaks escaped, and one line feed at the end.
    pub open spec fn line(self) -> Seq<char> {
        "["@ + escaped(self.timestamp) + "] ACTION: "@ + self.action.label() + " | DETAILS: "@
            + escaped(self.details) + " | RESULT: "@ + escaped(self.result) + "\n"@
    }
}

impl View for AuditEntry {
    type V = EntryView;

    open spec fn view(&self) -> EntryView {
        EntryView {
            timestamp: self.timestamp@,
            action: self.action,
            details: self.details@,
            result: self.result@,
        }
    }
}

impl AuditEntry {
    /// An entry stamped with the local time of the call.
    pub fn now(action: AuditAction, details: &str, result: &str) -> (entry: AuditEntry)
        ensures
            entry@.note() == (Note { action, details: details@, result: result@ }),
            is_stamp(entry@.timestamp),
    {
        AuditEntry {
            timestamp: local_time_text(TIMESTAMP_FORMAT),
            action,
            details: details.to_owned(),
            result: result.to_owned(),
        }
    }

    /// The line that the entry makes in the log file. It ends in a line
    /// feed and holds no other line break: line feeds and carriage returns
    /// in the texts of the entry are written escaped, so that no entry can
    /// pass for two.
    pub fn line(&self) -> (text: String)
        ensures
            text@ == self@.line(),
            text@.len() > 0,
            text@.last() == '\n',
            unbroken(text@.drop_last()),
    {
        let mut text = String::from_str("[");
        text.append(escape_breaks(self.timestamp.as_str()).as_str());
        text.append("] ACTION: ");
        text.append(self.action.as_str());
        text.append(" | DETAILS: ");
        text.append(escape_breaks(self.details.as_str()).as_str());
        text.append(" | RESULT: ");
        text.append(escape_breaks(self.result.as_str()).as_str());
        text.append("\n");
        proof {
            lemma_entry_is_one_line(self@);
        }
        text
    }
}

/// The values of a list of entries, in order.
pub open spec fn entry_views(entries: Seq<AuditEntry>) -> Seq<EntryView> {
    Seq::new(entries.len(), |i: int| entries[i]@)
}

/// Whether `after` is `before` with exactly one entry added at the end, and
/// that entry says `note` and carries a timestamp.
pub open spec fn appended(before: Seq<EntryView>, after: Seq<EntryView>, note: Note) -> bool {
    &&& after.len() == before.len() + 1
    &&& after.drop_last() == before
    &&& after.last().note() == note
    &&& is_stamp(after.last().timestamp)
}

/// The audit trail held in memory. Entries can only be added at the end.
pub struct AuditLog {
    entries: Vec<AuditEntry>,
}

impl View for AuditLog {
    type V = Seq<EntryView>;

    closed spec fn view(&self) -> Seq<EntryView> {
        entry_views(self.entries@)
    }
}

impl AuditLog {
    /// A trail without entries.
    pub fn new() -> (log: AuditLog)
        ensures
            log@ == Seq::<EntryView>::empty(),
    {
        AuditLog { entries: Vec::new() }
    }

    /// The number of entries.
    pub fn len(&self) -> (n: usize)
        ensures
            n == self@.len(),
    {
        self.entries.len()
    }

    /// The entry at position `i`, counted from the oldest.
    pub fn get(&self, i: usize) -> (entry: Option<&AuditEntry>)
        ensures
            i < self@.len() ==> entry is Some && entry->0@ == self@[i as int],
            i >= self@.len() ==> entry is None,
    {
        if i < self.entries.len() {
            Some(&self.entries[i])
        } else {
            None
        }
    }

    /// Adds `entry` at the end. What was recorded before stays as it was.
    pub fn append(&mut self, entry: AuditEntry)
        ensures
            final(self)@ == old(self)@.push(entry@),
    {
        self.entries.push(entry);
    }
}

/// Records one event in the trail, stamped with the local time.
pub fn log_audit_event(log: &mut AuditLog, action: AuditAction, details: &str, result: &str)
    ensures
        appended(old(log)@, final(log)@, Note { action, details: details@, result: result@ }),
{
    let entry = AuditEntry::now(action, details, result);
    log.append(entry);
    assert(log@.drop_last() == old(log)@);
}

/// The trail only grows: after two events it holds what it held before,
/// then the first event's entry, then the second's.
pub proof fn lemma_entries_accumulate(
    start: Seq<EntryView>,
    middle: Seq<EntryView>,
    end: Seq<EntryView>,
    first: Note,
    second: Note,
)
    requires
        appended(start, middle, first),
        appended(middle, end, second),
    ensures
        end.len() == start.len() + 2,
        end.take(start.len() as int) == start,
        end[start.len() as int].note() == first,
        end[start.len() as int + 1].note() == second,
{
    assert(middle == end.drop_last());
    assert(start == middle.drop_last());
    assert(end.take(start.len() as int) == start);
    assert(end[start.len() as int] == middle.last());
}

} // verus!
