//! The gated path from a command request to its reply: validate, plan the
//! shell invocation, take in the process output line by line, and turn the
//! exit status into the reply and its audit entry.
//!
//! The library never starts a process. The caller performs each step that
//! [`Session::next_step`] asks for and hands back what happened;
//! [`WingetWrapper::run_command`] does the same over a recorded execution.

use crate::audit::{appended, AuditAction, AuditEntry, AuditLog, EntryView, Note};
use crate::bridge::{is_stamp, json_text, write_json};
use crate::listing::{
    lemma_scan_sound, listing_records, scan, scan_row, sound_record, HeaderLayout, Labels,
    Progress,
};
use crate::models::{
    opt_text, package_views, PackageView, ResultView, WingetCommandResult, WingetPackage,
};
use crate::security::{
    command_allowed, has_flag, is_command_allowed, lemma_name_selects_verb, Verb,
};
use crate::text::{join, join_strs, line_bounds, lines, to_chars, views};
use vstd::prelude::*;

verus! {

/// The shell that runs the tool.
pub const SHELL: &'static str = "pwsh";

/// The tool's name and the blank that separates it from its arguments.
pub const TOOL_PREFIX: &'static str = "winget ";

/// The statement that makes the shell read and write UTF-8 before the tool
/// runs.
pub const ENCODING_PRELUDE: &'static str =
    "$OutputEncoding = [Console]::InputEncoding = [Console]::OutputEncoding = New-Object System.Text.UTF8Encoding; ";

/// The process creation flag that keeps the child from opening a console
/// window.
pub const NO_WINDOW: u32 = 0x0800_0000;

/// The error text of a refused command.
pub const BLOCKED_MESSAGE: &'static str = "Command blocked by security policy";

/// The audit result of a refused command.
pub const BLOCKED_NOTE: &'static str = "Security Violations: Command not allowed";

/// The exit code reported for a refused command.
pub const BLOCKED_CODE: i32 = -1;

/// The exit code reported when the process could not be started.
pub const SPAWN_FAILED_CODE: i32 = -2;

/// The command line that is run and audited: the tool's name and the tokens,
/// separated by blanks.
pub open spec fn command_line(tokens: Seq<Seq<char>>) -> Seq<char> {
    TOOL_PREFIX@ + join(tokens, " "@)
}

/// The arguments handed to the shell.
pub open spec fn shell_arguments(tokens: Seq<Seq<char>>) -> Seq<Seq<char>> {
    seq!["-NoProfile"@, "-NonInteractive"@, "-Command"@, ENCODING_PRELUDE@ + command_line(tokens)]
}

/// A streamable command reports its progress line by line: an install, an
/// uninstall, or an upgrade of one package or of all.
pub open spec fn is_streamable(tokens: Seq<Seq<char>>) -> bool {
    tokens.len() > 0 && match Verb::of(tokens[0]) {
        Some(Verb::Install) => true,
        Some(Verb::Uninstall) => true,
        Some(Verb::Upgrade) => tokens.contains("--id"@) || tokens.contains("--all"@),
        _ => false,
    }
}

/// A listing command prints a table of packages: a list, a search, or an
/// upgrade that only lists what could be upgraded.
pub open spec fn is_listing(tokens: Seq<Seq<char>>) -> bool {
    tokens.len() > 0 && !is_streamable(tokens) && match Verb::of(tokens[0]) {
        Some(Verb::List) => true,
        Some(Verb::Search) => true,
        Some(Verb::Upgrade) => true,
        _ => false,
    }
}

/// Whether the listing is one of available upgrades.
pub open spec fn is_upgrade_listing(tokens: Seq<Seq<char>>) -> bool {
    is_listing(tokens) && Verb::of(tokens[0]) == Some(Verb::Upgrade)
}

/// The two channels on which lines are forwarded while a command runs.
#[derive(Debug, Clone, Copy, PartialEq, Eq, Structural)]
pub enum Channel {
    /// Lines the process wrote to its standard output.
    Output,
    /// Lines the process wrote to its standard error.
    Error,
}

impl Channel {
    /// The name under which events of this channel are published.
    pub open spec fn name(self) -> Seq<char> {
        match self {
            Channel::Output => "winget-output"@,
            Channel::Error => "winget-error"@,
        }
    }

    /// The name under which events of this channel are published.
    pub fn as_str(self) -> (name: &'static str)
        ensures
            name@ == self.name(),
    {
        match self {
            Channel::Output => "winget-output",
            Channel::Error => "winget-error",
        }
    }
}

/// One line forwarded to the listeners, without its line terminator.
#[derive(Debug, Clone, PartialEq, Eq)]
pub struct StreamEvent {
    pub channel: Channel,
    pub line: String,
}

/// The mathematical value of a [`StreamEvent`].
pub struct EventView {
    pub channel: Channel,
    pub line: Seq<char>,
}

impl View for StreamEvent {
    type V = EventView;

    open spec fn view(&self) -> EventView {
        EventView { channel: self.channel, line: self.line@ }
    }
}

/// The values of a list of events, in order.
pub open spec fn event_views(events: Seq<StreamEvent>) -> Seq<EventView> {
    Seq::new(events.len(), |i: int| events[i]@)
}

/// The value of an optional event.
pub open spec fn opt_event(event: Option<StreamEvent>) -> Option<EventView> {
    match event {
        Some(e) => Some(e@),
        None => None,
    }
}

/// The texts of a list of strings, in order.
pub open spec fn texts(items: Seq<String>) -> Seq<Seq<char>> {
    Seq::new(items.len(), |i: int| items[i]@)
}

/// The process to start: a program, its arguments, and the creation flags
/// to start it with. Its standard output and standard error are to be
/// piped.
#[derive(Debug, Clone, PartialEq, Eq)]
pub struct Launch {
    pub program: String,
    pub arguments: Vec<String>,
    pub creation_flags: u32,
}

/// The mathematical value of a [`Launch`].
pub struct LaunchView {
    pub program: Seq<char>,
    pub arguments: Seq<Seq<char>>,
    pub creation_flags: u32,
}

impl View for Launch {
    type V = LaunchView;

    open spec fn view(&self) -> LaunchView {
        LaunchView {
            program: self.program@,
            arguments: texts(self.arguments@),
            creation_flags: self.creation_flags,
        }
    }
}

/// What the caller has to do next for a running command.
#[derive(Debug, Clone, Copy, PartialEq, Eq, Structural)]
pub enum Step {
    /// Read the next line of standard output, or learn that it has ended.
    ReadOutput,
    /// Read the next line of standard error, or learn that it has ended.
    ReadError,
    /// Wait for the process to exit.
    Wait,
}

/// A command that has been allowed and started: what was asked, and what the
/// process has written so far.
#[derive(Debug, Clone, PartialEq, Eq)]
pub struct Session {
    pub step: Step,
    pub command_line: String,
    pub streamable: bool,
    pub listing: bool,
    pub upgrade: bool,
    pub stdout: String,
    pub stderr: String,
}

/// The mathematical value of a [`Session`].
pub struct SessionView {
    pub step: Step,
    pub command_line: Seq<char>,
    pub streamable: bool,
    pub listing: bool,
    pub upgrade: bool,
    pub stdout: Seq<char>,
    pub stderr: Seq<char>,
}

impl View for Session {
    type V = SessionView;

    open spec fn view(&self) -> SessionView {
        SessionView {
            step: self.step,
            command_line: self.command_line@,
            streamable: self.streamable,
            listing: self.listing,
            upgrade: self.upgrade,
            stdout: self.stdout@,
            stderr: self.stderr@,
        }
    }
}

/// The reply to the caller and the entry for the audit trail.
#[derive(Debug, Clone, PartialEq, Eq)]
pub struct Completion {
    pub audit: AuditEntry,
    pub result: WingetCommandResult,
}

/// The mathematical value of a [`Completion`].
pub struct CompletionView {
    pub audit: EntryView,
    pub result: ResultView,
}

/// What the rules fix of a completion: what the audit entry says, and the
/// reply. The timestamp of the entry is the clock's.
pub struct Outcome {
    pub note: Note,
    pub result: ResultView,
}

impl CompletionView {
    /// The completion without the timestamp of its audit entry.
    pub open spec fn outcome(self) -> Outcome {
        Outcome { note: self.audit.note(), result: self.result }
    }

    /// Whether the completion is the one that the rules fix, stamped by
    /// the clock, with a reply that is consistent.
    pub open spec fn completes(self, outcome: Outcome) -> bool {
        &&& self.outcome() == outcome
        &&& is_stamp(self.audit.timestamp)
        &&& self.result.consistent()
    }
}

impl View for Completion {
    type V = CompletionView;

    open spec fn view(&self) -> CompletionView {
        CompletionView { audit: self.audit@, result: self.result@ }
    }
}

/// The verdict on a command request.
#[derive(Debug, Clone, PartialEq, Eq)]
pub enum Decision {
    /// The request is refused; nothing is to be started.
    Blocked(Completion),
    /// The request is allowed: start this process and follow the session.
    Run(Launch, Session),
}

/// The outcome of a refused request.
pub open spec fn blocked_outcome(tokens: Seq<Seq<char>>) -> Outcome {
    Outcome {
        note: Note {
            action: AuditAction::Blocked,
            details: join(tokens, " "@),
            result: BLOCKED_NOTE@,
        },
        result: ResultView {
            success: false,
            output: None,
            error: Some(BLOCKED_MESSAGE@),
            code: Some(BLOCKED_CODE),
        },
    }
}

/// The process that runs an allowed request.
pub open spec fn launch_of(tokens: Seq<Seq<char>>) -> LaunchView {
    LaunchView {
        program: SHELL@,
        arguments: shell_arguments(tokens),
        creation_flags: NO_WINDOW,
    }
}

/// The JSON members of one package, in the order in which they are written.
pub open spec fn package_row(p: PackageView) -> Seq<(Seq<char>, Option<Seq<char>>)> {
    seq![
        ("Id"@, Some(p.id)),
        ("Name"@, Some(p.name)),
        ("Version"@, Some(p.version)),
        ("Source"@, p.source),
        ("Available"@, p.available_version),
    ]
}

/// The JSON members of a list of packages.
pub open spec fn package_rows(packages: Seq<PackageView>) -> Seq<
    Seq<(Seq<char>, Option<Seq<char>>)>,
> {
    Seq::new(packages.len(), |i: int| package_row(packages[i]))
}

/// The output of a command that succeeded in listing packages: the records
/// as JSON when they can be written so, the raw text otherwise.
pub open spec fn listing_output(raw: Seq<char>, json: Option<Seq<char>>) -> Seq<char> {
    match json {
        Some(text) => text,
        None => raw,
    }
}

impl SessionView {
    /// The session of a command that has just been started.
    pub open spec fn start(tokens: Seq<Seq<char>>) -> SessionView {
        SessionView {
            step: Step::ReadOutput,
            command_line: command_line(tokens),
            streamable: is_streamable(tokens),
            listing: is_listing(tokens),
            upgrade: is_upgrade_listing(tokens),
            stdout: Seq::empty(),
            stderr: Seq::empty(),
        }
    }

    /// The session after one more line of the stream that is being read, and
    /// the event to publish for it. The line is kept with a line feed after
    /// it; an event is due only for a streamable command.
    pub open spec fn take_line(self, line: Seq<char>) -> (SessionView, Option<EventView>) {
        match self.step {
            Step::ReadOutput => (
                SessionView { stdout: self.stdout + line + "\n"@, ..self },
                if self.streamable {
                    Some(EventView { channel: Channel::Output, line })
                } else {
                    None
                },
            ),
            Step::ReadError => (
                SessionView { stderr: self.stderr + line + "\n"@, ..self },
                if self.streamable {
                    Some(EventView { channel: Channel::Error, line })
                } else {
                    None
                },
            ),
            Step::Wait => (self, None),
        }
    }

    /// The session after the stream that is being read has ended: standard
    /// error follows standard output, and the wait follows standard error.
    pub open spec fn end_stream(self) -> SessionView {
        match self.step {
            Step::ReadOutput => SessionView { step: Step::ReadError, ..self },
            Step::ReadError => SessionView { step: Step::Wait, ..self },
            Step::Wait => self,
        }
    }

    /// The outcome when the process could not be started.
    pub open spec fn spawn_failure(self, os_error: Seq<char>) -> Outcome {
        Outcome {
            note: Note {
                action: AuditAction::Error,
                details: self.command_line,
                result: os_error,
            },
            result: ResultView {
                success: false,
                output: None,
                error: Some(os_error),
                code: Some(SPAWN_FAILED_CODE),
            },
        }
    }

    /// The output of the reply once the process has exited.
    pub open spec fn final_output(self, success: bool) -> Seq<char> {
        if success && self.listing {
            listing_output(
                self.stdout,
                json_text(package_rows(listing_records(self.stdout, self.upgrade))),
            )
        } else {
            self.stdout
        }
    }

    /// The outcome once the process has exited with `code`. The command
    /// succeeded exactly when the exit code is 0. An exit code that the
    /// system does not report is no success, and is reported as 0.
    pub open spec fn exit(self, code: Option<i32>) -> Outcome {
        let success = succeeded(code);
        Outcome {
            note: Note {
                action: AuditAction::Execute,
                details: self.command_line,
                result: if success {
                    "SUCCESS"@
                } else {
                    "FAILURE"@
                },
            },
            result: ResultView {
                success,
                output: Some(self.final_output(success)),
                error: if success {
                    None
                } else {
                    Some(self.stderr)
                },
                code: Some(
                    match code {
                        Some(c) => c,
                        None => 0,
                    },
                ),
            },
        }
    }
}

/// Whether an exit code reports success: it is there, and it is 0.
pub open spec fn succeeded(code: Option<i32>) -> bool {
    code == Some(0i32)
}

/// What a process did, as the caller observed it.
#[derive(Debug, Clone, PartialEq, Eq)]
pub enum Execution {
    /// The process could not be started; the text is the system's error.
    SpawnFailed(String),
    /// The process ran: the lines it wrote, without terminators, and the
    /// exit code, where the system reports one.
    Ran { stdout: Vec<String>, stderr: Vec<String>, code: Option<i32> },
}

/// The mathematical value of an [`Execution`].
pub enum ExecutionView {
    SpawnFailed(Seq<char>),
    Ran { stdout: Seq<Seq<char>>, stderr: Seq<Seq<char>>, code: Option<i32> },
}

impl View for Execution {
    type V = ExecutionView;

    open spec fn view(&self) -> ExecutionView {
        match self {
            Execution::SpawnFailed(error) => ExecutionView::SpawnFailed(error@),
            Execution::Ran { stdout, stderr, code } => ExecutionView::Ran {
                stdout: texts(stdout@),
                stderr: texts(stderr@),
                code: *code,
            },
        }
    }
}

/// What stands for the application around one or more commands: the audit
/// trail and the events published so far.
pub struct Host {
    pub audit: AuditLog,
    pub events: Vec<StreamEvent>,
}

/// The text kept of a stream: every line followed by a line feed.
pub open spec fn collected(rows: Seq<Seq<char>>) -> Seq<char>
    decreases rows.len(),
{
    if rows.len() == 0 {
        Seq::empty()
    } else {
        collected(rows.drop_last()) + rows.last() + "\n"@
    }
}

/// One event per line on `channel`, in the order of the lines.
pub open spec fn streamed(channel: Channel, rows: Seq<Seq<char>>) -> Seq<EventView> {
    Seq::new(rows.len(), |i: int| EventView { channel, line: rows[i] })
}

/// The channel of the stream that a step reads.
pub open spec fn channel_of(step: Step) -> Option<Channel> {
    match step {
        Step::ReadOutput => Some(Channel::Output),
        Step::ReadError => Some(Channel::Error),
        Step::Wait => None,
    }
}

impl SessionView {
    /// The session after all of `rows` have been taken in from the stream
    /// that is being read.
    pub open spec fn take_lines(self, rows: Seq<Seq<char>>) -> SessionView {
        match self.step {
            Step::ReadOutput => SessionView { stdout: self.stdout + collected(rows), ..self },
            Step::ReadError => SessionView { stderr: self.stderr + collected(rows), ..self },
            Step::Wait => self,
        }
    }

    /// The events due for `rows` taken in from the stream that is being
    /// read.
    pub open spec fn events_for(self, rows: Seq<Seq<char>>) -> Seq<EventView> {
        match channel_of(self.step) {
            Some(channel) => if self.streamable {
                streamed(channel, rows)
            } else {
                Seq::empty()
            },
            None => Seq::empty(),
        }
    }

    /// The session of a command whose two streams have been read to their
    /// ends.
    pub open spec fn drained(
        tokens: Seq<Seq<char>>,
        stdout: Seq<Seq<char>>,
        stderr: Seq<Seq<char>>,
    ) -> SessionView {
        SessionView {
            step: Step::Wait,
            stdout: collected(stdout),
            stderr: collected(stderr),
            ..SessionView::start(tokens)
        }
    }
}

/// The reply and the audit note of one command, given what its process did.
/// A refused command is completed without regard to any process.
pub open spec fn run_outcome(tokens: Seq<Seq<char>>, execution: ExecutionView) -> Outcome {
    if !command_allowed(tokens) {
        blocked_outcome(tokens)
    } else {
        match execution {
            ExecutionView::SpawnFailed(error) => SessionView::start(tokens).spawn_failure(error),
            ExecutionView::Ran { stdout, stderr, code } => SessionView::drained(
                tokens,
                stdout,
                stderr,
            ).exit(code),
        }
    }
}

/// The events published for one command: for a streamable command every
/// line of standard output, then every line of standard error; none for
/// any other command.
pub open spec fn run_events(tokens: Seq<Seq<char>>, execution: ExecutionView) -> Seq<EventView> {
    match execution {
        ExecutionView::Ran { stdout, stderr, code } => if command_allowed(tokens)
            && is_streamable(tokens) {
            streamed(Channel::Output, stdout) + streamed(Channel::Error, stderr)
        } else {
            Seq::empty()
        },
        ExecutionView::SpawnFailed(error) => Seq::empty(),
    }
}

/// A refused command is completed the same way whatever a process would
/// have done: it is audited as blocked, it fails with the fixed message, and
/// nothing is published.
pub proof fn lemma_blocked_command(tokens: Seq<Seq<char>>, execution: ExecutionView)
    requires
        !command_allowed(tokens),
    ensures
        run_outcome(tokens, execution) == blocked_outcome(tokens),
        run_outcome(tokens, execution).note.action == AuditAction::Blocked,
        !run_outcome(tokens, execution).result.success,
        run_events(tokens, execution) == Seq::<EventView>::empty(),
{
}

/// An install, an uninstall, and an upgrade by id or of all are streamable.
pub proof fn lemma_streamable_verbs(tokens: Seq<Seq<char>>)
    requires
        tokens.len() > 0,
    ensures
        tokens[0] == Verb::Install.name() ==> is_streamable(tokens),
        tokens[0] == Verb::Uninstall.name() ==> is_streamable(tokens),
        tokens[0] == Verb::Upgrade.name() ==> (is_streamable(tokens) <==> tokens.contains("--id"@)
            || tokens.contains("--all"@)),
{
    lemma_name_selects_verb(Verb::Install);
    lemma_name_selects_verb(Verb::Uninstall);
    lemma_name_selects_verb(Verb::Upgrade);
}

/// A streamable command that ran publishes one event for every line, in
/// the order in which the lines were received: the lines of standard output
/// first, each on the output channel, then those of standard error.
pub proof fn lemma_streamed_in_order(
    tokens: Seq<Seq<char>>,
    stdout: Seq<Seq<char>>,
    stderr: Seq<Seq<char>>,
    code: Option<i32>,
)
    requires
        command_allowed(tokens),
        is_streamable(tokens),
    ensures
        ({
            let events = run_events(tokens, ExecutionView::Ran { stdout, stderr, code });
            &&& events.len() == stdout.len() + stderr.len()
            &&& forall|i: int|
                0 <= i < stdout.len() ==> #[trigger] events[i] == (EventView {
                    channel: Channel::Output,
                    line: stdout[i],
                })
            &&& forall|j: int|
                0 <= j < stderr.len() ==> #[trigger] events[stdout.len() + j] == (EventView {
                    channel: Channel::Error,
                    line: stderr[j],
                })
        }),
{
}

/// A copy of an optional text.
fn copy_opt(text: &Option<String>) -> (copy: Option<String>)
    ensures
        opt_text(copy) == opt_text(*text),
{
    match text {
        Some(t) => Some(t.clone()),
        None => None,
    }
}

/// The JSON members of one package, in the order in which they are written.
pub fn package_members(package: &WingetPackage) -> (members: Vec<(String, Option<String>)>)
    ensures
        members.deep_view() == package_row(package@),
{
    let mut members: Vec<(String, Option<String>)> = Vec::new();
    members.push(("Id".to_owned(), Some(package.id.clone())));
    members.push(("Name".to_owned(), Some(package.name.clone())));
    members.push(("Version".to_owned(), Some(package.version.clone())));
    members.push(("Source".to_owned(), copy_opt(&package.source)));
    members.push(("Available".to_owned(), copy_opt(&package.available_version)));
    proof {
        let d = members.deep_view();
        let row = package_row(package@);
        assert(d.len() == 5);
        assert forall|i: int| 0 <= i < 5 implies d[i] == row[i] by {
            assert(d[i] == members@[i].deep_view());
        }
        assert(d =~= row);
    }
    members
}

/// The packages of a listing as a JSON array of objects, or `None` when
/// they cannot be written.
pub fn listing_json(packages: &Vec<WingetPackage>) -> (text: Option<String>)
    ensures
        opt_text(text) == json_text(package_rows(package_views(packages@))),
{
    let mut rows: Vec<Vec<(String, Option<String>)>> = Vec::new();
    let mut i: usize = 0;
    while i < packages.len()
        invariant
            i <= packages.len(),
            rows@.len() == i,
            rows.deep_view() == package_rows(package_views(packages@)).take(i as int),
        decreases packages.len() - i,
    {
        let members = package_members(&packages[i]);
        let ghost before = rows.deep_view();
        let ghost earlier = rows@;
        rows.push(members);
        proof {
            let all = package_rows(package_views(packages@));
            let d = rows.deep_view();
            assert(d.len() == i + 1);
            assert forall|k: int| 0 <= k < i + 1 implies d[k] == all.take(i + 1)[k] by {
                assert(d[k] == rows@[k].deep_view());
                if k < i {
                    assert(rows@[k] == earlier[k]);
                    assert(before[k] == earlier[k].deep_view());
                } else {
                    assert(all[k] == package_row(packages@[k]@));
                }
            }
            assert(d =~= all.take(i + 1));
        }
        i += 1;
    }
    proof {
        let all = package_rows(package_views(packages@));
        assert(all.take(packages@.len() as int) == all);
    }
    let text = write_json(&rows);
    proof {
        assert(text.deep_view() == opt_text(text));
    }
    text
}

/// The output of a command that succeeded in listing packages: the JSON
/// text when there is one, the raw text otherwise.
pub fn choose_output(raw: String, json: Option<String>) -> (output: String)
    ensures
        output@ == listing_output(raw@, opt_text(json)),
{
    match json {
        Some(text) => text,
        None => raw,
    }
}

impl Session {
    /// What the caller has to do next.
    pub fn next_step(&self) -> (step: Step)
        ensures
            step == self@.step,
    {
        self.step
    }

    /// Takes in one line, without its terminator, of the stream that is
    /// being read. Returns the event to publish, if the command streams.
    pub fn line(&mut self, text: &str) -> (event: Option<StreamEvent>)
        ensures
            (final(self)@, opt_event(event)) == old(self)@.take_line(text@),
    {
        match self.step {
            Step::ReadOutput => {
                self.stdout.append(text);
                self.stdout.append("\n");
                if self.streamable {
                    Some(StreamEvent { channel: Channel::Output, line: text.to_owned() })
                } else {
                    None
                }
            },
            Step::ReadError => {
                self.stderr.append(text);
                self.stderr.append("\n");
                if self.streamable {
                    Some(StreamEvent { channel: Channel::Error, line: text.to_owned() })
                } else {
                    None
                }
            },
            Step::Wait => None,
        }
    }

    /// Takes in all of `rows` from the stream that is being read, and
    /// publishes the events that are due in `events`.
    pub fn lines(&mut self, rows: &Vec<String>, events: &mut Vec<StreamEvent>)
        ensures
            final(self)@ == old(self)@.take_lines(texts(rows@)),
            event_views(final(events)@) == event_views(old(events)@) + old(self)@.events_for(
                texts(rows@),
            ),
    {
        let ghost all = texts(rows@);
        let ghost start = self@;
        let ghost published = event_views(events@);
        let mut i: usize = 0;
        assert(collected(all.take(0)) == Seq::<char>::empty());
        assert(self@.stdout + Seq::<char>::empty() == self@.stdout);
        assert(self@.stderr + Seq::<char>::empty() == self@.stderr);
        assert(published + start.events_for(all.take(0)) == published);
        while i < rows.len()
            invariant
                i <= rows.len(),
                all == texts(rows@),
                self@ == start.take_lines(all.take(i as int)),
                event_views(events@) == published + start.events_for(all.take(i as int)),
            decreases rows.len() - i,
        {
            let ghost before = all.take(i as int);
            let ghost grown = all.take(i + 1);
            let ghost seen = event_views(events@);
            proof {
                assert(grown.drop_last() == before);
                assert(grown.last() == rows@[i as int]@);
                assert(start.step == self@.step);
            }
            let event = self.line(rows[i].as_str());
            match event {
                Some(e) => {
                    events.push(e);
                    assert(event_views(events@) == seen.push(e@));
                },
                None => {},
            }
            proof {
                let line = rows@[i as int]@;
                match channel_of(start.step) {
                    Some(channel) => {
                        if start.streamable {
                            assert(streamed(channel, grown) == streamed(channel, before).push(
                                EventView { channel, line },
                            ));
                        }
                    },
                    None => {},
                }
                let grown_text = collected(before) + line + "\n"@;
                assert(start.stdout + collected(before) + line + "\n"@ == start.stdout + grown_text);
                assert(start.stderr + collected(before) + line + "\n"@ == start.stderr + grown_text);
            }
            i += 1;
        }
        assert(all.take(rows@.len() as int) == all);
    }

    /// Notes that the stream that is being read has ended.
    pub fn end_stream(&mut self)
        ensures
            final(self)@ == old(self)@.end_stream(),
    {
        match self.step {
            Step::ReadOutput => {
                self.step = Step::ReadError;
            },
            Step::ReadError => {
                self.step = Step::Wait;
            },
            Step::Wait => {},
        }
    }

    /// The completion when the process could not be started; `os_error` is
    /// the system's description of the failure.
    pub fn spawn_failed(&self, os_error: &str) -> (done: Completion)
        ensures
            done@.completes(self@.spawn_failure(os_error@)),
    {
        Completion {
            audit: AuditEntry::now(AuditAction::Error, self.command_line.as_str(), os_error),
            result: WingetCommandResult {
                success: false,
                output: None,
                error: Some(os_error.to_owned()),
                code: Some(SPAWN_FAILED_CODE),
            },
        }
    }

    /// The completion once the process has exited; `code` is the exit code,
    /// where the system reports one. The command succeeded exactly when
    /// the exit code is 0.
    pub fn exited(self, code: Option<i32>) -> (done: Completion)
        ensures
            done@.completes(self@.exit(code)),
    {
        let success = match code {
            Some(c) => c == 0,
            None => false,
        };
        let verdict = if success {
            "SUCCESS"
        } else {
            "FAILURE"
        };
        let audit = AuditEntry::now(AuditAction::Execute, self.command_line.as_str(), verdict);
        let output = if success && self.listing {
            let packages = WingetWrapper::parse_winget_output(self.stdout.as_str(), self.upgrade);
            let json = listing_json(&packages);
            choose_output(self.stdout, json)
        } else {
            self.stdout
        };
        Completion {
            audit,
            result: WingetCommandResult {
                success,
                output: Some(output),
                error: if success {
                    None
                } else {
                    Some(self.stderr)
                },
                code: Some(
                    match code {
                        Some(c) => c,
                        None => 0,
                    },
                ),
            },
        }
    }
}

/// The entry points of the gated command path.
pub struct WingetWrapper;

impl WingetWrapper {
    /// Validates a request and plans its execution. A refused request is
    /// completed at once: nothing is to be started for it.
    pub fn prepare(args: &[&str]) -> (decision: Decision)
        ensures
            match decision {
                Decision::Blocked(done) => {
                    &&& !command_allowed(views(args@))
                    &&& done@.completes(blocked_outcome(views(args@)))
                },
                Decision::Run(launch, session) => {
                    &&& command_allowed(views(args@))
                    &&& launch@ == launch_of(views(args@))
                    &&& session@ == SessionView::start(views(args@))
                },
            },
    {
        let joined = join_strs(args, " ");
        if !is_command_allowed(args) {
            return Decision::Blocked(
                Completion {
                    audit: AuditEntry::now(AuditAction::Blocked, joined.as_str(), BLOCKED_NOTE),
                    result: WingetCommandResult {
                        success: false,
                        output: None,
                        error: Some(BLOCKED_MESSAGE.to_owned()),
                        code: Some(BLOCKED_CODE),
                    },
                },
            );
        }
        let ghost tokens = views(args@);
        assert(tokens[0] == args@[0]@);
        let mut command_line = TOOL_PREFIX.to_owned();
        command_line.append(joined.as_str());
        let mut script = ENCODING_PRELUDE.to_owned();
        script.append(command_line.as_str());
        let verb = Verb::parse(args[0]);
        let streamable = match verb {
            Some(Verb::Install) => true,
            Some(Verb::Uninstall) => true,
            Some(Verb::Upgrade) => has_flag(args, "--id") || has_flag(args, "--all"),
            _ => false,
        };
        let lists = match verb {
            Some(Verb::List) => true,
            Some(Verb::Search) => true,
            Some(Verb::Upgrade) => true,
            _ => false,
        };
        let upgrades = match verb {
            Some(Verb::Upgrade) => true,
            _ => false,
        };
        let listing = lists && !streamable;
        let mut arguments: Vec<String> = Vec::new();
        arguments.push("-NoProfile".to_owned());
        arguments.push("-NonInteractive".to_owned());
        arguments.push("-Command".to_owned());
        arguments.push(script);
        assert(texts(arguments@) == shell_arguments(tokens));
        Decision::Run(
            Launch { program: SHELL.to_owned(), arguments, creation_flags: NO_WINDOW },
            Session {
                step: Step::ReadOutput,
                command_line,
                streamable,
                listing,
                upgrade: listing && upgrades,
                stdout: String::new(),
                stderr: String::new(),
            },
        )
    }

    /// Carries one command through the gated path over a recorded
    /// execution: validates it, takes in what the process wrote, standard
    /// output before standard error, and completes it. The audit trail of
    /// `host` gains exactly one entry and its events the lines that were
    /// streamed. `execution` is not looked at for a refused command.
    pub fn run_command(host: &mut Host, args: Vec<&str>, execution: &Execution) -> (result:
        WingetCommandResult)
        ensures
            result@ == run_outcome(views(args@), execution@).result,
            result@.consistent(),
            appended(
                old(host).audit@,
                final(host).audit@,
                run_outcome(views(args@), execution@).note,
            ),
            event_views(final(host).events@) == event_views(old(host).events@) + run_events(
                views(args@),
                execution@,
            ),
    {
        let ghost tokens = views(args@);
        let ghost trail = host.audit@;
        let ghost published = event_views(host.events@);
        assert(published + Seq::<EventView>::empty() == published);
        let done = match WingetWrapper::prepare(args.as_slice()) {
            Decision::Blocked(done) => done,
            Decision::Run(_launch, mut session) => {
                match execution {
                    Execution::SpawnFailed(error) => session.spawn_failed(error.as_str()),
                    Execution::Ran { stdout, stderr, code } => {
                        let ghost out = texts(stdout@);
                        let ghost err = texts(stderr@);
                        session.lines(stdout, &mut host.events);
                        session.end_stream();
                        session.lines(stderr, &mut host.events);
                        session.end_stream();
                        proof {
                            let start = SessionView::start(tokens);
                            assert(start.stdout + collected(out) == collected(out));
                            assert(start.stderr + collected(err) == collected(err));
                            assert(session@ == SessionView::drained(tokens, out, err));
                            if !start.streamable {
                                assert(published + Seq::<EventView>::empty() + Seq::<
                                    EventView,
                                >::empty() == published);
                            } else {
                                assert(published + streamed(Channel::Output, out) + streamed(
                                    Channel::Error,
                                    err,
                                ) == published + (streamed(Channel::Output, out) + streamed(
                                    Channel::Error,
                                    err,
                                )));
                            }
                        }
                        session.exited(*code)
                    },
                }
            },
        };
        host.audit.append(done.audit);
        assert(host.audit@.drop_last() == trail);
        done.result
    }

    /// Parses a listing into its package records, in the order of the text.
    /// `is_upgrade_list` says that the text lists available upgrades; only
    /// then is the available version of a row read.
    pub fn parse_winget_output(output: &str, is_upgrade_list: bool) -> (packages: Vec<
        WingetPackage,
    >)
        ensures
            package_views(packages@) == listing_records(output@, is_upgrade_list),
            forall|i: int|
                0 <= i < packages@.len() ==> sound_record(
                    (#[trigger] packages@[i])@,
                    is_upgrade_list,
                ),
    {
        let buffer = to_chars(output);
        let chars = buffer.as_slice();
        let labels = Labels::new();
        let mut packages: Vec<WingetPackage> = Vec::new();
        let mut state = Progress {
            header_found: false,
            started: false,
            layout: HeaderLayout { name_end: 0, id_end: 0, version_end: 0, available_start: 0 },
        };
        let mut pos: usize = 0;
        let ghost mut done: Seq<Seq<char>> = Seq::empty();
        assert(chars@.skip(0) == chars@);
        assert(package_views(packages@) == Seq::<PackageView>::empty());
        while pos < chars.len()
            invariant
                pos <= chars.len(),
                chars@ == output@,
                labels.wf(),
                lines(chars@) == done + lines(chars@.skip(pos as int)),
                scan(done, is_upgrade_list) == (state@, package_views(packages@)),
            decreases chars.len() - pos,
        {
            let (end, next) = line_bounds(chars, pos);
            let ghost line = chars@.subrange(pos as int, end as int);
            let ghost before = package_views(packages@);
            let (after, row) = scan_row(chars, pos, end, state, is_upgrade_list, &labels);
            match row {
                Some(p) => {
                    packages.push(p);
                    assert(package_views(packages@) == before.push(p@));
                },
                None => {},
            }
            proof {
                let grown = done.push(line);
                assert(grown.drop_last() == done);
                assert(grown.last() == line);
                assert(done + (seq![line] + lines(chars@.skip(next as int))) == grown + lines(
                    chars@.skip(next as int),
                ));
                done = grown;
            }
            state = after;
            pos = next;
        }
        proof {
            assert(lines(chars@.skip(pos as int)) == Seq::<Seq<char>>::empty());
            assert(done + Seq::<Seq<char>>::empty() == done);
            lemma_scan_sound(done, is_upgrade_list);
            assert forall|i: int| 0 <= i < packages@.len() implies sound_record(
                (#[trigger] packages@[i])@,
                is_upgrade_list,
            ) by {
                assert(package_views(packages@).len() == packages@.len());
                assert(packages@[i]@ == package_views(packages@)[i]);
                assert(scan(done, is_upgrade_list).1[i] == packages@[i]@);
            }
        }
        packages
    }
}

} // verus!
