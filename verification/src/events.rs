//! The events that the program writes, one JSON object each.

use vstd::prelude::*;

use crate::binary64::Binary64;
use crate::headers::Warning;

verus! {

/// The value of one member of an event.
#[derive(Debug)]
pub enum Field {
    Null,
    Text(String),
    Flag(bool),
    Count(u64),
    Signed(i64),
    Number(Binary64),
}

/// What the value of a member is.
pub enum FieldView {
    Null,
    Text(Seq<char>),
    Flag(bool),
    Count(u64),
    Signed(i64),
    Number(Binary64),
}

impl View for Field {
    type V = FieldView;

    open spec fn view(&self) -> FieldView {
        match self {
            Field::Null => FieldView::Null,
            Field::Text(s) => FieldView::Text(s@),
            Field::Flag(b) => FieldView::Flag(*b),
            Field::Count(n) => FieldView::Count(*n),
            Field::Signed(n) => FieldView::Signed(*n),
            Field::Number(x) => FieldView::Number(*x),
        }
    }
}

/// One member of an event.
#[derive(Debug)]
pub struct Member {
    pub key: &'static str,
    pub value: Field,
}

impl View for Member {
    type V = (Seq<char>, FieldView);

    open spec fn view(&self) -> (Seq<char>, FieldView) {
        (self.key@, self.value@)
    }
}

/// What the members of an event say.
pub open spec fn members_view(ms: Seq<Member>) -> Seq<(Seq<char>, FieldView)> {
    ms.map_values(|m: Member| m@)
}

/// The download of a task begins.
#[derive(Debug)]
pub struct StartEvent {
    pub project: String,
    pub task_key: String,
    pub label: Option<String>,
    pub display_label: Option<String>,
    pub path: String,
    pub url: String,
    pub task_count: u64,
    pub concurrency: u64,
    pub max_redirects: u32,
    pub verify_tls: bool,
}

/// How far the run has come.
#[derive(Debug)]
pub struct SummaryEvent {
    pub task_key: String,
    pub completed: u32,
    pub failed: u32,
    pub skipped: u32,
    pub total: u64,
    pub bytes: i64,
    pub average_speed: String,
    pub elapsed_seconds: Binary64,
    pub speed: String,
    pub eta_seconds: Option<Binary64>,
}

/// How far the run has come with the file of a task, which is in its place.
#[derive(Debug)]
pub struct ProgressEvent {
    pub task_key: String,
    pub label: Option<String>,
    pub display_label: Option<String>,
    pub pct: u32,
    pub segments: String,
    pub size: String,
    pub final_size: String,
    pub speed: String,
    pub path: String,
    pub url: String,
    pub bytes: u64,
    pub skipped: bool,
    pub elapsed_seconds: Binary64,
    pub eta_seconds: Option<Binary64>,
}

/// An attempt failed and another follows.
#[derive(Debug)]
pub struct RetryEvent {
    pub task_key: Option<String>,
    pub label: Option<String>,
    pub display_label: Option<String>,
    pub path: String,
    pub url: String,
    pub attempt: u32,
    pub retry_count: u32,
    pub retry_delay_seconds: Binary64,
    pub message: String,
    pub elapsed_seconds: Binary64,
}

/// All tasks of the plan have finished.
#[derive(Debug)]
pub struct CompletedEvent {
    pub task_key: String,
    pub label: Option<String>,
    pub display_label: Option<String>,
    pub completed: u32,
    pub failed: u32,
    pub skipped: u32,
    pub total: u64,
    pub bytes: i64,
    pub average_speed: String,
    pub elapsed_seconds: Binary64,
}

/// A task was given up.
#[derive(Debug)]
pub struct FailedEvent {
    pub task_key: String,
    pub label: Option<String>,
    pub display_label: Option<String>,
    pub pct: u32,
    pub segments: String,
    pub path: String,
    pub url: String,
    pub message: String,
    pub elapsed_seconds: Binary64,
}

/// What the program tells its host.
#[derive(Debug)]
pub enum Event {
    /// The program's version.
    Version(String),
    Start(StartEvent),
    Summary(SummaryEvent),
    /// A summary that tells of a file.
    Progress(ProgressEvent),
    Retry(RetryEvent),
    Warning(Warning),
    Completed(CompletedEvent),
    Failed(FailedEvent),
    /// The plan at a path was refused, for the reason given.
    PlanError { message: String, plan_path: String },
    /// The client could not be built, for the reason given.
    ClientError(String),
    Cancelled,
}

/// The value of an optional text.
pub open spec fn opt_field(o: Option<String>) -> FieldView {
    match o {
        Some(s) => FieldView::Text(s@),
        None => FieldView::Null,
    }
}

/// The value of an optional number.
pub open spec fn opt_number(o: Option<Binary64>) -> FieldView {
    match o {
        Some(x) => FieldView::Number(x),
        None => FieldView::Null,
    }
}

/// The value of an optional number.
fn optional_number(o: &Option<Binary64>) -> (r: Field)
    ensures
        r@ == opt_number(*o),
{
    match o {
        Some(x) => Field::Number(*x),
        None => Field::Null,
    }
}

/// The value of an optional text.
fn optional(o: &Option<String>) -> (r: Field)
    ensures
        r@ == opt_field(*o),
{
    match o {
        Some(s) => Field::Text(s.clone()),
        None => Field::Null,
    }
}

/// The value of a text.
fn text(s: &str) -> (r: Field)
    ensures
        r@ == FieldView::Text(s@),
{
    Field::Text(s.to_owned())
}

impl Event {
    /// The name of the event.
    pub open spec fn kind(self) -> Seq<char> {
        match self {
            Event::Version(_) => "version"@,
            Event::Start(_) => "start"@,
            Event::Summary(_) => "summary"@,
            Event::Progress(_) => "summary"@,
            Event::Retry(_) => "retry"@,
            Event::Warning(_) => "warning"@,
            Event::Completed(_) => "completed"@,
            Event::Failed(_) => "error"@,
            Event::PlanError { .. } => "error"@,
            Event::ClientError(_) => "error"@,
            Event::Cancelled => "cancelled"@,
        }
    }

    /// The members of the event's JSON object behind its name.
    pub open spec fn body(self) -> Seq<(Seq<char>, FieldView)> {
        match self {
            Event::Version(version) => seq![
                ("name"@, FieldView::Text("Velora"@)),
                ("version"@, FieldView::Text(version@)),
            ],
            Event::Start(e) => seq![
                ("project"@, FieldView::Text(e.project@)),
                ("task_key"@, FieldView::Text(e.task_key@)),
                ("label"@, opt_field(e.label)),
                ("display_label"@, opt_field(e.display_label)),
                ("path"@, FieldView::Text(e.path@)),
                ("url"@, FieldView::Text(e.url@)),
                ("task_count"@, FieldView::Count(e.task_count)),
                ("concurrency"@, FieldView::Count(e.concurrency)),
                ("max_redirects"@, FieldView::Count(e.max_redirects as u64)),
                ("verify_tls"@, FieldView::Flag(e.verify_tls)),
            ],
            Event::Summary(e) => seq![
                ("task_key"@, FieldView::Text(e.task_key@)),
                ("completed"@, FieldView::Count(e.completed as u64)),
                ("failed"@, FieldView::Count(e.failed as u64)),
                ("skipped"@, FieldView::Count(e.skipped as u64)),
                ("total"@, FieldView::Count(e.total)),
                ("bytes"@, FieldView::Signed(e.bytes)),
                ("average_speed"@, FieldView::Text(e.average_speed@)),
                ("elapsed_seconds"@, FieldView::Number(e.elapsed_seconds)),
                ("speed"@, FieldView::Text(e.speed@)),
                ("eta_seconds"@, opt_number(e.eta_seconds)),
            ],
            Event::Progress(e) => seq![
                ("task_key"@, FieldView::Text(e.task_key@)),
                ("label"@, opt_field(e.label)),
                ("display_label"@, opt_field(e.display_label)),
                ("pct"@, FieldView::Count(e.pct as u64)),
                ("segments"@, FieldView::Text(e.segments@)),
                ("size"@, FieldView::Text(e.size@)),
                ("final_size"@, FieldView::Text(e.final_size@)),
                ("speed"@, FieldView::Text(e.speed@)),
                ("path"@, FieldView::Text(e.path@)),
                ("url"@, FieldView::Text(e.url@)),
                ("bytes"@, FieldView::Count(e.bytes)),
                ("skipped"@, FieldView::Flag(e.skipped)),
                ("elapsed_seconds"@, FieldView::Number(e.elapsed_seconds)),
                ("eta_seconds"@, opt_number(e.eta_seconds)),
            ],
            Event::Retry(e) => seq![
                ("task_key"@, opt_field(e.task_key)),
                ("label"@, opt_field(e.label)),
                ("display_label"@, opt_field(e.display_label)),
                ("path"@, FieldView::Text(e.path@)),
                ("url"@, FieldView::Text(e.url@)),
                ("attempt"@, FieldView::Count(e.attempt as u64)),
                ("retry_count"@, FieldView::Count(e.retry_count as u64)),
                ("retry_delay_seconds"@, FieldView::Number(e.retry_delay_seconds)),
                ("message"@, FieldView::Text(e.message@)),
                ("elapsed_seconds"@, FieldView::Number(e.elapsed_seconds)),
            ],
            Event::Warning(w) => seq![
                ("scope"@, FieldView::Text(w.scope@)),
                ("key"@, FieldView::Text(w.key@)),
                ("value"@, FieldView::Text(w.value@)),
                ("message"@, FieldView::Text(w.message@)),
            ],
            Event::Completed(e) => seq![
                ("task_key"@, FieldView::Text(e.task_key@)),
                ("label"@, opt_field(e.label)),
                ("display_label"@, opt_field(e.display_label)),
                ("completed"@, FieldView::Count(e.completed as u64)),
                ("failed"@, FieldView::Count(e.failed as u64)),
                ("skipped"@, FieldView::Count(e.skipped as u64)),
                ("total"@, FieldView::Count(e.total)),
                ("bytes"@, FieldView::Signed(e.bytes)),
                ("average_speed"@, FieldView::Text(e.average_speed@)),
                ("elapsed_seconds"@, FieldView::Number(e.elapsed_seconds)),
            ],
            Event::Failed(e) => seq![
                ("task_key"@, FieldView::Text(e.task_key@)),
                ("label"@, opt_field(e.label)),
                ("display_label"@, opt_field(e.display_label)),
                ("pct"@, FieldView::Count(e.pct as u64)),
                ("segments"@, FieldView::Text(e.segments@)),
                ("path"@, FieldView::Text(e.path@)),
                ("url"@, FieldView::Text(e.url@)),
                ("message"@, FieldView::Text(e.message@)),
                ("elapsed_seconds"@, FieldView::Number(e.elapsed_seconds)),
            ],
            Event::PlanError { message, plan_path } => seq![
                ("message"@, FieldView::Text(message@)),
                ("plan_path"@, FieldView::Text(plan_path@)),
            ],
            Event::ClientError(reason) => seq![
                ("message"@, FieldView::Text("Failed to build HTTP client: "@ + reason@)),
            ],
            Event::Cancelled => seq![("message"@, FieldView::Text("Cancellation requested"@))],
        }
    }

    /// The members of the event's JSON object.
    pub fn members(&self) -> (r: Vec<Member>)
        ensures
            members_view(r@) == seq![("event"@, FieldView::Text(self.kind()))] + self.body(),
    {
        let mut out: Vec<Member> = Vec::new();
        match self {
            Event::Version(version) => {
                out.push(Member { key: "event", value: text("version") });
                out.push(Member { key: "name", value: text("Velora") });
                out.push(Member { key: "version", value: text(version.as_str()) });
            },
            Event::Start(e) => {
                out.push(Member { key: "event", value: text("start") });
                out.push(Member { key: "project", value: text(e.project.as_str()) });
                out.push(Member { key: "task_key", value: text(e.task_key.as_str()) });
                out.push(Member { key: "label", value: optional(&e.label) });
                out.push(Member { key: "display_label", value: optional(&e.display_label) });
                out.push(Member { key: "path", value: text(e.path.as_str()) });
                out.push(Member { key: "url", value: text(e.url.as_str()) });
                out.push(Member { key: "task_count", value: Field::Count(e.task_count) });
                out.push(Member { key: "concurrency", value: Field::Count(e.concurrency) });
                out.push(Member { key: "max_redirects", value: Field::Count(e.max_redirects as u64) });
                out.push(Member { key: "verify_tls", value: Field::Flag(e.verify_tls) });
            },
            Event::Summary(e) => {
                out.push(Member { key: "event", value: text("summary") });
                out.push(Member { key: "task_key", value: text(e.task_key.as_str()) });
                out.push(Member { key: "completed", value: Field::Count(e.completed as u64) });
                out.push(Member { key: "failed", value: Field::Count(e.failed as u64) });
                out.push(Member { key: "skipped", value: Field::Count(e.skipped as u64) });
                out.push(Member { key: "total", value: Field::Count(e.total) });
                out.push(Member { key: "bytes", value: Field::Signed(e.bytes) });
                out.push(Member { key: "average_speed", value: text(e.average_speed.as_str()) });
                out.push(Member { key: "elapsed_seconds", value: Field::Number(e.elapsed_seconds) });
                out.push(Member { key: "speed", value: text(e.speed.as_str()) });
                out.push(Member { key: "eta_seconds", value: optional_number(&e.eta_seconds) });
            },
            Event::Progress(e) => {
                out.push(Member { key: "event", value: text("summary") });
                out.push(Member { key: "task_key", value: text(e.task_key.as_str()) });
                out.push(Member { key: "label", value: optional(&e.label) });
                out.push(Member { key: "display_label", value: optional(&e.display_label) });
                out.push(Member { key: "pct", value: Field::Count(e.pct as u64) });
                out.push(Member { key: "segments", value: text(e.segments.as_str()) });
                out.push(Member { key: "size", value: text(e.size.as_str()) });
                out.push(Member { key: "final_size", value: text(e.final_size.as_str()) });
                out.push(Member { key: "speed", value: text(e.speed.as_str()) });
                out.push(Member { key: "path", value: text(e.path.as_str()) });
                out.push(Member { key: "url", value: text(e.url.as_str()) });
                out.push(Member { key: "bytes", value: Field::Count(e.bytes) });
                out.push(Member { key: "skipped", value: Field::Flag(e.skipped) });
                out.push(Member { key: "elapsed_seconds", value: Field::Number(e.elapsed_seconds) });
                out.push(Member { key: "eta_seconds", value: optional_number(&e.eta_seconds) });
            },
            Event::Retry(e) => {
                out.push(Member { key: "event", value: text("retry") });
                out.push(Member { key: "task_key", value: optional(&e.task_key) });
                out.push(Member { key: "label", value: optional(&e.label) });
                out.push(Member { key: "display_label", value: optional(&e.display_label) });
                out.push(Member { key: "path", value: text(e.path.as_str()) });
                out.push(Member { key: "url", value: text(e.url.as_str()) });
                out.push(Member { key: "attempt", value: Field::Count(e.attempt as u64) });
                out.push(Member { key: "retry_count", value: Field::Count(e.retry_count as u64) });
                out.push(
                    Member {
                        key: "retry_delay_seconds",
                        value: Field::Number(e.retry_delay_seconds),
                    },
                );
                out.push(Member { key: "message", value: text(e.message.as_str()) });
                out.push(Member { key: "elapsed_seconds", value: Field::Number(e.elapsed_seconds) });
            },
            Event::Warning(w) => {
                out.push(Member { key: "event", value: text("warning") });
                out.push(Member { key: "scope", value: text(w.scope.as_str()) });
                out.push(Member { key: "key", value: text(w.key.as_str()) });
                out.push(Member { key: "value", value: text(w.value.as_str()) });
                out.push(Member { key: "message", value: text(w.message.as_str()) });
            },
            Event::Completed(e) => {
                out.push(Member { key: "event", value: text("completed") });
                out.push(Member { key: "task_key", value: text(e.task_key.as_str()) });
                out.push(Member { key: "label", value: optional(&e.label) });
                out.push(Member { key: "display_label", value: optional(&e.display_label) });
                out.push(Member { key: "completed", value: Field::Count(e.completed as u64) });
                out.push(Member { key: "failed", value: Field::Count(e.failed as u64) });
                out.push(Member { key: "skipped", value: Field::Count(e.skipped as u64) });
                out.push(Member { key: "total", value: Field::Count(e.total) });
                out.push(Member { key: "bytes", value: Field::Signed(e.bytes) });
                out.push(Member { key: "average_speed", value: text(e.average_speed.as_str()) });
                out.push(Member { key: "elapsed_seconds", value: Field::Number(e.elapsed_seconds) });
            },
            Event::Failed(e) => {
                out.push(Member { key: "event", value: text("error") });
                out.push(Member { key: "task_key", value: text(e.task_key.as_str()) });
                out.push(Member { key: "label", value: optional(&e.label) });
                out.push(Member { key: "display_label", value: optional(&e.display_label) });
                out.push(Member { key: "pct", value: Field::Count(e.pct as u64) });
                out.push(Member { key: "segments", value: text(e.segments.as_str()) });
                out.push(Member { key: "path", value: text(e.path.as_str()) });
                out.push(Member { key: "url", value: text(e.url.as_str()) });
                out.push(Member { key: "message", value: text(e.message.as_str()) });
                out.push(Member { key: "elapsed_seconds", value: Field::Number(e.elapsed_seconds) });
            },
            Event::PlanError { message, plan_path } => {
                out.push(Member { key: "event", value: text("error") });
                out.push(Member { key: "message", value: text(message.as_str()) });
                out.push(Member { key: "plan_path", value: text(plan_path.as_str()) });
            },
            Event::ClientError(reason) => {
                let mut message: String = "Failed to build HTTP client: ".to_owned();
                message.append(reason.as_str());
                out.push(Member { key: "event", value: text("error") });
                out.push(Member { key: "message", value: Field::Text(message) });
            },
            Event::Cancelled => {
                out.push(Member { key: "event", value: text("cancelled") });
                out.push(Member { key: "message", value: text("Cancellation requested") });
            },
        }
        assert(members_view(out@) =~= seq![("event"@, FieldView::Text(self.kind()))] + self.body());
        out
    }
}

/// The length and the first letter of each member's name, which tell the names of one event apart.
proof fn lemma_names()
    ensures
        mark("attempt"@) == (7nat, 'a'),
        mark("average_speed"@) == (13nat, 'a'),
        mark("bytes"@) == (5nat, 'b'),
        mark("completed"@) == (9nat, 'c'),
        mark("concurrency"@) == (11nat, 'c'),
        mark("display_label"@) == (13nat, 'd'),
        mark("elapsed_seconds"@) == (15nat, 'e'),
        mark("eta_seconds"@) == (11nat, 'e'),
        mark("event"@) == (5nat, 'e'),
        mark("failed"@) == (6nat, 'f'),
        mark("final_size"@) == (10nat, 'f'),
        mark("key"@) == (3nat, 'k'),
        mark("label"@) == (5nat, 'l'),
        mark("max_redirects"@) == (13nat, 'm'),
        mark("message"@) == (7nat, 'm'),
        mark("name"@) == (4nat, 'n'),
        mark("path"@) == (4nat, 'p'),
        mark("pct"@) == (3nat, 'p'),
        mark("plan_path"@) == (9nat, 'p'),
        mark("project"@) == (7nat, 'p'),
        mark("retry_count"@) == (11nat, 'r'),
        mark("retry_delay_seconds"@) == (19nat, 'r'),
        mark("scope"@) == (5nat, 's'),
        mark("segments"@) == (8nat, 's'),
        mark("size"@) == (4nat, 's'),
        mark("skipped"@) == (7nat, 's'),
        mark("speed"@) == (5nat, 's'),
        mark("task_count"@) == (10nat, 't'),
        mark("task_key"@) == (8nat, 't'),
        mark("total"@) == (5nat, 't'),
        mark("url"@) == (3nat, 'u'),
        mark("value"@) == (5nat, 'v'),
        mark("verify_tls"@) == (10nat, 'v'),
        mark("version"@) == (7nat, 'v'),
{
    reveal_strlit("attempt");
    reveal_strlit("average_speed");
    reveal_strlit("bytes");
    reveal_strlit("completed");
    reveal_strlit("concurrency");
    reveal_strlit("display_label");
    reveal_strlit("elapsed_seconds");
    reveal_strlit("eta_seconds");
    reveal_strlit("event");
    reveal_strlit("failed");
    reveal_strlit("final_size");
    reveal_strlit("key");
    reveal_strlit("label");
    reveal_strlit("max_redirects");
    reveal_strlit("message");
    reveal_strlit("name");
    reveal_strlit("path");
    reveal_strlit("pct");
    reveal_strlit("plan_path");
    reveal_strlit("project");
    reveal_strlit("retry_count");
    reveal_strlit("retry_delay_seconds");
    reveal_strlit("scope");
    reveal_strlit("segments");
    reveal_strlit("size");
    reveal_strlit("skipped");
    reveal_strlit("speed");
    reveal_strlit("task_count");
    reveal_strlit("task_key");
    reveal_strlit("total");
    reveal_strlit("url");
    reveal_strlit("value");
    reveal_strlit("verify_tls");
    reveal_strlit("version");
}

/// A name's length and first letter.
spec fn mark(name: Seq<char>) -> (nat, char) {
    (name.len(), name[0])
}

/// No two members of an event have the same name, so its JSON object holds them all.
pub proof fn members_have_distinct_names(event: Event)
    ensures
        ({
            let all = seq![("event"@, FieldView::Text(event.kind()))] + event.body();
            forall|i: int, j: int| 0 <= i < j < all.len() ==> (#[trigger] all[i]).0 != (
            #[trigger] all[j]).0
        }),
{
    let all = seq![("event"@, FieldView::Text(event.kind()))] + event.body();
    lemma_names();
    assert forall|i: int, j: int| 0 <= i < j < all.len() implies (#[trigger] all[i]).0 != (
    #[trigger] all[j]).0 by {
        assert(mark(all[i].0) != mark(all[j].0));
    }
}

/// An event has the name of what it tells: an error exactly where a task, the plan or the client failed,
/// a summary where it tells how far the run has come, and else one that no other event has.
pub proof fn events_are_named_by_what_they_tell(event: Event)
    ensures
        event.kind() == "error"@ <==> event is Failed || event is PlanError || event is ClientError,
        event.kind() == "summary"@ <==> event is Summary || event is Progress,
        event.kind() == "version"@ <==> event is Version,
        event.kind() == "start"@ <==> event is Start,
        event.kind() == "retry"@ <==> event is Retry,
        event.kind() == "warning"@ <==> event is Warning,
        event.kind() == "completed"@ <==> event is Completed,
        event.kind() == "cancelled"@ <==> event is Cancelled,
{
    reveal_strlit("error");
    reveal_strlit("summary");
    reveal_strlit("version");
    reveal_strlit("start");
    reveal_strlit("retry");
    reveal_strlit("warning");
    reveal_strlit("completed");
    reveal_strlit("cancelled");
    assert("error"@.len() == 5 && "error"@[0] == 'e');
    assert("summary"@.len() == 7 && "summary"@[0] == 's');
    assert("version"@.len() == 7 && "version"@[0] == 'v');
    assert("start"@.len() == 5 && "start"@[0] == 's');
    assert("retry"@.len() == 5 && "retry"@[0] == 'r');
    assert("warning"@.len() == 7 && "warning"@[0] == 'w');
    assert("completed"@.len() == 9 && "completed"@[1] == 'o');
    assert("cancelled"@.len() == 9 && "cancelled"@[1] == 'a');
}

} // verus!
