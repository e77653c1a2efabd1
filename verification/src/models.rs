//! Download plans and their tasks: what they hold, how gaps are filled, and when they are refused.

use vstd::prelude::*;

use crate::binary64::{Binary64, INFINITY, SIGN};
use crate::client::HttpVersion;
use crate::text::{a_numeral_reads_as_its_number, append_decimal, blank, decimal, is_blank, reading,
    white_space};

verus! {

/// What an optional text holds.
pub open spec fn text_of(o: Option<String>) -> Option<Seq<char>> {
    match o {
        Some(s) => Some(s@),
        None => None,
    }
}

/// A copy of an optional text.
pub fn copy_text(o: &Option<String>) -> (r: Option<String>)
    ensures
        text_of(r) == text_of(*o),
{
    match o {
        Some(s) => Some(s.clone()),
        None => None,
    }
}

/// One header as a plan writes it.
#[derive(Debug)]
pub struct HeaderEntry {
    pub name: String,
    pub value: String,
}

/// Headers as a plan writes them: no name occurs twice, and each stays where it first came.
#[derive(Debug)]
pub struct HeaderTable {
    entries: Vec<HeaderEntry>,
}

impl View for HeaderTable {
    type V = Seq<(Seq<char>, Seq<char>)>;

    closed spec fn view(&self) -> Seq<(Seq<char>, Seq<char>)> {
        self.entries@.map_values(|e: HeaderEntry| (e.name@, e.value@))
    }
}

impl Clone for HeaderTable {
    fn clone(&self) -> (r: Self)
        ensures
            r@ == self@,
    {
        proof {
            use_type_invariant(self);
        }
        let mut entries: Vec<HeaderEntry> = Vec::new();
        let mut i: usize = 0;
        while i < self.entries.len()
            invariant
                i <= self.entries.len(),
                entries.len() == i,
                forall|j: int|
                    0 <= j < i ==> (#[trigger] entries@[j]).name@ == self.entries@[j].name@
                        && entries@[j].value@ == self.entries@[j].value@,
            decreases self.entries.len() - i,
        {
            let entry: &HeaderEntry = &self.entries[i];
            entries.push(HeaderEntry { name: entry.name.clone(), value: entry.value.clone() });
            i = i + 1;
        }
        let r: HeaderTable = HeaderTable { entries };
        assert(r@ =~= self@);
        r
    }
}

impl HeaderTable {
    #[verifier::type_invariant]
    spec fn distinct_entries(self) -> bool {
        forall|i: int, j: int|
            0 <= i < j < self.entries.len() ==> (#[trigger] self.entries@[i]).name@ != (
            #[trigger] self.entries@[j]).name@
    }

    /// No name occurs twice.
    pub open spec fn distinct(self) -> bool {
        forall|i: int, j: int|
            0 <= i < j < self@.len() ==> (#[trigger] self@[i]).0 != (#[trigger] self@[j]).0
    }

    /// A table without headers.
    pub fn new() -> (r: Self)
        ensures
            r@.len() == 0,
            r.distinct(),
    {
        let entries: Vec<HeaderEntry> = Vec::new();
        HeaderTable { entries }
    }

    /// The number of headers.
    pub fn len(&self) -> (r: usize)
        ensures
            r == self@.len(),
            self.distinct(),
    {
        proof {
            use_type_invariant(self);
        }
        self.entries.len()
    }

    /// The header at a position.
    pub fn entry(&self, i: usize) -> (r: &HeaderEntry)
        requires
            i < self@.len(),
        ensures
            (r.name@, r.value@) == self@[i as int],
    {
        &self.entries[i]
    }

    /// Sets the value of a name, in the place of the one it had, if any.
    pub fn insert(&mut self, name: String, value: String)
        ensures
            final(self).distinct(),
            (forall|i: int| 0 <= i < old(self)@.len() ==> (#[trigger] old(self)@[i]).0 != name@)
                ==> final(self)@ == old(self)@.push((name@, value@)),
            forall|i: int|
                0 <= i < old(self)@.len() && (#[trigger] old(self)@[i]).0 == name@ ==> final(self)@
                    == old(self)@.update(i, (name@, value@)),
    {
        proof {
            use_type_invariant(&*self);
        }
        let mut entries: Vec<HeaderEntry> = Vec::new();
        std::mem::swap(&mut entries, &mut self.entries);
        let ghost before = entries@;
        let mut at: usize = 0;
        while at < entries.len() && !(entries[at].name == name)
            invariant
                at <= entries.len(),
                entries@ == before,
                forall|i: int| 0 <= i < at ==> (#[trigger] before[i]).name@ != name@,
            decreases entries.len() - at,
        {
            at = at + 1;
        }
        if at < entries.len() {
            entries.set(at, HeaderEntry { name, value });
        } else {
            entries.push(HeaderEntry { name, value });
        }
        let ghost after = entries@;
        assert(forall|i: int, j: int|
            0 <= i < j < after.len() ==> (#[trigger] after[i]).name@ != (#[trigger] after[j]).name@);
        self.entries = entries;
        proof {
            let text = |e: HeaderEntry| (e.name@, e.value@);
            assert(forall|i: int| 0 <= i < before.len() ==> before.map_values(text)[i].0 == (
            #[trigger] before[i]).name@);
            if at < before.len() {
                assert(self@ =~= before.map_values(text).update(at as int, (name@, value@)));
                assert(before.map_values(text)[at as int].0 == name@);
                assert forall|i: int|
                    0 <= i < before.len() && (#[trigger] before.map_values(text)[i]).0
                        == name@ implies i == at by {
                    assert(before[i].name@ == name@);
                    assert(before[at as int].name@ == name@);
                }
            } else {
                assert(self@ =~= before.map_values(text).push((name@, value@)));
            }
        }
    }
}

/// One file to fetch.
#[derive(Debug)]
pub struct DownloadTask {
    pub task_key: Option<String>,
    pub label: Option<String>,
    pub display_label: Option<String>,
    pub url: String,
    pub path: String,
    pub headers: HeaderTable,
}

/// What a task says.
#[verifier::ext_equal]
pub struct TaskView {
    pub task_key: Option<Seq<char>>,
    pub label: Option<Seq<char>>,
    pub display_label: Option<Seq<char>>,
    pub url: Seq<char>,
    pub path: Seq<char>,
    pub headers: Seq<(Seq<char>, Seq<char>)>,
}

/// The given text, or another where there is none.
pub open spec fn or_text(o: Option<Seq<char>>, other: Seq<char>) -> Option<Seq<char>> {
    match o {
        Some(s) => Some(s),
        None => Some(other),
    }
}

impl TaskView {
    /// The task with its gaps filled from the plan.
    pub open spec fn inheriting(
        self,
        task_key: Seq<char>,
        label: Seq<char>,
        display_label: Seq<char>,
    ) -> TaskView {
        TaskView {
            task_key: or_text(self.task_key, task_key),
            label: or_text(self.label, label),
            display_label: or_text(self.display_label, display_label),
            ..self
        }
    }
}

impl View for DownloadTask {
    type V = TaskView;

    open spec fn view(&self) -> TaskView {
        TaskView {
            task_key: text_of(self.task_key),
            label: text_of(self.label),
            display_label: text_of(self.display_label),
            url: self.url@,
            path: self.path@,
            headers: self.headers@,
        }
    }
}

impl Clone for DownloadTask {
    fn clone(&self) -> (r: Self)
        ensures
            r@ == self@,
    {
        DownloadTask {
            task_key: copy_text(&self.task_key),
            label: copy_text(&self.label),
            display_label: copy_text(&self.display_label),
            url: self.url.clone(),
            path: self.path.clone(),
            headers: self.headers.clone(),
        }
    }
}

/// Fills an optional text that is missing.
fn fill_text(o: &mut Option<String>, other: &str)
    ensures
        text_of(*final(o)) == or_text(text_of(*old(o)), other@),
{
    if o.is_none() {
        *o = Some(other.to_owned());
    }
}

impl DownloadTask {
    /// Fills the task's gaps from the plan.
    pub fn inherit(&mut self, task_key: &str, label: &str, display_label: &str)
        ensures
            final(self)@ == old(self)@.inheriting(task_key@, label@, display_label@),
    {
        fill_text(&mut self.task_key, task_key);
        fill_text(&mut self.label, label);
        fill_text(&mut self.display_label, display_label);
    }
}

/// What to download, and how.
#[derive(Debug)]
pub struct DownloadPlan {
    pub project: String,
    pub version: u32,
    pub task_key: String,
    pub label: Option<String>,
    pub display_label: Option<String>,
    pub output_dir: Option<String>,
    pub concurrency: usize,
    pub retry_count: u32,
    pub timeout_seconds: u64,
    pub max_redirects: u32,
    pub retry_base_delay_seconds: Binary64,
    pub retry_max_delay_seconds: Binary64,
    pub retry_jitter_seconds: Binary64,
    pub segment_delay_seconds: Binary64,
    pub segment_delay_jitter_seconds: Binary64,
    pub proxy_url: Option<String>,
    pub verify_tls: bool,
    pub headers: HeaderTable,
    pub user_agent: Option<String>,
    pub max_speed_bytes: Option<u64>,
    pub http_version: HttpVersion,
    pub tasks: Vec<DownloadTask>,
}

/// What a plan says.
#[verifier::ext_equal]
pub struct PlanView {
    pub project: Seq<char>,
    pub version: u32,
    pub task_key: Seq<char>,
    pub label: Option<Seq<char>>,
    pub display_label: Option<Seq<char>>,
    pub output_dir: Option<Seq<char>>,
    pub concurrency: usize,
    pub retry_count: u32,
    pub timeout_seconds: u64,
    pub max_redirects: u32,
    pub retry_base_delay_seconds: Binary64,
    pub retry_max_delay_seconds: Binary64,
    pub retry_jitter_seconds: Binary64,
    pub segment_delay_seconds: Binary64,
    pub segment_delay_jitter_seconds: Binary64,
    pub proxy_url: Option<Seq<char>>,
    pub verify_tls: bool,
    pub headers: Seq<(Seq<char>, Seq<char>)>,
    pub user_agent: Option<Seq<char>>,
    pub max_speed_bytes: Option<u64>,
    pub http_version: HttpVersion,
    pub tasks: Seq<TaskView>,
}

impl View for DownloadPlan {
    type V = PlanView;

    open spec fn view(&self) -> PlanView {
        PlanView {
            project: self.project@,
            version: self.version,
            task_key: self.task_key@,
            label: text_of(self.label),
            display_label: text_of(self.display_label),
            output_dir: text_of(self.output_dir),
            concurrency: self.concurrency,
            retry_count: self.retry_count,
            timeout_seconds: self.timeout_seconds,
            max_redirects: self.max_redirects,
            retry_base_delay_seconds: self.retry_base_delay_seconds,
            retry_max_delay_seconds: self.retry_max_delay_seconds,
            retry_jitter_seconds: self.retry_jitter_seconds,
            segment_delay_seconds: self.segment_delay_seconds,
            segment_delay_jitter_seconds: self.segment_delay_jitter_seconds,
            proxy_url: text_of(self.proxy_url),
            verify_tls: self.verify_tls,
            headers: self.headers@,
            user_agent: text_of(self.user_agent),
            max_speed_bytes: self.max_speed_bytes,
            http_version: self.http_version,
            tasks: self.tasks@.map_values(|t: DownloadTask| t@),
        }
    }
}

impl Clone for DownloadPlan {
    fn clone(&self) -> (r: Self)
        ensures
            r@ == self@,
    {
        let mut tasks: Vec<DownloadTask> = Vec::new();
        let mut i: usize = 0;
        while i < self.tasks.len()
            invariant
                i <= self.tasks.len(),
                tasks.len() == i,
                forall|j: int| 0 <= j < i ==> (#[trigger] tasks@[j])@ == self.tasks@[j]@,
            decreases self.tasks.len() - i,
        {
            let task: DownloadTask = self.tasks[i].clone();
            tasks.push(task);
            i = i + 1;
        }
        let r: DownloadPlan = DownloadPlan {
            project: self.project.clone(),
            version: self.version,
            task_key: self.task_key.clone(),
            label: copy_text(&self.label),
            display_label: copy_text(&self.display_label),
            output_dir: copy_text(&self.output_dir),
            concurrency: self.concurrency,
            retry_count: self.retry_count,
            timeout_seconds: self.timeout_seconds,
            max_redirects: self.max_redirects,
            retry_base_delay_seconds: self.retry_base_delay_seconds,
            retry_max_delay_seconds: self.retry_max_delay_seconds,
            retry_jitter_seconds: self.retry_jitter_seconds,
            segment_delay_seconds: self.segment_delay_seconds,
            segment_delay_jitter_seconds: self.segment_delay_jitter_seconds,
            proxy_url: copy_text(&self.proxy_url),
            verify_tls: self.verify_tls,
            headers: self.headers.clone(),
            user_agent: copy_text(&self.user_agent),
            max_speed_bytes: self.max_speed_bytes,
            http_version: self.http_version,
            tasks,
        };
        assert(r@.tasks =~= self@.tasks);
        r
    }
}

/// Zero seconds.
pub open spec fn no_delay() -> Binary64 {
    Binary64 { bits: 0 }
}

impl PlanView {
    /// The project's name: the one given, or where that is blank the label, or where that is blank
    /// too the program's own.
    pub open spec fn named_project(self) -> Seq<char> {
        if !blank(self.project) {
            self.project
        } else {
            match self.label {
                Some(label) => if blank(label) {
                    "Velora"@
                } else {
                    label
                },
                None => "Velora"@,
            }
        }
    }

    /// The task key, or "download" where it is empty.
    pub open spec fn named_task_key(self) -> Seq<char> {
        if self.task_key.len() == 0 {
            "download"@
        } else {
            self.task_key
        }
    }

    /// The label, or the project's name where there is none.
    pub open spec fn named_label(self) -> Seq<char> {
        match self.label {
            Some(label) => label,
            None => self.named_project(),
        }
    }

    /// The label to show, or the label where there is none.
    pub open spec fn named_display_label(self) -> Seq<char> {
        match self.display_label {
            Some(label) => label,
            None => self.named_label(),
        }
    }

    /// The plan with its gaps filled and its numbers in range.
    pub open spec fn normalised(self) -> PlanView {
        let base = self.retry_base_delay_seconds.spec_at_least(no_delay());
        PlanView {
            project: self.named_project(),
            task_key: self.named_task_key(),
            label: Some(self.named_label()),
            display_label: Some(self.named_display_label()),
            concurrency: if self.concurrency == 0 {
                1
            } else {
                self.concurrency
            },
            retry_count: if self.retry_count == 0 {
                1
            } else {
                self.retry_count
            },
            timeout_seconds: if self.timeout_seconds == 0 {
                1
            } else {
                self.timeout_seconds
            },
            max_redirects: if self.max_redirects == 0 {
                1
            } else {
                self.max_redirects
            },
            retry_base_delay_seconds: base,
            retry_max_delay_seconds: self.retry_max_delay_seconds.spec_at_least(base),
            retry_jitter_seconds: self.retry_jitter_seconds.spec_at_least(no_delay()),
            tasks: self.tasks.map_values(
                |t: TaskView|
                    t.inheriting(
                        self.named_task_key(),
                        self.named_label(),
                        self.named_display_label(),
                    ),
            ),
            ..self
        }
    }

    /// Whether the plan is fit to run: nothing is missing that events name, every count is at
    /// least one, and the delays are non-negative numbers with the first one below the cap.
    pub open spec fn ready(self) -> bool {
        &&& !blank(self.project)
        &&& self.task_key.len() > 0
        &&& self.label is Some
        &&& self.display_label is Some
        &&& self.concurrency >= 1
        &&& self.retry_count >= 1
        &&& self.timeout_seconds >= 1
        &&& self.max_redirects >= 1
        &&& self.retry_base_delay_seconds.bits <= self.retry_max_delay_seconds.bits <= INFINITY
        &&& self.retry_jitter_seconds.bits <= INFINITY
        &&& forall|i: int|
            0 <= i < self.tasks.len() ==> {
                &&& (#[trigger] self.tasks[i]).task_key is Some
                &&& self.tasks[i].label is Some
                &&& self.tasks[i].display_label is Some
            }
    }
}

impl PlanView {
    /// Whether the retry delays are finite numbers, as those of a plan in JSON are.
    pub open spec fn finite_delays(self) -> bool {
        &&& self.retry_base_delay_seconds.bits % SIGN < INFINITY
        &&& self.retry_max_delay_seconds.bits % SIGN < INFINITY
        &&& self.retry_jitter_seconds.bits % SIGN < INFINITY
    }

    /// Whether retry delays can be computed: they are finite and not negative, and the first one is
    /// not above the cap.
    pub open spec fn usable_delays(self) -> bool {
        &&& self.retry_base_delay_seconds.bits <= self.retry_max_delay_seconds.bits
        &&& self.retry_max_delay_seconds.bits < INFINITY
        &&& self.retry_jitter_seconds.bits < INFINITY
    }
}

/// The retry delays of a plan whose gaps are filled can be computed with, if they were finite before.
pub proof fn normalised_delays_are_usable(plan: PlanView)
    requires
        plan.finite_delays(),
    ensures
        plan.normalised().usable_delays(),
{
}

/// A plan whose gaps are filled is fit to run.
pub proof fn normalised_is_ready(plan: PlanView)
    ensures
        plan.normalised().ready(),
{
    reveal_strlit("Velora");
    reveal_strlit("download");
    assert(!blank("Velora"@)) by {
        assert("Velora"@[0] == 'V');
    }
}

/// Filling the gaps of a plan a second time changes nothing.
pub proof fn normalised_is_stable(plan: PlanView)
    ensures
        plan.normalised().normalised() == plan.normalised(),
{
    normalised_is_ready(plan);
    let once = plan.normalised();
    assert(once.normalised().tasks =~= once.tasks) by {
        assert forall|i: int| 0 <= i < once.tasks.len() implies once.normalised().tasks[i]
            == once.tasks[i] by {
            assert(once.tasks[i].task_key is Some);
        }
    }
}

/// What a plan gives, it keeps when its gaps are filled: the texts and numbers that are in range,
/// and everything about each task but its key and labels.
pub proof fn normalised_keeps_what_is_given(plan: PlanView)
    ensures
        !blank(plan.project) ==> plan.normalised().project == plan.project,
        plan.task_key.len() > 0 ==> plan.normalised().task_key == plan.task_key,
        plan.label is Some ==> plan.normalised().label == plan.label,
        plan.display_label is Some ==> plan.normalised().display_label == plan.display_label,
        plan.normalised().tasks.len() == plan.tasks.len(),
        forall|i: int|
            0 <= i < plan.tasks.len() ==> {
                let t = plan.tasks[i];
                let r = #[trigger] plan.normalised().tasks[i];
                &&& r.url == t.url
                &&& r.path == t.path
                &&& r.headers == t.headers
                &&& t.task_key is Some ==> r.task_key == t.task_key
                &&& t.task_key is None ==> r.task_key == Some(plan.normalised().task_key)
                &&& t.label is Some ==> r.label == t.label
                &&& t.label is None ==> r.label == plan.normalised().label
                &&& t.display_label is Some ==> r.display_label == t.display_label
                &&& t.display_label is None ==> r.display_label == plan.normalised().display_label
            },
{
}

impl DownloadPlan {
    /// Fills the plan's gaps and brings its numbers into range.
    pub fn normalise(&mut self)
        ensures
            final(self)@ == old(self)@.normalised(),
            final(self)@.ready(),
    {
        if is_blank(self.project.as_str()) {
            let from_label: Option<String> = match &self.label {
                Some(label) => if is_blank(label.as_str()) {
                    None
                } else {
                    Some(label.clone())
                },
                None => None,
            };
            self.project = match from_label {
                Some(label) => label,
                None => default_project(),
            };
        }
        if self.task_key.as_str().is_empty() {
            self.task_key = default_task_key();
        }
        let task_key: String = self.task_key.clone();
        fill_text(&mut self.label, self.project.as_str());
        let label: String = match &self.label {
            Some(label) => label.clone(),
            None => self.project.clone(),
        };
        fill_text(&mut self.display_label, label.as_str());
        let display_label: String = match &self.display_label {
            Some(label) => label.clone(),
            None => label.clone(),
        };
        if self.concurrency == 0 {
            self.concurrency = 1;
        }
        if self.retry_count == 0 {
            self.retry_count = 1;
        }
        if self.timeout_seconds == 0 {
            self.timeout_seconds = 1;
        }
        if self.max_redirects == 0 {
            self.max_redirects = 1;
        }
        let zero: Binary64 = Binary64::zero();
        self.retry_base_delay_seconds = self.retry_base_delay_seconds.at_least(zero);
        self.retry_max_delay_seconds = self.retry_max_delay_seconds.at_least(
            self.retry_base_delay_seconds,
        );
        self.retry_jitter_seconds = self.retry_jitter_seconds.at_least(zero);
        let ghost before = *self;
        let mut i: usize = 0;
        while i < self.tasks.len()
            invariant
                i <= self.tasks.len(),
                *self == (DownloadPlan { tasks: self.tasks, ..before }),
                self.tasks.len() == before.tasks.len(),
                forall|j: int|
                    0 <= j < i ==> (#[trigger] self.tasks@[j])@ == before.tasks@[j]@.inheriting(
                        task_key@,
                        label@,
                        display_label@,
                    ),
                forall|j: int| i <= j < self.tasks.len() ==> (#[trigger] self.tasks@[j]) == before.tasks@[j],
            decreases self.tasks.len() - i,
        {
            self.tasks[i].inherit(task_key.as_str(), label.as_str(), display_label.as_str());
            i = i + 1;
        }
        proof {
            assert(self@ =~~= old(self)@.normalised());
            normalised_is_ready(old(self)@);
        }
    }
}

impl DownloadPlan {
    /// Tests whether retry delays can be computed.
    pub fn has_usable_delays(&self) -> (r: bool)
        ensures
            r == self@.usable_delays(),
    {
        self.retry_base_delay_seconds.bits <= self.retry_max_delay_seconds.bits
            && self.retry_max_delay_seconds.bits < INFINITY && self.retry_jitter_seconds.bits
            < INFINITY
    }
}

/// Why a plan is refused.
#[derive(Clone, Copy, Debug, PartialEq, Eq, Structural)]
pub enum PlanError {
    NoTasks,
    /// The task at this position has no address.
    EmptyUrl(usize),
    /// The task at this position has no path.
    EmptyPath(usize),
}

impl PlanError {
    /// The text that an error event shows.
    pub open spec fn text(self) -> Seq<char> {
        match self {
            PlanError::NoTasks => "Plan has no tasks"@,
            PlanError::EmptyUrl(i) => "Task #"@ + decimal(i as nat) + " has empty url"@,
            PlanError::EmptyPath(i) => "Task #"@ + decimal(i as nat) + " has empty path"@,
        }
    }

    /// The text that an error event shows.
    pub fn message(&self) -> (r: String)
        ensures
            r@ == self.text(),
    {
        match self {
            PlanError::NoTasks => "Plan has no tasks".to_owned(),
            PlanError::EmptyUrl(i) => {
                let mut out: String = "Task #".to_owned();
                append_decimal(&mut out, *i as u128);
                out.append(" has empty url");
                out
            },
            PlanError::EmptyPath(i) => {
                let mut out: String = "Task #".to_owned();
                append_decimal(&mut out, *i as u128);
                out.append(" has empty path");
                out
            },
        }
    }
}

/// Whether a task names both an address and a path.
pub open spec fn complete(t: TaskView) -> bool {
    !blank(t.url) && !blank(t.path)
}

/// Whether the task at `i` is the first one that is not complete.
pub open spec fn first_incomplete(tasks: Seq<TaskView>, i: int) -> bool {
    &&& 0 <= i < tasks.len()
    &&& !complete(tasks[i])
    &&& forall|j: int| 0 <= j < i ==> complete(#[trigger] tasks[j])
}

/// Refuses a plan without tasks, and one with a task that lacks an address or a path.
pub fn validate_plan(plan: &DownloadPlan) -> (r: Result<(), PlanError>)
    ensures
        r is Ok <==> plan@.tasks.len() > 0 && forall|i: int|
            0 <= i < plan@.tasks.len() ==> complete(#[trigger] plan@.tasks[i]),
        r == Err::<(), PlanError>(PlanError::NoTasks) <==> plan@.tasks.len() == 0,
        forall|i: usize|
            r == Err::<(), PlanError>(PlanError::EmptyUrl(i)) <==> #[trigger] first_incomplete(
                plan@.tasks,
                i as int,
            ) && blank(plan@.tasks[i as int].url),
        forall|i: usize|
            r == Err::<(), PlanError>(PlanError::EmptyPath(i)) <==> #[trigger] first_incomplete(
                plan@.tasks,
                i as int,
            ) && !blank(plan@.tasks[i as int].url),
{
    if plan.tasks.len() == 0 {
        return Err(PlanError::NoTasks);
    }
    let mut i: usize = 0;
    while i < plan.tasks.len()
        invariant
            i <= plan.tasks.len(),
            plan.tasks.len() > 0,
            forall|j: int| 0 <= j < i ==> complete(#[trigger] plan@.tasks[j]),
        decreases plan.tasks.len() - i,
    {
        let task: &DownloadTask = &plan.tasks[i];
        assert(task@ == plan@.tasks[i as int]);
        if is_blank(task.url.as_str()) {
            assert(first_incomplete(plan@.tasks, i as int));
            return Err(PlanError::EmptyUrl(i));
        }
        if is_blank(task.path.as_str()) {
            assert(first_incomplete(plan@.tasks, i as int));
            return Err(PlanError::EmptyPath(i));
        }
        i = i + 1;
    }
    Ok(())
}

/// The name of a project that gives none.
pub fn default_project() -> (r: String)
    ensures
        r@ == "Velora"@,
{
    "Velora".to_owned()
}

/// The version of a plan that gives none.
pub fn default_version() -> (r: u32)
    ensures
        r == 1,
{
    1
}

/// The task key of a plan that gives none.
pub fn default_task_key() -> (r: String)
    ensures
        r@ == "download"@,
{
    "download".to_owned()
}

/// How many downloads run at once.
pub fn default_concurrency() -> (r: usize)
    ensures
        r == 8,
{
    8
}

/// How many attempts a task gets.
pub fn default_retry_count() -> (r: u32)
    ensures
        r == 3,
{
    3
}

/// How long a request may take.
pub fn default_timeout_seconds() -> (r: u64)
    ensures
        r == 30,
{
    30
}

/// How many redirects are followed.
pub fn default_max_redirects() -> (r: u32)
    ensures
        r == 10,
{
    10
}

/// Whether certificates are checked.
pub fn default_verify_tls() -> (r: bool)
    ensures
        r,
{
    true
}

/// The first delay before another attempt: one second.
pub fn default_retry_base_delay() -> (r: Binary64)
    ensures
        r.bits == 0x3ff0_0000_0000_0000,
{
    Binary64 { bits: 0x3ff0_0000_0000_0000 }
}

/// The longest delay before another attempt: thirty seconds.
pub fn default_retry_max_delay() -> (r: Binary64)
    ensures
        r.bits == 0x403e_0000_0000_0000,
{
    Binary64 { bits: 0x403e_0000_0000_0000 }
}

/// What a plan gives and what is in range stays as it is: the counts that are at least one, the retry
/// delays that are neither negative nor out of order, and everything that has no gap to be filled.
pub proof fn normalised_keeps_what_is_in_range(plan: PlanView)
    ensures
        ({
            let after = plan.normalised();
            &&& plan.concurrency >= 1 ==> after.concurrency == plan.concurrency
            &&& plan.retry_count >= 1 ==> after.retry_count == plan.retry_count
            &&& plan.timeout_seconds >= 1 ==> after.timeout_seconds == plan.timeout_seconds
            &&& plan.max_redirects >= 1 ==> after.max_redirects == plan.max_redirects
            &&& plan.retry_base_delay_seconds.bits <= INFINITY ==> after.retry_base_delay_seconds
                == plan.retry_base_delay_seconds
            &&& plan.retry_base_delay_seconds.bits <= plan.retry_max_delay_seconds.bits <= INFINITY
                ==> after.retry_max_delay_seconds == plan.retry_max_delay_seconds
            &&& plan.retry_jitter_seconds.bits <= INFINITY ==> after.retry_jitter_seconds
                == plan.retry_jitter_seconds
            &&& after.version == plan.version
            &&& after.output_dir == plan.output_dir
            &&& after.segment_delay_seconds == plan.segment_delay_seconds
            &&& after.segment_delay_jitter_seconds == plan.segment_delay_jitter_seconds
            &&& after.proxy_url == plan.proxy_url
            &&& after.verify_tls == plan.verify_tls
            &&& after.headers == plan.headers
            &&& after.user_agent == plan.user_agent
            &&& after.max_speed_bytes == plan.max_speed_bytes
            &&& after.http_version == plan.http_version
        }),
{
}

/// What is out of range is brought to the nearest that is in it: the counts to one, negative retry delays
/// to zero, and a cap below the base delay to that delay.
pub proof fn normalised_lifts_what_is_out_of_range(plan: PlanView)
    ensures
        ({
            let after = plan.normalised();
            &&& plan.concurrency == 0 ==> after.concurrency == 1
            &&& plan.retry_count == 0 ==> after.retry_count == 1
            &&& plan.timeout_seconds == 0 ==> after.timeout_seconds == 1
            &&& plan.max_redirects == 0 ==> after.max_redirects == 1
            &&& plan.retry_base_delay_seconds.bits > INFINITY ==> after.retry_base_delay_seconds.bits == 0
            &&& plan.retry_max_delay_seconds.bits > INFINITY || plan.retry_max_delay_seconds.bits
                <= after.retry_base_delay_seconds.bits ==> after.retry_max_delay_seconds
                == after.retry_base_delay_seconds
            &&& plan.retry_jitter_seconds.bits > INFINITY ==> after.retry_jitter_seconds.bits == 0
        }),
{
}

/// A gap among the names is filled from the next one that is there: the project from the label or the
/// program's name, the label from the project, the label to show from the label.
pub proof fn normalised_fills_the_names(plan: PlanView)
    ensures
        ({
            let after = plan.normalised();
            &&& blank(plan.project) && plan.label is Some && !blank(plan.label->0) ==> after.project
                == plan.label->0
            &&& blank(plan.project) && (plan.label is None || blank(plan.label->0)) ==> after.project
                == "Velora"@
            &&& plan.task_key.len() == 0 ==> after.task_key == "download"@
            &&& plan.label is None ==> after.label == Some(after.project)
            &&& plan.display_label is None ==> after.display_label == after.label
        }),
{
}

/// A task is complete exactly when both its address and its path have a character that is no white space.
pub proof fn complete_tasks_have_more_than_white_space(t: TaskView)
    ensures
        complete(t) <==> (exists|i: int| 0 <= i < t.url.len() && !white_space(#[trigger] t.url[i])) && (
        exists|j: int| 0 <= j < t.path.len() && !white_space(#[trigger] t.path[j])),
{
}

/// The message of a refusal shows the position of the task and what it lacks, or that there is none.
pub proof fn a_refusal_shows_the_position(i: usize)
    ensures
        ({
            let url = PlanError::EmptyUrl(i).text();
            let path = PlanError::EmptyPath(i).text();
            let n = decimal(i as nat).len() as int;
            &&& reading(url.subrange(6, 6 + n)) == i
            &&& reading(path.subrange(6, 6 + n)) == i
            &&& url.skip(6 + n) == " has empty url"@
            &&& path.skip(6 + n) == " has empty path"@
            &&& url.take(6) == "Task #"@ && path.take(6) == "Task #"@
        }),
        PlanError::NoTasks.text() == "Plan has no tasks"@,
{
    reveal_strlit("Task #");
    a_numeral_reads_as_its_number(i as nat);
    let d = decimal(i as nat);
    let n = d.len() as int;
    let url = PlanError::EmptyUrl(i).text();
    let path = PlanError::EmptyPath(i).text();
    assert(url.subrange(6, 6 + n) =~= d);
    assert(path.subrange(6, 6 + n) =~= d);
    assert(url.skip(6 + n) =~= " has empty url"@);
    assert(path.skip(6 + n) =~= " has empty path"@);
    assert(url.take(6) =~= "Task #"@);
    assert(path.take(6) =~= "Task #"@);
}

} // verus!
