//! The command line, the stop request on the input, and how the program ends.

use vstd::prelude::*;

use crate::text::{ascii_lower, blank, is_blank, same_text, white_space};

verus! {

#[verifier::external_type_specification]
#[verifier::external_body]
pub struct ExJson(serde_json::Value);

#[verifier::external_type_specification]
#[verifier::external_body]
pub struct ExJsonError(serde_json::Error);

/// What the command line asks for.
#[derive(Clone, Debug, PartialEq, Eq)]
pub enum CliAction {
    /// To run the plan at this path.
    RunPlan(String),
    ShowVersion,
}

/// What the words of a command line say.
pub open spec fn words(args: Seq<String>) -> Seq<Seq<char>> {
    args.map_values(|a: String| a@)
}

/// Whether some word asks for the version.
pub open spec fn asks_version(args: Seq<Seq<char>>) -> bool {
    exists|i: int|
        0 <= i < args.len() && ((#[trigger] args[i]) == "--version"@ || args[i] == "-V"@)
}

/// Whether the command line is one word that is no option.
pub open spec fn bare_path(args: Seq<Seq<char>>) -> bool {
    args.len() == 1 && !(args[0].len() > 0 && args[0][0] == '-')
}

/// Whether a word announces the path of a plan.
pub open spec fn announces_plan(word: Seq<char>) -> bool {
    word == "--plan"@ || word == "-p"@ || word == "--input"@
}

/// Whether the word at `i` is the first one that announces a path and has a word behind it.
pub open spec fn first_announcement(args: Seq<Seq<char>>, i: int) -> bool {
    &&& 0 <= i
    &&& i + 1 < args.len()
    &&& announces_plan(args[i])
    &&& forall|j: int| 0 <= j < i ==> !announces_plan(#[trigger] args[j])
}

/// Whether the answer is to run the plan at a path.
pub open spec fn runs(r: Option<CliAction>, path: Seq<char>) -> bool {
    r matches Some(CliAction::RunPlan(p)) && p@ == path
}

/// Reads the command line, without the program's name. `None` is a wrong usage.
///
/// The version is asked for anywhere; else a single word that is no option is a path, and else the
/// path is the word behind the first option that announces one.
pub fn resolve_cli_action(args: &Vec<String>) -> (r: Option<CliAction>)
    ensures
        r is Some && r->0 is ShowVersion <==> asks_version(words(args@)),
        !asks_version(words(args@)) && bare_path(words(args@)) ==> runs(r, words(args@)[0]),
        !asks_version(words(args@)) && !bare_path(words(args@)) ==> forall|i: int| #[trigger]
            first_announcement(words(args@), i) ==> runs(r, words(args@)[i + 1]),
        r is None <==> !asks_version(words(args@)) && !bare_path(words(args@)) && forall|i: int|
            !#[trigger] first_announcement(words(args@), i),
{
    let ghost ws = words(args@);
    let mut i: usize = 0;
    while i < args.len()
        invariant
            i <= args.len(),
            ws == words(args@),
            forall|j: int| 0 <= j < i ==> (#[trigger] ws[j]) != "--version"@ && ws[j] != "-V"@,
        decreases args.len() - i,
    {
        if same_text(args[i].as_str(), "--version") || same_text(args[i].as_str(), "-V") {
            assert(ws[i as int] == args@[i as int]@);
            return Some(CliAction::ShowVersion);
        }
        i = i + 1;
    }
    if args.len() == 1 {
        let word: &String = &args[0];
        assert(ws[0] == word@);
        if word.as_str().is_empty() || word.as_str().get_char(0) != '-' {
            return Some(CliAction::RunPlan(word.clone()));
        }
    }
    let mut i: usize = 0;
    while i < args.len()
        invariant
            i <= args.len(),
            ws == words(args@),
            !asks_version(ws),
            !bare_path(ws),
            forall|j: int| 0 <= j < i && j + 1 < ws.len() ==> !announces_plan(#[trigger] ws[j]),
        decreases args.len() - i,
    {
        assert(ws[i as int] == args@[i as int]@);
        let word: &str = args[i].as_str();
        let announces: bool = same_text(word, "--plan") || same_text(word, "-p") || same_text(
            word,
            "--input",
        );
        if announces && i + 1 < args.len() {
            proof {
                assert(first_announcement(ws, i as int));
                assert forall|k: int| #[trigger] first_announcement(ws, k) implies k == i by {
                    assert(announces_plan(ws[k]));
                    assert(announces_plan(ws[i as int]));
                }
                assert(ws[i + 1] == args@[i + 1]@);
            }
            return Some(CliAction::RunPlan(args[i + 1].clone()));
        }
        i = i + 1;
    }
    assert forall|k: int| !#[trigger] first_announcement(ws, k) by {
        if 0 <= k && k + 1 < ws.len() {
            assert(!announces_plan(ws[k]));
        }
    }
    None
}

/// Whether two texts differ at most in the case of ASCII letters.
pub open spec fn same_ignoring_case(a: Seq<char>, b: Seq<char>) -> bool {
    &&& a.len() == b.len()
    &&& forall|i: int| 0 <= i < a.len() ==> ascii_lower(#[trigger] a[i]) == ascii_lower(b[i])
}

/// The members of a JSON object that are texts, by their names; none where it is no object.
pub uninterp spec fn text_members(value: serde_json::Value) -> Map<Seq<char>, Seq<char>>;

/// The members that are texts of the JSON object that a text is; `None` where it is not JSON.
pub uninterp spec fn json_text_members(text: Seq<char>) -> Option<Map<Seq<char>, Seq<char>>>;

/// Reads JSON with `serde_json::from_str`. What comes out depends on the text alone.
#[verifier::external_body]
fn parse_json(text: &str) -> (r: Result<serde_json::Value, serde_json::Error>)
    ensures
        match r {
            Ok(value) => json_text_members(text@) == Some(text_members(value)),
            Err(_) => json_text_members(text@) is None,
        },
{
    serde_json::from_str::<serde_json::Value>(text)
}

/// Looks up a member with `Value::get` and takes its text with `Value::as_str`: there is one where
/// the value is an object with a member of that name that is a text.
#[verifier::external_body]
fn text_member(value: &serde_json::Value, key: &str) -> (r: Option<String>)
    ensures
        r is Some <==> text_members(*value).contains_key(key@),
        r matches Some(text) ==> text@ == text_members(*value)[key@],
{
    value.get(key).and_then(|member| member.as_str()).map(|text| text.to_owned())
}

/// Tests whether the name of an event is "stop", in whatever case.
pub fn is_stop_event(event: &str) -> (r: bool)
    ensures
        r == same_ignoring_case(event@, "stop"@),
{
    let stop: &str = "stop";
    proof {
        reveal_strlit("stop");
    }
    let n: usize = event.unicode_len();
    if n != 4 {
        return false;
    }
    let mut i: usize = 0;
    while i < 4
        invariant
            i <= 4,
            event@.len() == 4,
            stop@ == "stop"@,
            "stop"@.len() == 4,
            forall|j: int| 0 <= j < i ==> ascii_lower(#[trigger] event@[j]) == ascii_lower("stop"@[j]),
        decreases 4 - i,
    {
        if lower(event.get_char(i)) != lower(stop.get_char(i)) {
            return false;
        }
        i = i + 1;
    }
    true
}

/// The lower-case form of an ASCII letter.
fn lower(c: char) -> (r: char)
    ensures
        r == ascii_lower(c),
{
    if 'A' <= c && c <= 'Z' {
        ((c as u8) + 32) as char
    } else {
        c
    }
}

/// Whether a line of input asks the program to stop: a JSON object whose member "event" is "stop".
pub open spec fn stop_request(line: Seq<char>) -> bool {
    &&& !blank(line)
    &&& json_text_members(line) matches Some(members)
    &&& members.contains_key("event"@)
    &&& same_ignoring_case(members["event"@], "stop"@)
}

/// Tests whether a line of input asks the program to stop.
pub fn is_stop_request(line: &str) -> (r: bool)
    ensures
        r == stop_request(line@),
{
    if is_blank(line) {
        return false;
    }
    match parse_json(line) {
        Ok(value) => match text_member(&value, "event") {
            Some(event) => is_stop_event(event.as_str()),
            None => false,
        },
        Err(_) => false,
    }
}

/// How the program ends.
#[derive(Clone, Copy, Debug, PartialEq, Eq, Structural)]
pub enum Ending {
    /// The run is over, and no task failed.
    Finished,
    /// The run is over, and some task failed.
    TasksFailed,
    /// The version was shown.
    VersionShown,
    /// The command line made no sense.
    WrongUsage,
    /// The plan could not be read.
    PlanUnreadable,
    /// The plan was refused.
    PlanRefused,
    /// The client could not be built.
    ClientFailed,
    /// The run was called off, or nobody read the events any more.
    Cancelled,
}

impl Ending {
    /// The code that the program exits with.
    pub open spec fn code(self) -> i32 {
        match self {
            Ending::Finished => 0,
            Ending::VersionShown => 0,
            Ending::WrongUsage => 1,
            Ending::PlanUnreadable => 2,
            Ending::PlanRefused => 2,
            Ending::ClientFailed => 2,
            Ending::TasksFailed => 3,
            Ending::Cancelled => 130,
        }
    }

    /// The code that the program exits with.
    pub fn exit_code(self) -> (r: i32)
        ensures
            r == self.code(),
    {
        match self {
            Ending::Finished => 0,
            Ending::VersionShown => 0,
            Ending::WrongUsage => 1,
            Ending::PlanUnreadable => 2,
            Ending::PlanRefused => 2,
            Ending::ClientFailed => 2,
            Ending::TasksFailed => 3,
            Ending::Cancelled => 130,
        }
    }
}

/// How a run ends that got as far as its downloads, given how many of its tasks failed.
pub open spec fn run_ending(cancel_requested: bool, pipe_closed: bool, failed: u32) -> Ending {
    if cancel_requested || pipe_closed {
        Ending::Cancelled
    } else if failed > 0 {
        Ending::TasksFailed
    } else {
        Ending::Finished
    }
}

/// Decides how a run ends that got as far as its downloads.
pub fn ending_of_run(cancel_requested: bool, pipe_closed: bool, failed: u32) -> (r: Ending)
    ensures
        r == run_ending(cancel_requested, pipe_closed, failed),
{
    if cancel_requested || pipe_closed {
        Ending::Cancelled
    } else if failed > 0 {
        Ending::TasksFailed
    } else {
        Ending::Finished
    }
}

/// A run exits with zero exactly when it was not called off, its events were read to the end, and
/// none of its tasks failed.
pub proof fn success_means_that_nothing_failed(
    cancel_requested: bool,
    pipe_closed: bool,
    failed: u32,
)
    ensures
        run_ending(cancel_requested, pipe_closed, failed).code() == 0 <==> !cancel_requested
            && !pipe_closed && failed == 0,
{
}

/// A word that announces a path and has one behind it is never passed over: the first such word is it or
/// stands before it, and there is only one first.
pub proof fn an_announcement_is_found(args: Seq<Seq<char>>, i: int)
    requires
        0 <= i,
        i + 1 < args.len(),
        args[i] == "--plan"@ || args[i] == "-p"@ || args[i] == "--input"@,
    ensures
        exists|j: int|
            0 <= j <= i && #[trigger] first_announcement(args, j) && forall|k: int| #[trigger]
                first_announcement(args, k) ==> k == j,
    decreases i,
{
    assert(announces_plan(args[i]));
    if forall|j: int| 0 <= j < i ==> !announces_plan(#[trigger] args[j]) {
        assert(first_announcement(args, i));
        assert forall|k: int| #[trigger] first_announcement(args, k) implies k == i by {
            assert(announces_plan(args[k]));
        }
    } else {
        let j = choose|j: int| 0 <= j < i && announces_plan(#[trigger] args[j]);
        an_announcement_is_found(args, j);
    }
}

/// A path is announced by one of three words, and by no other.
pub proof fn three_words_announce_a_path(args: Seq<Seq<char>>, i: int)
    requires
        first_announcement(args, i),
    ensures
        0 <= i < args.len() - 1,
        args[i] == "--plan"@ || args[i] == "-p"@ || args[i] == "--input"@,
        forall|j: int|
            0 <= j < i ==> #[trigger] args[j] != "--plan"@ && args[j] != "-p"@ && args[j] != "--input"@,
{
    assert forall|j: int| 0 <= j < i implies #[trigger] args[j] != "--plan"@ && args[j] != "-p"@ && args[j]
        != "--input"@ by {
        assert(!announces_plan(args[j]));
    }
}

/// Asking for the version is asking for it with one of the two words for that, at any place; and only a
/// single word that does not begin with a dash is a path by itself.
pub proof fn words_are_told_apart(args: Seq<Seq<char>>, i: int)
    requires
        0 <= i < args.len(),
    ensures
        args[i] == "--version"@ || args[i] == "-V"@ ==> asks_version(args),
        asks_version(args) ==> exists|k: int|
            0 <= k < args.len() && (#[trigger] args[k] == "--version"@ || args[k] == "-V"@),
        bare_path(args) ==> args.len() == 1,
        args.len() == 1 && args[0].len() == 0 ==> bare_path(args),
        args.len() == 1 && args[0].len() > 0 ==> (bare_path(args) <==> args[0][0] != '-'),
{
}

/// A line asks to stop exactly when it is JSON with a member "event" of four letters, which are those of
/// "stop" in small or capital ones.
pub proof fn a_stop_request_says_stop(line: Seq<char>, members: Map<Seq<char>, Seq<char>>)
    requires
        json_text_members(line) == Some(members),
        exists|i: int| 0 <= i < line.len() && !white_space(#[trigger] line[i]),
    ensures
        stop_request(line) <==> members.contains_key("event"@) && {
            let event = members["event"@];
            &&& event.len() == 4
            &&& event[0] == 's' || event[0] == 'S'
            &&& event[1] == 't' || event[1] == 'T'
            &&& event[2] == 'o' || event[2] == 'O'
            &&& event[3] == 'p' || event[3] == 'P'
        },
{
    reveal_strlit("stop");
    let stop = "stop"@;
    if members.contains_key("event"@) {
        let event = members["event"@];
        if same_ignoring_case(event, stop) {
            assert(ascii_lower(event[0]) == ascii_lower(stop[0]));
            assert(ascii_lower(event[1]) == ascii_lower(stop[1]));
            assert(ascii_lower(event[2]) == ascii_lower(stop[2]));
            assert(ascii_lower(event[3]) == ascii_lower(stop[3]));
        }
    }
}

/// A line that is no JSON, or white space alone, asks for nothing.
pub proof fn other_lines_ask_for_nothing(line: Seq<char>)
    ensures
        json_text_members(line) is None ==> !stop_request(line),
        blank(line) ==> !stop_request(line),
{
}

/// The exit code tells how far the program came: a run that was called off, or whose events nobody reads
/// any more, exits with 130 whatever failed, another with three exactly where a task failed; and what kept
/// a run from beginning is told by one, for the command line, or two.
pub proof fn the_exit_code_tells_the_ending(cancel_requested: bool, pipe_closed: bool, failed: u32, end: Ending)
    ensures
        run_ending(cancel_requested, pipe_closed, failed).code() == 130 <==> cancel_requested
            || pipe_closed,
        run_ending(cancel_requested, pipe_closed, failed).code() == 3 <==> !cancel_requested
            && !pipe_closed && failed > 0,
        end.code() == 0 <==> end is Finished || end is VersionShown,
        end.code() == 1 <==> end is WrongUsage,
        end.code() == 2 <==> end is PlanUnreadable || end is PlanRefused || end is ClientFailed,
        end.code() == 3 <==> end is TasksFailed,
        end.code() == 130 <==> end is Cancelled,
{
}

} // verus!
