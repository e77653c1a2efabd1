//! Request headers: which of a plan's headers are fit to send, and what one request carries.

use reqwest::header::{InvalidHeaderName, InvalidHeaderValue};
use vstd::prelude::*;

use crate::models::{text_of, HeaderTable};
use crate::text::{ascii_lower, blank, is_blank, same_text, white_space};

verus! {

/// The user agent that is sent where no other is given.
pub const DEFAULT_USER_AGENT: &'static str = "Velora/2";

#[verifier::external_type_specification]
#[verifier::external_body]
pub struct ExInvalidHeaderName(InvalidHeaderName);

#[verifier::external_type_specification]
#[verifier::external_body]
pub struct ExInvalidHeaderValue(InvalidHeaderValue);

/// Whether a character may stand in a header's name.
pub open spec fn name_char(c: char) -> bool {
    ||| 'a' <= c <= 'z'
    ||| 'A' <= c <= 'Z'
    ||| '0' <= c <= '9'
    ||| c == '!' || c == '#' || c == '$' || c == '%' || c == '&' || c == '\''
    ||| c == '*' || c == '+' || c == '-' || c == '.' || c == '^' || c == '_'
    ||| c == '`' || c == '|' || c == '~'
}

/// Whether a text is a header's name.
pub open spec fn valid_name(s: Seq<char>) -> bool {
    &&& 1 <= s.len() <= 65535
    &&& forall|i: int| 0 <= i < s.len() ==> name_char(#[trigger] s[i])
}

/// A header's name in lower case.
pub open spec fn canonical(s: Seq<char>) -> Seq<char> {
    s.map_values(|c: char| ascii_lower(c))
}

/// Whether a text is a header's value: no control characters but the tab.
pub open spec fn valid_value(s: Seq<char>) -> bool {
    forall|i: int| 0 <= i < s.len() ==> {
        ||| (#[trigger] s[i]) == '\t'
        ||| s[i] as u32 >= 32 && s[i] as u32 != 127
    }
}

/// Reads a header's name with `HeaderName::from_bytes`, which takes one to 65535 of the characters
/// that a name may hold, refuses everything else, and gives the name in lower case.
#[verifier::external_body]
fn header_name(raw: &str) -> (r: Result<String, InvalidHeaderName>)
    ensures
        r is Ok <==> valid_name(raw@),
        r matches Ok(name) ==> name@ == canonical(raw@),
{
    reqwest::header::HeaderName::from_bytes(raw.as_bytes()).map(|n| n.as_str().to_owned())
}

/// Reads a header's value with `HeaderValue::from_str`, which refuses a text with a control
/// character other than the tab and keeps any other as it is.
#[verifier::external_body]
fn header_value(raw: &str) -> (r: Result<String, InvalidHeaderValue>)
    ensures
        r is Ok <==> valid_value(raw@),
        r matches Ok(value) ==> value@ == raw@,
{
    reqwest::header::HeaderValue::from_str(raw).map(
        |v| String::from_utf8_lossy(v.as_bytes()).into_owned(),
    )
}

/// The text of `InvalidHeaderName`, which is always the same.
#[verifier::external_body]
fn name_error_text(e: &InvalidHeaderName) -> (r: String)
    ensures
        r@ == "invalid HTTP header name"@,
{
    e.to_string()
}

/// The text of `InvalidHeaderValue`, which is always the same.
#[verifier::external_body]
fn value_error_text(e: &InvalidHeaderValue) -> (r: String)
    ensures
        r@ == "failed to parse header value"@,
{
    e.to_string()
}

/// A header that is fit to send, its name in lower case.
#[derive(Debug)]
pub struct Header {
    pub name: String,
    pub value: String,
}

impl View for Header {
    type V = (Seq<char>, Seq<char>);

    open spec fn view(&self) -> (Seq<char>, Seq<char>) {
        (self.name@, self.value@)
    }
}

/// What a list of headers says.
pub open spec fn headers_view(hs: Seq<Header>) -> Seq<(Seq<char>, Seq<char>)> {
    hs.map_values(|h: Header| h@)
}

/// A matter that does not stop the run.
#[derive(Debug)]
pub struct Warning {
    pub scope: String,
    pub key: String,
    pub value: String,
    pub message: String,
}

/// What a warning says.
#[verifier::ext_equal]
pub struct WarningView {
    pub scope: Seq<char>,
    pub key: Seq<char>,
    pub value: Seq<char>,
    pub message: Seq<char>,
}

impl View for Warning {
    type V = WarningView;

    open spec fn view(&self) -> WarningView {
        WarningView {
            scope: self.scope@,
            key: self.key@,
            value: self.value@,
            message: self.message@,
        }
    }
}

/// Whether a header of a plan is fit to send.
pub open spec fn fit(entry: (Seq<char>, Seq<char>)) -> bool {
    valid_name(entry.0) && valid_value(entry.1)
}

/// The headers that are fit to send, in their order.
pub open spec fn fit_headers(entries: Seq<(Seq<char>, Seq<char>)>) -> Seq<(Seq<char>, Seq<char>)>
    decreases entries.len(),
{
    if entries.len() == 0 {
        Seq::empty()
    } else {
        let rest = fit_headers(entries.drop_last());
        let last = entries.last();
        if fit(last) {
            rest.push((canonical(last.0), last.1))
        } else {
            rest
        }
    }
}

/// The warning about a header that is not fit to send.
pub open spec fn dropped(entry: (Seq<char>, Seq<char>), scope: Seq<char>) -> WarningView {
    WarningView {
        scope,
        key: entry.0,
        value: entry.1,
        message: if !valid_name(entry.0) {
            "Invalid header name dropped: "@ + "invalid HTTP header name"@
        } else {
            "Invalid header value dropped: "@ + "failed to parse header value"@
        },
    }
}

/// The warnings about the headers that are not fit to send, in their order.
pub open spec fn dropped_headers(entries: Seq<(Seq<char>, Seq<char>)>, scope: Seq<char>) -> Seq<
    WarningView,
>
    decreases entries.len(),
{
    if entries.len() == 0 {
        Seq::empty()
    } else {
        let rest = dropped_headers(entries.drop_last(), scope);
        let last = entries.last();
        if fit(last) {
            rest
        } else {
            rest.push(dropped(last, scope))
        }
    }
}

/// Whether a header of that name is in the list.
pub open spec fn named(hs: Seq<(Seq<char>, Seq<char>)>, name: Seq<char>) -> bool {
    exists|i: int| 0 <= i < hs.len() && (#[trigger] hs[i]).0 == name
}

/// Every header is either sent or warned about, and no other is.
pub proof fn headers_are_sent_or_warned_about(
    entries: Seq<(Seq<char>, Seq<char>)>,
    scope: Seq<char>,
)
    ensures
        fit_headers(entries).len() + dropped_headers(entries, scope).len() == entries.len(),
        forall|i: int|
            0 <= i < entries.len() ==> {
                let e = #[trigger] entries[i];
                if fit(e) {
                    fit_headers(entries).contains((canonical(e.0), e.1))
                } else {
                    dropped_headers(entries, scope).contains(dropped(e, scope))
                }
            },
        forall|j: int|
            0 <= j < fit_headers(entries).len() ==> valid_name(
                (#[trigger] fit_headers(entries)[j]).0,
            ) && valid_value(fit_headers(entries)[j].1),
    decreases entries.len(),
{
    if entries.len() > 0 {
        let front = entries.drop_last();
        let last = entries.last();
        headers_are_sent_or_warned_about(front, scope);
        let kept = fit_headers(front);
        let warned = dropped_headers(front, scope);
        assert forall|i: int| 0 <= i < entries.len() implies {
            let e = #[trigger] entries[i];
            if fit(e) {
                fit_headers(entries).contains((canonical(e.0), e.1))
            } else {
                dropped_headers(entries, scope).contains(dropped(e, scope))
            }
        } by {
            let e = entries[i];
            if i < front.len() {
                assert(front[i] == e);
                if fit(e) {
                    let j = choose|j: int| 0 <= j < kept.len() && kept[j] == (canonical(e.0), e.1);
                    assert(fit_headers(entries)[j] == (canonical(e.0), e.1));
                } else {
                    let j = choose|j: int| 0 <= j < warned.len() && warned[j] == dropped(e, scope);
                    assert(dropped_headers(entries, scope)[j] == dropped(e, scope));
                }
            } else if fit(e) {
                assert(fit_headers(entries)[kept.len() as int] == (canonical(e.0), e.1));
            } else {
                assert(dropped_headers(entries, scope)[warned.len() as int] == dropped(e, scope));
            }
        }
        if fit(last) {
            let name = canonical(last.0);
            assert forall|k: int| 0 <= k < name.len() implies name_char(#[trigger] name[k]) by {
                assert(name_char(last.0[k]));
                assert(name[k] == ascii_lower(last.0[k]));
            }
        }
    }
}

/// The headers of a plan or a task, ready to send, and the warnings about the others.
#[derive(Debug)]
pub struct ParsedHeaders {
    pub headers: Vec<Header>,
    pub has_user_agent: bool,
    pub warnings: Vec<Warning>,
}

/// What a list of warnings says.
pub open spec fn warnings_view(ws: Seq<Warning>) -> Seq<WarningView> {
    ws.map_values(|w: Warning| w@)
}

/// Sorts the headers of a plan or a task into those to send and those to warn about.
pub fn parse_headers(table: &HeaderTable, scope: &str) -> (r: ParsedHeaders)
    ensures
        headers_view(r.headers@) == fit_headers(table@),
        r.has_user_agent == named(fit_headers(table@), "user-agent"@),
        warnings_view(r.warnings@) == dropped_headers(table@, scope@),
{
    let mut headers: Vec<Header> = Vec::new();
    let mut has_user_agent: bool = false;
    let mut warnings: Vec<Warning> = Vec::new();
    let mut i: usize = 0;
    let n: usize = table.len();
    proof {
        assert(table@.take(0) =~= Seq::<(Seq<char>, Seq<char>)>::empty());
        assert(headers_view(headers@) =~= fit_headers(table@.take(0)));
        assert(warnings_view(warnings@) =~= dropped_headers(table@.take(0), scope@));
    }
    while i < n
        invariant
            i <= n,
            n == table@.len(),
            headers_view(headers@) == fit_headers(table@.take(i as int)),
            has_user_agent == named(fit_headers(table@.take(i as int)), "user-agent"@),
            warnings_view(warnings@) == dropped_headers(table@.take(i as int), scope@),
        decreases n - i,
    {
        let entry = table.entry(i);
        let ghost now = table@.take(i + 1);
        let ghost before = fit_headers(table@.take(i as int));
        proof {
            assert(now.drop_last() =~= table@.take(i as int));
            assert(now.last() == (entry.name@, entry.value@));
        }
        let ghost headers_before = headers@;
        let ghost warnings_before = warnings@;
        match header_name(entry.name.as_str()) {
            Err(e) => {
                let mut message: String = "Invalid header name dropped: ".to_owned();
                message.append(name_error_text(&e).as_str());
                let warning: Warning = Warning {
                    scope: scope.to_owned(),
                    key: entry.name.clone(),
                    value: entry.value.clone(),
                    message,
                };
                assert(warning@ == dropped(now.last(), scope@));
                warnings.push(warning);
                assert(warnings_view(warnings@) =~= warnings_view(warnings_before).push(warning@));
            },
            Ok(name) => match header_value(entry.value.as_str()) {
                Err(e) => {
                    let mut message: String = "Invalid header value dropped: ".to_owned();
                    message.append(value_error_text(&e).as_str());
                    let warning: Warning = Warning {
                        scope: scope.to_owned(),
                        key: entry.name.clone(),
                        value: entry.value.clone(),
                        message,
                    };
                    assert(warning@ == dropped(now.last(), scope@));
                    warnings.push(warning);
                    assert(warnings_view(warnings@) =~= warnings_view(warnings_before).push(
                        warning@,
                    ));
                },
                Ok(value) => {
                    if same_text(name.as_str(), "user-agent") {
                        has_user_agent = true;
                        assert(fit_headers(now)[before.len() as int].0 == "user-agent"@);
                    }
                    let header: Header = Header { name, value };
                    headers.push(header);
                    proof {
                        assert(headers_view(headers@) =~= headers_view(headers_before).push(
                            header@,
                        ));
                        assert(forall|j: int|
                            0 <= j < before.len() ==> fit_headers(now)[j] == #[trigger] before[j]);
                    }
                },
            },
        }
        i = i + 1;
    }
    assert(table@.take(n as int) =~= table@);
    ParsedHeaders { headers, has_user_agent, warnings }
}

/// The headers of a list whose names are not in another list, in their order.
pub open spec fn without_names(
    hs: Seq<(Seq<char>, Seq<char>)>,
    others: Seq<(Seq<char>, Seq<char>)>,
) -> Seq<(Seq<char>, Seq<char>)>
    decreases hs.len(),
{
    if hs.len() == 0 {
        Seq::empty()
    } else {
        let rest = without_names(hs.drop_last(), others);
        if named(others, hs.last().0) {
            rest
        } else {
            rest.push(hs.last())
        }
    }
}

/// What a request carries: the plan's headers that the task does not replace, the task's, and
/// where neither names them a user agent and the wish for plain bytes.
pub open spec fn merged(
    plan: Seq<(Seq<char>, Seq<char>)>,
    task: Seq<(Seq<char>, Seq<char>)>,
    default_user_agent: Seq<char>,
) -> Seq<(Seq<char>, Seq<char>)> {
    let given = without_names(plan, task) + task;
    let agent = if named(plan, "user-agent"@) || named(task, "user-agent"@) {
        Seq::empty()
    } else {
        seq![("user-agent"@, default_user_agent)]
    };
    let encoding = if named(plan, "accept-encoding"@) || named(task, "accept-encoding"@) {
        Seq::empty()
    } else {
        seq![("accept-encoding"@, "identity"@)]
    };
    given + agent + encoding
}

/// The values that a list gives for a name, in their order.
pub open spec fn values_of(hs: Seq<(Seq<char>, Seq<char>)>, name: Seq<char>) -> Seq<Seq<char>>
    decreases hs.len(),
{
    if hs.len() == 0 {
        Seq::empty()
    } else {
        let rest = values_of(hs.drop_last(), name);
        if hs.last().0 == name {
            rest.push(hs.last().1)
        } else {
            rest
        }
    }
}

proof fn lemma_values_concat(
    a: Seq<(Seq<char>, Seq<char>)>,
    b: Seq<(Seq<char>, Seq<char>)>,
    name: Seq<char>,
)
    ensures
        values_of(a + b, name) == values_of(a, name) + values_of(b, name),
    decreases b.len(),
{
    if b.len() == 0 {
        assert(a + b =~= a);
        assert(values_of(a, name) + values_of(b, name) =~= values_of(a, name));
    } else {
        assert((a + b).drop_last() =~= a + b.drop_last());
        lemma_values_concat(a, b.drop_last(), name);
        assert(values_of(a + b, name) =~= values_of(a, name) + values_of(b, name));
    }
}

proof fn lemma_values_without(
    hs: Seq<(Seq<char>, Seq<char>)>,
    others: Seq<(Seq<char>, Seq<char>)>,
    name: Seq<char>,
)
    ensures
        values_of(without_names(hs, others), name) == if named(others, name) {
            Seq::empty()
        } else {
            values_of(hs, name)
        },
    decreases hs.len(),
{
    if hs.len() > 0 {
        lemma_values_without(hs.drop_last(), others, name);
        let rest = without_names(hs.drop_last(), others);
        if !named(others, hs.last().0) {
            assert(rest.push(hs.last()).drop_last() =~= rest);
        }
    }
}

proof fn lemma_values_named(hs: Seq<(Seq<char>, Seq<char>)>, name: Seq<char>)
    ensures
        named(hs, name) <==> values_of(hs, name).len() > 0,
    decreases hs.len(),
{
    if hs.len() > 0 {
        let front = hs.drop_last();
        lemma_values_named(front, name);
        if named(front, name) {
            let i = choose|i: int| 0 <= i < front.len() && (#[trigger] front[i]).0 == name;
            assert(hs[i].0 == name);
        }
        if hs.last().0 == name {
            assert(hs[hs.len() - 1].0 == name);
        }
        if named(hs, name) && hs.last().0 != name {
            let i = choose|i: int| 0 <= i < hs.len() && (#[trigger] hs[i]).0 == name;
            assert(front[i].0 == name);
        }
    }
}

/// A request carries of each name what the task gives; where the task gives nothing, what the plan
/// gives; and where neither gives anything, nothing but a user agent and the wish for plain bytes.
pub proof fn task_headers_win(
    plan: Seq<(Seq<char>, Seq<char>)>,
    task: Seq<(Seq<char>, Seq<char>)>,
    default_user_agent: Seq<char>,
    name: Seq<char>,
)
    ensures
        values_of(merged(plan, task, default_user_agent), name) == if named(task, name) {
            values_of(task, name)
        } else if named(plan, name) {
            values_of(plan, name)
        } else if name == "user-agent"@ {
            seq![default_user_agent]
        } else if name == "accept-encoding"@ {
            seq!["identity"@]
        } else {
            Seq::empty()
        },
{
    let kept = without_names(plan, task);
    let given = kept + task;
    let agent = if named(plan, "user-agent"@) || named(task, "user-agent"@) {
        Seq::empty()
    } else {
        seq![("user-agent"@, default_user_agent)]
    };
    let encoding = if named(plan, "accept-encoding"@) || named(task, "accept-encoding"@) {
        Seq::empty()
    } else {
        seq![("accept-encoding"@, "identity"@)]
    };
    lemma_values_concat(kept, task, name);
    lemma_values_concat(given, agent, name);
    lemma_values_concat(given + agent, encoding, name);
    lemma_values_without(plan, task, name);
    lemma_values_named(plan, name);
    lemma_values_named(task, name);
    assert("user-agent"@ != "accept-encoding"@) by {
        reveal_strlit("user-agent");
        reveal_strlit("accept-encoding");
        assert("user-agent"@.len() != "accept-encoding"@.len());
    }
    reveal_with_fuel(values_of, 2);
    assert(agent.len() > 0 ==> agent.drop_last() =~= Seq::<(Seq<char>, Seq<char>)>::empty());
    assert(encoding.len() > 0 ==> encoding.drop_last() =~= Seq::<(Seq<char>, Seq<char>)>::empty());
    assert(values_of(agent, name) =~= if agent.len() > 0 && name == "user-agent"@ {
        seq![default_user_agent]
    } else {
        Seq::empty()
    });
    assert(values_of(encoding, name) =~= if encoding.len() > 0 && name == "accept-encoding"@ {
        seq!["identity"@]
    } else {
        Seq::empty()
    });
    let all = values_of(merged(plan, task, default_user_agent), name);
    assert(all =~= values_of(kept, name) + values_of(task, name) + values_of(agent, name)
        + values_of(encoding, name));
    if named(task, name) {
        assert(all =~= values_of(task, name));
    } else {
        assert(values_of(task, name) =~= Seq::empty());
        if named(plan, name) {
            assert(all =~= values_of(plan, name));
        } else {
            assert(values_of(kept, name) =~= Seq::empty());
        }
    }
}

/// Tests whether a header of that name is in the list.
pub fn has_header(hs: &Vec<Header>, name: &str) -> (r: bool)
    ensures
        r == named(headers_view(hs@), name@),
{
    let mut i: usize = 0;
    while i < hs.len()
        invariant
            i <= hs.len(),
            forall|j: int| 0 <= j < i ==> (#[trigger] headers_view(hs@)[j]).0 != name@,
        decreases hs.len() - i,
    {
        if same_text(hs[i].name.as_str(), name) {
            assert(headers_view(hs@)[i as int].0 == name@);
            return true;
        }
        i = i + 1;
    }
    false
}

/// A copy of a header.
fn copy_header(h: &Header) -> (r: Header)
    ensures
        r@ == h@,
{
    Header { name: h.name.clone(), value: h.value.clone() }
}

/// Puts together what a request carries.
pub fn apply_headers(plan: &Vec<Header>, task: &Vec<Header>, default_user_agent: &str) -> (r: Vec<
    Header,
>)
    ensures
        headers_view(r@) == merged(headers_view(plan@), headers_view(task@), default_user_agent@),
{
    let mut out: Vec<Header> = Vec::new();
    let ghost p = headers_view(plan@);
    let ghost t = headers_view(task@);
    let mut i: usize = 0;
    proof {
        assert(p.take(0) =~= Seq::<(Seq<char>, Seq<char>)>::empty());
        assert(headers_view(out@) =~= without_names(p.take(0), t));
    }
    while i < plan.len()
        invariant
            i <= plan.len(),
            p == headers_view(plan@),
            t == headers_view(task@),
            headers_view(out@) == without_names(p.take(i as int), t),
        decreases plan.len() - i,
    {
        let ghost before = out@;
        proof {
            assert(p.take(i + 1).drop_last() =~= p.take(i as int));
            assert(p.take(i + 1).last() == plan@[i as int]@);
        }
        if !has_header(task, plan[i].name.as_str()) {
            let h: Header = copy_header(&plan[i]);
            out.push(h);
            assert(headers_view(out@) =~= headers_view(before).push(h@));
        }
        i = i + 1;
    }
    assert(p.take(p.len() as int) =~= p);
    let ghost kept = without_names(p, t);
    let mut j: usize = 0;
    assert(kept + t.take(0) =~= kept);
    while j < task.len()
        invariant
            j <= task.len(),
            t == headers_view(task@),
            headers_view(out@) == kept + t.take(j as int),
        decreases task.len() - j,
    {
        let ghost before = out@;
        let h: Header = copy_header(&task[j]);
        out.push(h);
        proof {
            assert(headers_view(out@) =~= headers_view(before).push(h@));
            assert(kept + t.take(j + 1) =~= (kept + t.take(j as int)).push(t[j as int]));
        }
        j = j + 1;
    }
    assert(t.take(t.len() as int) =~= t);
    if !has_header(plan, "user-agent") && !has_header(task, "user-agent") {
        let ghost before = out@;
        let h: Header = Header {
            name: "user-agent".to_owned(),
            value: default_user_agent.to_owned(),
        };
        out.push(h);
        assert(headers_view(out@) =~= headers_view(before) + seq![h@]);
    } else {
        assert(headers_view(out@) =~= headers_view(out@) + Seq::<(Seq<char>, Seq<char>)>::empty());
    }
    if !has_header(plan, "accept-encoding") && !has_header(task, "accept-encoding") {
        let ghost before = out@;
        let h: Header = Header {
            name: "accept-encoding".to_owned(),
            value: "identity".to_owned(),
        };
        out.push(h);
        assert(headers_view(out@) =~= headers_view(before) + seq![h@]);
    } else {
        assert(headers_view(out@) =~= headers_view(out@) + Seq::<(Seq<char>, Seq<char>)>::empty());
    }
    out
}

/// The user agent that a plan sets: one that is neither blank nor unfit to send.
pub open spec fn fit_agent(user_agent: Option<Seq<char>>) -> Option<Seq<char>> {
    match user_agent {
        Some(agent) => if !blank(agent) && valid_value(agent) {
            Some(agent)
        } else {
            None
        },
        None => None,
    }
}

/// The user agent of requests whose headers name none: the one that the plan sets, else the
/// program's own.
pub open spec fn default_agent(user_agent: Option<Seq<char>>) -> Seq<char> {
    match fit_agent(user_agent) {
        Some(agent) => agent,
        None => DEFAULT_USER_AGENT@,
    }
}

/// The headers of a plan once the user agent that it sets has overridden the one among them.
pub open spec fn plan_level(headers: Seq<(Seq<char>, Seq<char>)>, user_agent: Option<Seq<char>>) -> Seq<
    (Seq<char>, Seq<char>),
> {
    match fit_agent(user_agent) {
        Some(agent) => without_names(headers, seq![("user-agent"@, agent)]),
        None => headers,
    }
}

/// A request carries the user agent of the task's headers; else the one that the plan sets, which
/// overrides that of the plan's headers; else that of the plan's headers; else the program's own.
pub proof fn a_set_user_agent_overrides_the_header(
    plan: Seq<(Seq<char>, Seq<char>)>,
    task: Seq<(Seq<char>, Seq<char>)>,
    user_agent: Option<Seq<char>>,
)
    ensures
        values_of(
            merged(plan_level(plan, user_agent), task, default_agent(user_agent)),
            "user-agent"@,
        ) == if named(task, "user-agent"@) {
            values_of(task, "user-agent"@)
        } else if fit_agent(user_agent) is Some {
            seq![fit_agent(user_agent)->0]
        } else if named(plan, "user-agent"@) {
            values_of(plan, "user-agent"@)
        } else {
            seq![DEFAULT_USER_AGENT@]
        },
{
    let level = plan_level(plan, user_agent);
    task_headers_win(level, task, default_agent(user_agent), "user-agent"@);
    if let Some(agent) = fit_agent(user_agent) {
        let own = seq![("user-agent"@, agent)];
        assert(own[0].0 == "user-agent"@);
        lemma_values_without(plan, own, "user-agent"@);
        lemma_values_named(level, "user-agent"@);
    }
}

/// Decides on the user agent that a plan sets.
pub fn resolve_user_agent(user_agent: &Option<String>) -> (r: Option<String>)
    ensures
        text_of(r) == fit_agent(text_of(*user_agent)),
{
    if let Some(agent) = user_agent {
        if !is_blank(agent.as_str()) {
            if let Ok(value) = header_value(agent.as_str()) {
                return Some(value);
            }
        }
    }
    None
}

/// Lets the user agent that a plan sets override the one among its headers, and gives the user agent
/// of requests whose headers name none.
pub fn override_user_agent(headers: Vec<Header>, user_agent: &Option<String>) -> (r: (
    Vec<Header>,
    String,
))
    ensures
        headers_view(r.0@) == plan_level(headers_view(headers@), text_of(*user_agent)),
        r.1@ == default_agent(text_of(*user_agent)),
{
    match resolve_user_agent(user_agent) {
        Some(agent) => (without_agent(&headers, Ghost(agent@)), agent),
        None => (headers, DEFAULT_USER_AGENT.to_owned()),
    }
}

/// The headers that name no user agent.
fn without_agent(headers: &Vec<Header>, Ghost(agent): Ghost<Seq<char>>) -> (r: Vec<Header>)
    ensures
        headers_view(r@) == without_names(headers_view(headers@), seq![("user-agent"@, agent)]),
{
    let ghost hs = headers_view(headers@);
    let ghost own = seq![("user-agent"@, agent)];
    let mut out: Vec<Header> = Vec::new();
    let mut i: usize = 0;
    proof {
        assert(own[0].0 == "user-agent"@);
        assert(hs.take(0) =~= Seq::<(Seq<char>, Seq<char>)>::empty());
        assert(headers_view(out@) =~= without_names(hs.take(0), own));
    }
    while i < headers.len()
        invariant
            i <= headers.len(),
            hs == headers_view(headers@),
            own == seq![("user-agent"@, agent)],
            own[0].0 == "user-agent"@,
            headers_view(out@) == without_names(hs.take(i as int), own),
        decreases headers.len() - i,
    {
        let ghost before = out@;
        proof {
            assert(hs.take(i + 1).drop_last() =~= hs.take(i as int));
            assert(hs.take(i + 1).last() == headers@[i as int]@);
        }
        if !same_text(headers[i].name.as_str(), "user-agent") {
            let h: Header = copy_header(&headers[i]);
            out.push(h);
            assert(headers_view(out@) =~= headers_view(before).push(h@));
        }
        i = i + 1;
    }
    assert(hs.take(hs.len() as int) =~= hs);
    out
}

/// Setting a user agent changes no other header of the plan, and with it no other header of a request: of
/// every other name a request carries what the task gives, or else all that the plan gives.
pub proof fn a_set_user_agent_changes_no_other_header(
    plan: Seq<(Seq<char>, Seq<char>)>,
    task: Seq<(Seq<char>, Seq<char>)>,
    user_agent: Option<Seq<char>>,
    name: Seq<char>,
)
    requires
        name != "user-agent"@,
    ensures
        values_of(plan_level(plan, user_agent), name) == values_of(plan, name),
        values_of(merged(plan_level(plan, user_agent), task, default_agent(user_agent)), name)
            == if named(task, name) {
            values_of(task, name)
        } else if named(plan, name) {
            values_of(plan, name)
        } else if name == "accept-encoding"@ {
            seq!["identity"@]
        } else {
            Seq::empty()
        },
        plan_level(plan, None) == plan,
{
    let level = plan_level(plan, user_agent);
    if let Some(agent) = fit_agent(user_agent) {
        let own = seq![("user-agent"@, agent)];
        assert(own[0].0 == "user-agent"@);
        assert(!named(own, name));
        lemma_values_without(plan, own, name);
    }
    lemma_values_named(plan, name);
    lemma_values_named(level, name);
    task_headers_win(level, task, default_agent(user_agent), name);
}

/// A plan sets the user agent that it gives, as it gives it, exactly when every character may stand in a
/// header's value and one is no white space.
pub proof fn a_fit_user_agent_is_set_as_given(agent: Seq<char>)
    ensures
        fit_agent(None) is None,
        fit_agent(Some(agent)) is Some <==> (exists|i: int|
            0 <= i < agent.len() && !white_space(#[trigger] agent[i])) && forall|i: int|
            0 <= i < agent.len() ==> #[trigger] agent[i] == '\t' || (agent[i] as u32 >= 32 && agent[i] as u32
                != 127),
        fit_agent(Some(agent)) is Some ==> fit_agent(Some(agent)) == Some(agent),
{
}

/// The values of a name among headers as they are written: those of the entries that are fit to send and
/// whose name is that one in any case, in their order.
pub open spec fn written_values(entries: Seq<(Seq<char>, Seq<char>)>, name: Seq<char>) -> Seq<Seq<char>>
    decreases entries.len(),
{
    if entries.len() == 0 {
        Seq::empty()
    } else {
        let rest = written_values(entries.drop_last(), name);
        let (key, value) = entries.last();
        if valid_name(key) && valid_value(value) && same_in_any_case(key, name) {
            rest.push(value)
        } else {
            rest
        }
    }
}

/// Whether a name and one in lower case differ at most in the case of letters.
pub open spec fn same_in_any_case(key: Seq<char>, name: Seq<char>) -> bool {
    &&& key.len() == name.len()
    &&& forall|i: int| 0 <= i < key.len() ==> ascii_lower(#[trigger] key[i]) == name[i]
}

/// What is sent of a name is what is written of it, in whatever case, as far as it is fit to send: every
/// value and no other, in the same order.
pub proof fn what_is_written_is_sent(entries: Seq<(Seq<char>, Seq<char>)>, name: Seq<char>)
    ensures
        values_of(fit_headers(entries), name) == written_values(entries, name),
    decreases entries.len(),
{
    if entries.len() > 0 {
        what_is_written_is_sent(entries.drop_last(), name);
        let (key, value) = entries.last();
        let rest = fit_headers(entries.drop_last());
        if fit(entries.last()) {
            assert(rest.push((canonical(key), value)).drop_last() =~= rest);
            if same_in_any_case(key, name) {
                assert(canonical(key) =~= name);
            } else if canonical(key) == name {
                assert forall|i: int| 0 <= i < key.len() implies ascii_lower(#[trigger] key[i])
                    == name[i] by {
                    assert(canonical(key)[i] == ascii_lower(key[i]));
                }
            }
        }
    }
}

/// A header that is not sent is warned about by its own name and value, with where it stood and which of
/// the two is at fault, the name before the value.
pub proof fn a_warning_tells_the_header(
    entries: Seq<(Seq<char>, Seq<char>)>,
    scope: Seq<char>,
    i: int,
)
    requires
        0 <= i < entries.len(),
        !valid_name(entries[i].0) || !valid_value(entries[i].1),
    ensures
        exists|k: int|
            0 <= k < dropped_headers(entries, scope).len() && {
                let w = #[trigger] dropped_headers(entries, scope)[k];
                &&& w.scope == scope
                &&& w.key == entries[i].0
                &&& w.value == entries[i].1
                &&& !valid_name(entries[i].0) ==> w.message
                    == "Invalid header name dropped: "@ + "invalid HTTP header name"@
                &&& valid_name(entries[i].0) ==> w.message
                    == "Invalid header value dropped: "@ + "failed to parse header value"@
            },
{
    headers_are_sent_or_warned_about(entries, scope);
    let e = entries[i];
    assert(!fit(e));
    let all = dropped_headers(entries, scope);
    assert(all.contains(dropped(e, scope)));
    let k = choose|k: int| 0 <= k < all.len() && all[k] == dropped(e, scope);
    assert(all[k] == dropped(e, scope));
}

/// Without a set user agent and without one among the headers, the program's own is sent.
pub proof fn the_default_agent_is_the_programs_own(agent: Seq<char>)
    ensures
        default_agent(None) == "Velora/2"@,
        default_agent(Some(agent)) == agent || default_agent(Some(agent)) == "Velora/2"@,
        fit_agent(Some(agent)) is Some ==> default_agent(Some(agent)) == agent,
        fit_agent(Some(agent)) is None ==> default_agent(Some(agent)) == "Velora/2"@,
{
}

/// The characters of a header's name are the visible ones of ASCII but for those that delimit: quotation
/// marks, brackets and braces, and `,/:;<=>?@` and the backslash.
pub proof fn names_hold_no_delimiters(c: char)
    ensures
        name_char(c) <==> 33 <= c as u32 <= 126 && !(c == '"' || c == '(' || c == ')' || c == ',' || c == '/'
            || c == ':' || c == ';' || c == '<' || c == '=' || c == '>' || c == '?' || c == '@' || c == '['
            || c == '\\' || c == ']' || c == '{' || c == '}'),
{
}

/// A text is unfit as a header's name exactly when it is empty, longer than 65535 characters, or holds a
/// character that no name may hold; a part of a name that is not empty is a name too.
pub proof fn names_are_judged_by_their_characters(s: Seq<char>, i: int, j: int)
    requires
        0 <= i < j <= s.len(),
    ensures
        !valid_name(s) <==> s.len() > 65535 || exists|k: int|
            0 <= k < s.len() && !name_char(#[trigger] s[k]),
        valid_name(s) ==> valid_name(s.subrange(i, j)),
        !valid_name(Seq::empty()),
{
    if valid_name(s) {
        let part = s.subrange(i, j);
        assert forall|k: int| 0 <= k < part.len() implies name_char(#[trigger] part[k]) by {
            assert(part[k] == s[i + k]);
        }
    }
}

proof fn lemma_control_character(c: char)
    ensures
        c == '\t' || c as u32 >= 32 && c as u32 != 127 || c as u32 == 127 || (c as u32) < 9 || 9 < c as u32
            <= 31,
{
}

/// A text is unfit as a header's value exactly when it holds a control character other than the tab; so two
/// values behind each other are one value, and each half of a value is one.
pub proof fn values_hold_no_control_characters(a: Seq<char>, b: Seq<char>)
    ensures
        !valid_value(a) <==> exists|k: int|
            0 <= k < a.len() && ((#[trigger] a[k]) as u32 == 127 || (a[k] as u32) < 9 || 9 < a[k] as u32
                <= 31),
        valid_value(a + b) <==> valid_value(a) && valid_value(b),
{
    if !valid_value(a) {
        let k = choose|k: int|
            0 <= k < a.len() && !((#[trigger] a[k]) == '\t' || a[k] as u32 >= 32 && a[k] as u32 != 127);
        lemma_control_character(a[k]);
    }
    if valid_value(a + b) {
        assert forall|k: int| 0 <= k < a.len() implies (#[trigger] a[k]) == '\t' || a[k] as u32 >= 32
            && a[k] as u32 != 127 by {
            assert((a + b)[k] == a[k]);
        }
        assert forall|k: int| 0 <= k < b.len() implies (#[trigger] b[k]) == '\t' || b[k] as u32 >= 32
            && b[k] as u32 != 127 by {
            assert((a + b)[a.len() + k] == b[k]);
        }
    }
}

/// A name in lower case is as long as before, holds no capital, and is the same for every way to write it.
pub proof fn lower_case_names_are_one(a: Seq<char>, b: Seq<char>)
    ensures
        canonical(a).len() == a.len(),
        forall|k: int| 0 <= k < a.len() ==> !('A' <= #[trigger] canonical(a)[k] <= 'Z'),
        canonical(canonical(a)) == canonical(a),
        canonical(a + b) == canonical(a) + canonical(b),
{
    assert(canonical(canonical(a)) =~= canonical(a));
    assert(canonical(a + b) =~= canonical(a) + canonical(b));
}

} // verus!
