//! What requests ask for and what responses say: ranges, lengths, statuses, and errors in words.

use vstd::prelude::*;

use crate::attempt::{self, is_retryable_status, is_success, retryable_status, success, AttemptFailure};
use crate::headers::{headers_view, Header};
use crate::text::{a_numeral_reads_as_its_number, all_decimal, append_decimal, decimal, reading};

verus! {

/// What a request for the bytes from a position on carries: the given headers, and where the
/// position is not the beginning the range that starts there.
pub open spec fn with_range(headers: Seq<(Seq<char>, Seq<char>)>, resume_from: nat) -> Seq<
    (Seq<char>, Seq<char>),
> {
    if resume_from > 0 {
        headers.push(("range"@, "bytes="@ + decimal(resume_from) + "-"@))
    } else {
        headers
    }
}

/// Adds the range to what a request carries.
pub fn add_range(headers: Vec<Header>, resume_from: u64) -> (r: Vec<Header>)
    ensures
        headers_view(r@) == with_range(headers_view(headers@), resume_from as nat),
{
    let mut out: Vec<Header> = headers;
    if resume_from > 0 {
        let mut value: String = "bytes=".to_owned();
        append_decimal(&mut value, resume_from as u128);
        value.append("-");
        let header: Header = Header { name: "range".to_owned(), value };
        out.push(header);
        assert(headers_view(out@) =~= headers_view(headers@).push(header@));
    }
    out
}

/// The number that decimal digits stand for, the most significant one first.
pub open spec fn number_of(digits: Seq<u8>) -> nat
    decreases digits.len(),
{
    if digits.len() == 0 {
        0
    } else {
        (10 * number_of(digits.drop_last()) + (digits.last() - 48)) as nat
    }
}

/// Whether every byte is a decimal digit, and there is one.
pub open spec fn all_digits(s: Seq<u8>) -> bool {
    s.len() > 0 && forall|i: int| 0 <= i < s.len() ==> 48 <= #[trigger] s[i] <= 57
}

/// The digits of a numeral: what stands behind a plus sign, if there is one.
pub open spec fn unsigned_part(s: Seq<u8>) -> Seq<u8> {
    if s.len() > 0 && s[0] == 43 {
        s.drop_first()
    } else {
        s
    }
}

/// The number of 64 bits that a numeral stands for.
pub open spec fn parsed_number(s: Seq<u8>) -> Option<u64> {
    let digits = unsigned_part(s);
    if all_digits(digits) && number_of(digits) <= u64::MAX {
        Some(number_of(digits) as u64)
    } else {
        None
    }
}

/// Reads a numeral: digits, with or without a plus sign.
pub fn parse_number(s: &Vec<u8>) -> (r: Option<u64>)
    ensures
        r == parsed_number(s@),
{
    let from: usize = if s.len() > 0 && s[0] == 43 {
        1
    } else {
        0
    };
    let ghost digits = unsigned_part(s@);
    assert(digits =~= s@.skip(from as int));
    if from == s.len() {
        return None;
    }
    let mut value: u64 = 0;
    let mut i: usize = from;
    assert(digits.take(0) =~= Seq::<u8>::empty());
    let mut too_great: bool = false;
    while i < s.len()
        invariant
            from <= i <= s.len(),
            from <= 1,
            digits == unsigned_part(s@),
            digits == s@.skip(from as int),
            digits.len() == s.len() - from,
            forall|j: int| 0 <= j < i - from ==> 48 <= #[trigger] digits[j] <= 57,
            !too_great ==> value == number_of(digits.take(i - from)),
            too_great ==> number_of(digits.take(i - from)) > u64::MAX,
        decreases s.len() - i,
    {
        let c: u8 = s[i];
        assert(digits[i - from] == c);
        if c < 48 || c > 57 {
            return None;
        }
        proof {
            assert(digits.take(i - from + 1).drop_last() =~= digits.take(i - from));
            assert(digits.take(i - from + 1).last() == c);
        }
        if !too_great {
            let wide: u128 = (value as u128) * 10 + (c - 48) as u128;
            if wide > u64::MAX as u128 {
                too_great = true;
            } else {
                value = wide as u64;
            }
        }
        i = i + 1;
    }
    assert(digits.take(digits.len() as int) =~= digits);
    if too_great {
        None
    } else {
        Some(value)
    }
}

/// The length of the file on the server, where a response to a request for its head tells it.
pub open spec fn told_length(status: u16, content_length: Option<Seq<u8>>) -> Option<u64> {
    match content_length {
        Some(s) => if success(status) {
            parsed_number(s)
        } else {
            None
        },
        None => None,
    }
}

/// Reads the length of the file on the server from the status and the length header of a response.
pub fn remote_length(status: u16, content_length: &Option<Vec<u8>>) -> (r: Option<u64>)
    ensures
        r == told_length(
            status,
            match *content_length {
                Some(s) => Some(s@),
                None => None,
            },
        ),
{
    match content_length {
        Some(s) => if is_success(status) {
            parse_number(s)
        } else {
            None
        },
        None => None,
    }
}

/// Why an attempt failed, and whether another is worth it.
#[derive(Clone, Debug)]
pub struct AttemptError {
    pub message: String,
    pub retryable: bool,
    pub cancelled: bool,
}

impl AttemptError {
    /// A failure that another attempt may mend.
    pub fn retryable(message: String) -> (r: Self)
        ensures
            r.message@ == message@,
            r.retryable,
            !r.cancelled,
    {
        AttemptError { message, retryable: true, cancelled: false }
    }

    /// A failure that no other attempt would mend.
    pub fn fatal(message: String) -> (r: Self)
        ensures
            r.message@ == message@,
            !r.retryable,
            !r.cancelled,
    {
        AttemptError { message, retryable: false, cancelled: false }
    }

    /// The end of an attempt that was called off.
    pub fn cancelled(message: String) -> (r: Self)
        ensures
            r.message@ == message@,
            !r.retryable,
            r.cancelled,
    {
        AttemptError { message, retryable: false, cancelled: true }
    }
}

/// Whether a failure is the end of an attempt that was called off.
pub open spec fn called_off(failure: AttemptFailure) -> bool {
    failure is Cancelled || failure is CancelledInTransfer
}

/// Whether another attempt may mend a failure.
pub open spec fn worth_retrying(failure: AttemptFailure) -> bool {
    match failure {
        AttemptFailure::Request => true,
        AttemptFailure::Status(status) => retryable_status(status),
        AttemptFailure::Stream => true,
        AttemptFailure::Empty => true,
        AttemptFailure::Incomplete { .. } => true,
        _ => false,
    }
}

/// A failure in words: `detail` is what the outside said, `reason` the phrase of the status.
pub open spec fn failure_text(
    failure: AttemptFailure,
    detail: Seq<char>,
    url: Seq<char>,
    reason: Option<Seq<char>>,
) -> Seq<char> {
    match failure {
        AttemptFailure::Cancelled => "Cancellation requested"@,
        AttemptFailure::CancelledInTransfer => "Cancelled during transfer"@,
        AttemptFailure::Request => "Request failed: "@ + detail,
        AttemptFailure::RangeNotSatisfiable => "HTTP 416 while resuming "@ + url,
        AttemptFailure::Status(status) => "HTTP "@ + decimal(status as nat) + " "@ + match reason {
            Some(phrase) => phrase,
            None => ""@,
        },
        AttemptFailure::OpenAppend => "Open append failed: "@ + detail,
        AttemptFailure::Create => "Create temp file failed: "@ + detail,
        AttemptFailure::Stream => "Stream read failed: "@ + detail,
        AttemptFailure::Write => "Write failed: "@ + detail,
        AttemptFailure::Flush => "Flush failed: "@ + detail,
        AttemptFailure::Empty => "Downloaded file is empty: "@ + url,
        AttemptFailure::Incomplete { got, expected } => "Incomplete download: got "@ + decimal(
            got as nat,
        ) + " bytes, expected "@ + decimal(expected as nat) + ": "@ + url,
    }
}

/// Two texts, one behind the other.
fn joined(a: &str, b: &str) -> (r: String)
    ensures
        r@ == a@ + b@,
{
    let mut out: String = a.to_owned();
    out.append(b);
    out
}

/// Puts a failure into words, given the phrase of its status, if it has one.
pub fn explain_failure(
    failure: AttemptFailure,
    detail: &str,
    url: &str,
    reason: &Option<String>,
) -> (r: AttemptError)
    ensures
        r.message@ == failure_text(failure, detail@, url@, crate::models::text_of(*reason)),
        r.retryable == worth_retrying(failure),
        r.cancelled == called_off(failure),
{
    match failure {
        AttemptFailure::Cancelled => AttemptError::cancelled("Cancellation requested".to_owned()),
        AttemptFailure::CancelledInTransfer => AttemptError::cancelled(
            "Cancelled during transfer".to_owned(),
        ),
        AttemptFailure::Request => AttemptError::retryable(joined("Request failed: ", detail)),
        AttemptFailure::RangeNotSatisfiable => AttemptError::fatal(
            joined("HTTP 416 while resuming ", url),
        ),
        AttemptFailure::Status(status) => {
            let mut message: String = "HTTP ".to_owned();
            append_decimal(&mut message, status as u128);
            message.append(" ");
            match reason {
                Some(phrase) => {
                    message.append(phrase.as_str());
                },
                None => {
                    message.append("");
                },
            }
            AttemptError { message, retryable: is_retryable_status(status), cancelled: false }
        },
        AttemptFailure::OpenAppend => AttemptError::fatal(joined("Open append failed: ", detail)),
        AttemptFailure::Create => AttemptError::fatal(joined("Create temp file failed: ", detail)),
        AttemptFailure::Stream => AttemptError::retryable(joined("Stream read failed: ", detail)),
        AttemptFailure::Write => AttemptError::fatal(joined("Write failed: ", detail)),
        AttemptFailure::Flush => AttemptError::fatal(joined("Flush failed: ", detail)),
        AttemptFailure::Empty => AttemptError::retryable(
            joined("Downloaded file is empty: ", url),
        ),
        AttemptFailure::Incomplete { got, expected } => {
            let mut message: String = "Incomplete download: got ".to_owned();
            append_decimal(&mut message, got as u128);
            message.append(" bytes, expected ");
            append_decimal(&mut message, expected);
            message.append(": ");
            message.append(url);
            AttemptError::retryable(message)
        },
    }
}

/// The standard phrase of a status; none where there is no such status or no such phrase.
pub uninterp spec fn reason_phrase(status: u16) -> Option<Seq<char>>;

/// Looks up the standard phrase of a status with `StatusCode::canonical_reason`. It depends on the
/// status alone.
#[verifier::external_body]
fn canonical_reason(status: u16) -> (r: Option<String>)
    ensures
        crate::models::text_of(r) == reason_phrase(status),
{
    reqwest::StatusCode::from_u16(status).ok().and_then(|s| s.canonical_reason()).map(
        |phrase| phrase.to_owned(),
    )
}

/// Puts a failure into words; `detail` is what the outside said.
pub fn describe_failure(failure: AttemptFailure, detail: &str, url: &str) -> (r: AttemptError)
    ensures
        r.message@ == failure_text(
            failure,
            detail@,
            url@,
            match failure {
                AttemptFailure::Status(status) => reason_phrase(status),
                _ => None,
            },
        ),
        r.retryable == worth_retrying(failure),
        r.cancelled == called_off(failure),
{
    let reason: Option<String> = match failure {
        AttemptFailure::Status(status) => canonical_reason(status),
        _ => None,
    };
    explain_failure(failure, detail, url, &reason)
}

/// No failure is both called off and worth another attempt.
pub proof fn called_off_is_not_retried(failure: AttemptFailure)
    ensures
        called_off(failure) ==> !worth_retrying(failure),
{
}

/// A failure is worth another attempt exactly when another may end otherwise: no response came, the status
/// is 408, 429 or of the five hundreds, the body broke off, or its length was wrong.
pub proof fn failures_worth_retrying(failure: AttemptFailure)
    ensures
        failure is Request || failure is Stream || failure is Empty || failure is Incomplete
            ==> worth_retrying(failure),
        failure matches AttemptFailure::Status(s) ==> (worth_retrying(failure) <==> s == 408 || s == 429
            || 500 <= s <= 599),
        failure is Cancelled || failure is CancelledInTransfer || failure is RangeNotSatisfiable
            || failure is OpenAppend || failure is Create || failure is Write || failure is Flush
            ==> !worth_retrying(failure),
        called_off(failure) <==> failure is Cancelled || failure is CancelledInTransfer,
{
}

/// Over a whole attempt: one that got a refusal is worth another exactly when the status that came is 408,
/// 429 or of the five hundreds.
pub proof fn a_refusal_is_retried_by_its_status(
    task_has_range: bool,
    events: Seq<(attempt::AttemptEvent, bool)>,
    failure: AttemptFailure,
)
    requires
        attempt::answers(task_has_range, events),
        attempt::played(task_has_range, events).1 == attempt::AttemptAction::Fail(failure),
        failure is Status || failure is RangeNotSatisfiable,
    ensures
        attempt::response_got(events) matches Some((status, _)) && (worth_retrying(failure) <==> status
            == 408 || status == 429 || 500 <= status <= 599),
{
    attempt::a_refusal_tells_the_status(task_has_range, events);
}

/// Whether a text ends with another.
pub open spec fn ends_with(text: Seq<char>, end: Seq<char>) -> bool {
    text.len() >= end.len() && text.skip(text.len() - end.len()) == end
}

proof fn lemma_ends_with(front: Seq<char>, end: Seq<char>)
    ensures
        ends_with(front + end, end),
        (front + end).take((front + end).len() - end.len()) == front,
{
    assert((front + end).skip(front.len() as int) =~= end);
    assert((front + end).take(front.len() as int) =~= front);
}

/// The words for a failure carry what is to be known of it: what the outside said where that failed, the
/// address where the server's answer is of no use, and the phrase of a status behind its number. What
/// stands before that does not depend on it.
pub proof fn a_failure_carries_its_particulars(
    failure: AttemptFailure,
    detail: Seq<char>,
    url: Seq<char>,
    reason: Option<Seq<char>>,
    other: Seq<char>,
)
    ensures
        ({
            let text = failure_text(failure, detail, url, reason);
            let outside = failure is Request || failure is OpenAppend || failure is Create
                || failure is Stream || failure is Write || failure is Flush;
            let address = failure is RangeNotSatisfiable || failure is Empty || failure is Incomplete;
            &&& outside ==> ends_with(text, detail) && text.take(text.len() - detail.len()) + other
                == failure_text(failure, other, url, reason)
            &&& address ==> ends_with(text, url) && text.take(text.len() - url.len()) + other
                == failure_text(failure, detail, other, reason)
            &&& !outside ==> text == failure_text(failure, other, url, reason)
            &&& !address ==> text == failure_text(failure, detail, other, reason)
            &&& failure matches AttemptFailure::Status(s) ==> {
                let number = text.skip(5).take(decimal(s as nat).len() as int);
                &&& reading(number) == s
                &&& text.len() > 5 + number.len()
                &&& text[5 + number.len() as int] == ' '
                &&& text.skip(6 + number.len() as int) == match reason {
                    Some(phrase) => phrase,
                    None => Seq::empty(),
                }
            }
        }),
{
    let text = failure_text(failure, detail, url, reason);
    reveal_strlit("HTTP ");
    reveal_strlit(" ");
    reveal_strlit("");
    match failure {
        AttemptFailure::Request => lemma_ends_with("Request failed: "@, detail),
        AttemptFailure::RangeNotSatisfiable => lemma_ends_with("HTTP 416 while resuming "@, url),
        AttemptFailure::OpenAppend => lemma_ends_with("Open append failed: "@, detail),
        AttemptFailure::Create => lemma_ends_with("Create temp file failed: "@, detail),
        AttemptFailure::Stream => lemma_ends_with("Stream read failed: "@, detail),
        AttemptFailure::Write => lemma_ends_with("Write failed: "@, detail),
        AttemptFailure::Flush => lemma_ends_with("Flush failed: "@, detail),
        AttemptFailure::Empty => lemma_ends_with("Downloaded file is empty: "@, url),
        AttemptFailure::Incomplete { got, expected } => lemma_ends_with(
            "Incomplete download: got "@ + decimal(got as nat) + " bytes, expected "@ + decimal(
                expected as nat,
            ) + ": "@,
            url,
        ),
        AttemptFailure::Status(s) => {
            a_numeral_reads_as_its_number(s as nat);
            let d = decimal(s as nat);
            let phrase = match reason {
                Some(phrase) => phrase,
                None => Seq::empty(),
            };
            assert(""@ =~= Seq::<char>::empty());
            assert(text =~= "HTTP "@ + d + " "@ + phrase);
            assert(text.skip(5).take(d.len() as int) =~= d);
            assert(text.skip(6 + d.len() as int) =~= phrase);
        },
        _ => {},
    }
}

/// A request for the rest of a file keeps all headers and adds one at the end: the range, whose first
/// number is where the part ends. One for the whole file adds nothing.
pub proof fn a_range_starts_where_the_part_ends(headers: Seq<(Seq<char>, Seq<char>)>, resume_from: nat)
    ensures
        with_range(headers, 0) == headers,
        resume_from > 0 ==> {
            let sent = with_range(headers, resume_from);
            let (name, value) = sent.last();
            &&& sent.drop_last() == headers
            &&& name == "range"@
            &&& value.len() > 7
            &&& value.take(6) == "bytes="@
            &&& value.last() == '-'
            &&& all_decimal(value.subrange(6, value.len() - 1))
            &&& reading(value.subrange(6, value.len() - 1)) == resume_from
        },
{
    if resume_from > 0 {
        a_numeral_reads_as_its_number(resume_from);
        reveal_strlit("bytes=");
        reveal_strlit("-");
        let d = decimal(resume_from);
        let value = "bytes="@ + d + "-"@;
        assert(value.take(6) =~= "bytes="@);
        assert(value.subrange(6, value.len() - 1) =~= d);
        assert(with_range(headers, resume_from).drop_last() =~= headers);
    }
}

/// The bytes of a text of digits.
pub open spec fn digit_bytes(s: Seq<char>) -> Seq<u8> {
    s.map_values(|c: char| c as u8)
}

proof fn lemma_bytes_read_alike(s: Seq<char>)
    requires
        all_decimal(s),
    ensures
        number_of(digit_bytes(s)) == reading(s),
        forall|i: int| 0 <= i < s.len() ==> 48 <= #[trigger] digit_bytes(s)[i] <= 57,
    decreases s.len(),
{
    assert forall|i: int| 0 <= i < s.len() implies 48 <= #[trigger] digit_bytes(s)[i] <= 57 by {
        assert('0' <= s[i] <= '9');
    }
    if s.len() > 0 {
        assert forall|i: int| 0 <= i < s.drop_last().len() implies '0' <= #[trigger] s.drop_last()[i]
            <= '9' by {
            assert('0' <= s[i] <= '9');
        }
        lemma_bytes_read_alike(s.drop_last());
        assert(digit_bytes(s).drop_last() =~= digit_bytes(s.drop_last()));
        assert('0' <= s[s.len() - 1] <= '9');
    }
}

/// Every number of 64 bits is read back from its numeral, with or without a plus sign before it; a greater
/// one is not read, nor is a text with anything but digits.
pub proof fn a_number_is_read_back(n: nat, s: Seq<u8>, i: int)
    ensures
        n <= u64::MAX ==> parsed_number(digit_bytes(decimal(n))) == Some(n as u64),
        n <= u64::MAX ==> parsed_number(seq![43u8] + digit_bytes(decimal(n))) == Some(n as u64),
        n > u64::MAX ==> parsed_number(digit_bytes(decimal(n))) is None,
        s.len() == 0 ==> parsed_number(s) is None,
        s == seq![43u8] ==> parsed_number(s) is None,
        0 < i < s.len() && !(48 <= s[i] <= 57) ==> parsed_number(s) is None,
        s.len() > 0 && !(48 <= s[0] <= 57) && s[0] != 43 ==> parsed_number(s) is None,
{
    a_numeral_reads_as_its_number(n);
    let d = decimal(n);
    lemma_bytes_read_alike(d);
    let b = digit_bytes(d);
    assert(48 <= b[0] <= 57);
    assert((seq![43u8] + b).drop_first() =~= b);
    if 0 < i < s.len() && s[0] == 43 {
        assert(s.drop_first()[i - 1] == s[i]);
    }
}

/// The server tells a length only with a success.
pub proof fn a_length_needs_success(status: u16, header: Option<Seq<u8>>)
    ensures
        status / 100 != 2 || header is None ==> told_length(status, header) is None,
        status / 100 == 2 && header is Some ==> told_length(status, header) == parsed_number(header->0),
{
}

} // verus!
