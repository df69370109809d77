//! The decisions behind the daemon's HTTP routes: which command a Slack
//! approval request carries, whether it is authorized, and what is answered.
use vstd::prelude::*;
use vstd::utf8::*;
use vstd::string::StringExecFns;
use vstd::string::StrSliceExecFns;
use crate::text::{starts_with_seq, chars_of, has_prefix, find_char, lemma_find_char};
use crate::config::Config;
use crate::approval::{
    ValidationReport, validate_command, lossy_text, utf8_lossy, expected_slack_signature,
    verify_slack_signature, issue_views, validation_issues, report_approved, report_reason,
};

verus! {

/// The string fields of a Slack JSON body that carry a command: top-level
/// `text`, the `value` of the first element of `actions`, and
/// `message.text`, each where it is a JSON string.
pub struct SlackFields {
    pub text: Option<String>,
    pub action_value: Option<String>,
    pub message_text: Option<String>,
}

pub open spec fn opt_view(o: Option<String>) -> Option<Seq<char>> {
    match o {
        Some(s) => Some(s@),
        None => None,
    }
}

impl View for SlackFields {
    type V = (Option<Seq<char>>, Option<Seq<char>>, Option<Seq<char>>);

    open spec fn view(&self) -> Self::V {
        (opt_view(self.text), opt_view(self.action_value), opt_view(self.message_text))
    }
}

/// The command-carrying fields of `body` read as JSON, or `None` where
/// `body` is not JSON.
pub uninterp spec fn slack_json(body: Seq<char>) -> Option<
    (Option<Seq<char>>, Option<Seq<char>>, Option<Seq<char>>),
>;

/// An ASCII hex digit, either case.
pub open spec fn is_hex_digit(b: u8) -> bool {
    (48 <= b <= 57) || (65 <= b <= 70) || (97 <= b <= 102)
}

/// The value of an ASCII hex digit.
pub open spec fn hex_value(b: u8) -> int {
    if 48 <= b <= 57 {
        b - 48
    } else if 65 <= b <= 70 {
        b - 55
    } else {
        b - 87
    }
}

/// Percent-decoding of bytes as `urlencoding::decode_binary` does it: `%`
/// and two hex digits become that byte; a `%` with one hex digit after it
/// stays with that digit, a `%` with none stays alone, and a `%` with fewer
/// than two bytes after it ends the input unchanged; `+` is kept.
pub open spec fn percent_decode(b: Seq<u8>) -> Seq<u8>
    decreases b.len(),
{
    if b.len() == 0 {
        seq![]
    } else if b[0] != 37u8 {
        seq![b[0]] + percent_decode(b.drop_first())
    } else if b.len() < 3 {
        b
    } else if is_hex_digit(b[1]) && is_hex_digit(b[2]) {
        seq![(hex_value(b[1]) * 16 + hex_value(b[2])) as u8] + percent_decode(
            b.subrange(3, b.len() as int),
        )
    } else if is_hex_digit(b[1]) {
        seq![37u8, b[1]] + percent_decode(b.subrange(2, b.len() as int))
    } else {
        seq![37u8] + percent_decode(b.drop_first())
    }
}

/// `urlencoding::decode`: the percent-decoded UTF-8 bytes of `s`, or `None`
/// where they are not UTF-8.
pub open spec fn url_decoded(s: Seq<char>) -> Option<Seq<char>> {
    let out = percent_decode(encode_utf8(s));
    if valid_utf8(out) {
        Some(decode_utf8(out))
    } else {
        None
    }
}

/// Percent-decoding never lengthens its input.
pub proof fn lemma_percent_decode_len(b: Seq<u8>)
    ensures
        percent_decode(b).len() <= b.len(),
    decreases b.len(),
{
    if b.len() > 0 {
        if b[0] != 37u8 {
            lemma_percent_decode_len(b.drop_first());
        } else if b.len() < 3 {
        } else if is_hex_digit(b[1]) && is_hex_digit(b[2]) {
            lemma_percent_decode_len(b.subrange(3, b.len() as int));
        } else if is_hex_digit(b[1]) {
            lemma_percent_decode_len(b.subrange(2, b.len() as int));
        } else {
            lemma_percent_decode_len(b.drop_first());
        }
    }
}

/// A decoded text is never longer in UTF-8 bytes than what was decoded.
pub proof fn lemma_url_decoded_len(s: Seq<char>)
    ensures
        url_decoded(s) matches Some(d) ==> encode_utf8(d).len() <= encode_utf8(s).len(),
{
    let out = percent_decode(encode_utf8(s));
    lemma_percent_decode_len(encode_utf8(s));
    if valid_utf8(out) {
        decode_utf8_encode_utf8(out);
    }
}

/// Parses `body` with `serde_json::from_str::<serde_json::Value>` and reads
/// `Value::get("text")`, `Value::get("actions")` → `as_array` → `first` →
/// `get("value")`, and `Value::pointer("/message/text")`, each through
/// `Value::as_str`. What comes back is named `slack_json`.
#[verifier::external_body]
fn slack_json_fields(body: &str) -> (r: Option<SlackFields>)
    ensures
        match r {
            Some(f) => slack_json(body@) == Some(f@),
            None => slack_json(body@) is None,
        },
{
    let json: serde_json::Value = match serde_json::from_str(body) {
        Ok(v) => v,
        Err(_) => return None,
    };
    let first_action = json.get("actions").and_then(serde_json::Value::as_array).and_then(|a| a.first());
    Some(SlackFields {
        text: json.get("text").and_then(serde_json::Value::as_str).map(String::from),
        action_value: first_action.and_then(|a| a.get("value")).and_then(serde_json::Value::as_str)
            .map(String::from),
        message_text: json.pointer("/message/text").and_then(serde_json::Value::as_str).map(String::from),
    })
}

/// Calls `urlencoding::decode`: `decode_binary` percent-decodes the bytes
/// of `s` (as `percent_decode` states), and the result is the input itself
/// where it holds no `%`, else `String::from_utf8` of the decoded bytes.
#[verifier::external_body]
fn url_decode(s: &str) -> (r: Option<String>)
    ensures
        match r {
            Some(d) => url_decoded(s@) == Some(d@),
            None => url_decoded(s@) is None,
        },
{
    match urlencoding::decode(s) {
        Ok(d) => Some(d.into_owned()),
        Err(_) => None,
    }
}

/// `s.lines().next().unwrap_or(s)`: the text before the first line feed,
/// without a carriage return that directly precedes it; all of `s` where it
/// holds no line feed.
pub open spec fn first_line(s: Seq<char>) -> Seq<char> {
    let k = find_char(s, '\n', 0);
    if k == s.len() {
        s
    } else if k > 0 && s[k - 1] == '\r' {
        s.subrange(0, k - 1)
    } else {
        s.subrange(0, k)
    }
}

/// The command a Slack approval request carries: from a JSON body its
/// `text`, else the first action's `value`, else `message.text`; from a
/// `payload=` form body, the command of the percent-decoded payload;
/// otherwise the first line of the body.
pub open spec fn slack_command(body: Seq<char>) -> Seq<char>
    decreases encode_utf8(body).len(),
{
    match slack_json(body) {
        Some((Some(t), _, _)) => t,
        Some((None, Some(v), _)) => v,
        Some((None, None, Some(m))) => m,
        _ => {
            if starts_with_seq(body, "payload="@) {
                match url_decoded(body.subrange(8, body.len() as int)) {
                    Some(d) => {
                        if encode_utf8(d).len() < encode_utf8(body).len() {
                            slack_command(d)
                        } else {
                            first_line(body)
                        }
                    },
                    None => first_line(body),
                }
            } else {
                first_line(body)
            }
        },
    }
}

proof fn lemma_find_char_absent(s: Seq<char>, c: char, from: int)
    requires
        0 <= from,
        forall|i: int| 0 <= i < s.len() ==> s[i] != c,
    ensures
        find_char(s, c, from) == s.len(),
    decreases s.len() - from,
{
    if from < s.len() {
        lemma_find_char_absent(s, c, from + 1);
    }
}

/// A body that carries no command field as JSON, does not start with
/// `payload=` and holds no line feed is itself the command.
pub proof fn lemma_plain_body_is_command(body: Seq<char>)
    requires
        match slack_json(body) {
            Some((t, v, m)) => t is None && v is None && m is None,
            None => true,
        },
        !starts_with_seq(body, "payload="@),
        forall|i: int| 0 <= i < body.len() ==> body[i] != '\n',
    ensures
        slack_command(body) == body,
{
    lemma_find_char_absent(body, '\n', 0);
}

/// A body that carries no command field as JSON and does not start with
/// `payload=` carries the text before its first line feed, without a
/// carriage return directly before that line feed.
pub proof fn lemma_plain_body_first_line(body: Seq<char>, k: int)
    requires
        match slack_json(body) {
            Some((t, v, m)) => t is None && v is None && m is None,
            None => true,
        },
        !starts_with_seq(body, "payload="@),
        0 <= k < body.len(),
        body[k] == '\n',
        forall|j: int| 0 <= j < k ==> body[j] != '\n',
    ensures
        slack_command(body) == (if k > 0 && body[k - 1] == '\r' {
            body.take(k - 1)
        } else {
            body.take(k)
        }),
{
    lemma_find_char(body, '\n', 0);
    assert(find_char(body, '\n', 0) == k);
}

/// UTF-8 length adds up over concatenation.
pub proof fn lemma_encode_utf8_concat(a: Seq<char>, b: Seq<char>)
    ensures
        encode_utf8(a + b) == encode_utf8(a) + encode_utf8(b),
    decreases a.len(),
{
    if a.len() == 0 {
        assert(a + b =~= b);
        assert(encode_utf8(a) + encode_utf8(b) =~= encode_utf8(b));
    } else {
        lemma_encode_utf8_concat(a.drop_first(), b);
        assert((a + b).drop_first() =~= a.drop_first() + b);
        assert((a + b)[0] == a[0]);
        assert(encode_utf8(a + b) =~= encode_utf8(a) + encode_utf8(b));
    }
}

/// Every character takes at least one byte.
pub proof fn lemma_encode_utf8_len(s: Seq<char>)
    ensures
        encode_utf8(s).len() >= s.len(),
    decreases s.len(),
{
    if s.len() > 0 {
        lemma_encode_utf8_len(s.drop_first());
    }
}

/// `s.lines().next().unwrap_or(s)` as a new `String`.
pub fn first_line_of(s: &str) -> (r: String)
    ensures
        r@ == first_line(s@),
{
    let chars = chars_of(s);
    let mut k: usize = 0;
    while k < chars.len() && chars[k] != '\n'
        invariant
            k <= chars.len(),
            chars@ == s@,
            find_char(s@, '\n', 0) == find_char(s@, '\n', k as int),
        decreases chars.len() - k,
    {
        k = k + 1;
    }
    if k == chars.len() {
        return String::from_str(s);
    }
    if k > 0 && chars[k - 1] == '\r' {
        String::from_str(s.substring_char(0, k - 1))
    } else {
        String::from_str(s.substring_char(0, k))
    }
}

/// The JSON reading of a body carries no command field (or the body is
/// not JSON).
pub open spec fn no_command_field(
    json: Option<(Option<Seq<char>>, Option<Seq<char>>, Option<Seq<char>>)>,
) -> bool {
    match json {
        Some((t, v, m)) => t is None && v is None && m is None,
        None => true,
    }
}

/// The percent-decoded payload of a `payload=` body is shorter in UTF-8
/// bytes than the body.
pub open spec fn payload_shrinks(body: Seq<char>) -> bool {
    match url_decoded(body.subrange(8, body.len() as int)) {
        Some(d) => encode_utf8(d).len() < encode_utf8(body).len(),
        None => true,
    }
}

/// The decoded payload of a `payload=` body is shorter than the body.
pub proof fn lemma_payload_shrinks(body: Seq<char>)
    requires
        starts_with_seq(body, "payload="@),
    ensures
        payload_shrinks(body),
{
    reveal_strlit("payload=");
    let rest = body.subrange(8, body.len() as int);
    assert(body =~= body.subrange(0, 8) + rest);
    lemma_encode_utf8_concat(body.subrange(0, 8), rest);
    lemma_encode_utf8_len(body.subrange(0, 8));
    lemma_url_decoded_len(rest);
}

/// A `payload=` body without JSON command fields whose payload decodes
/// carries the command of the decoded payload.
pub proof fn lemma_payload_command(body: Seq<char>, decoded: Seq<char>)
    requires
        no_command_field(slack_json(body)),
        starts_with_seq(body, "payload="@),
        url_decoded(body.subrange(8, body.len() as int)) == Some(decoded),
    ensures
        slack_command(body) == slack_command(decoded),
{
    lemma_payload_shrinks(body);
}

/// A JSON body with a string `text` field carries that text, whatever its
/// actions and message hold.
pub proof fn lemma_json_text_first(
    body: Seq<char>,
    t: Seq<char>,
    v: Option<Seq<char>>,
    m: Option<Seq<char>>,
)
    requires
        slack_json(body) == Some((Some(t), v, m)),
    ensures
        slack_command(body) == t,
{
}

/// A JSON body with no string `text` field whose first action has a
/// string `value` carries that value, whatever `message.text` holds (a
/// Slack button press names the command in the button, not in the
/// message it sits under).
pub proof fn lemma_json_action_before_message(
    body: Seq<char>,
    v: Seq<char>,
    m: Option<Seq<char>>,
)
    requires
        slack_json(body) == Some((None::<Seq<char>>, Some(v), m)),
    ensures
        slack_command(body) == v,
{
}

/// `message.text` is read only from a JSON body with neither a string
/// `text` field nor a first action `value`.
pub proof fn lemma_json_message_last(body: Seq<char>, m: Seq<char>)
    requires
        slack_json(body) == Some((None::<Seq<char>>, None::<Seq<char>>, Some(m))),
    ensures
        slack_command(body) == m,
{
}

/// Reads the command out of a Slack approval request body: JSON `text`,
/// then the first action's `value`, then `message.text`; a `payload=` form
/// body is percent-decoded and read again; otherwise the body's first line.
/// A `payload=` body carries the command of its decoded payload
/// (`lemma_payload_command`).
pub fn extract_slack_command(body: &str) -> (r: String)
    ensures
        r@ == slack_command(body@),
    decreases encode_utf8(body@).len(),
{
    match slack_json_fields(body) {
        Some(fields) => {
            match fields.text {
                Some(t) => {
                    return t;
                },
                None => {},
            }
            match fields.action_value {
                Some(v) => {
                    return v;
                },
                None => {},
            }
            match fields.message_text {
                Some(m) => {
                    return m;
                },
                None => {},
            }
        },
        None => {},
    }
    let chars = chars_of(body);
    if has_prefix(&chars, &chars_of("payload=")) {
        proof {
            reveal_strlit("payload=");
        }
        let rest = body.substring_char(8, body.unicode_len());
        match url_decode(rest) {
            Some(decoded) => {
                proof {
                    assert(rest@ == body@.subrange(8, body@.len() as int));
                    lemma_payload_shrinks(body@);
                }
                return extract_slack_command(decoded.as_str());
            },
            None => {},
        }
    }
    first_line_of(body)
}


/// What the HTTP handlers share.
pub struct AppState {
    pub config: Config,
}

/// The webhook a `/webhook/send` request goes to: the one in the request,
/// else the configured default.
pub fn webhook_target(requested: Option<String>, config: &Config) -> (r: String)
    ensures
        r@ == match requested {
            Some(u) => u@,
            None => config.notifications.default_webhook@,
        },
{
    match requested {
        Some(u) => u,
        None => config.notifications.default_webhook.clone(),
    }
}

/// The answer to an authorized Slack approval request.
pub struct SlackApproval {
    pub report: ValidationReport,
    /// The spine subject the outcome is published under.
    pub subject: String,
    /// The text shown in the Slack channel.
    pub text: String,
}

/// Whether a Slack approval request is refused as unauthorized: a signing
/// secret is configured and the signature does not match.
pub open spec fn slack_unauthorized(
    signing_secret: Seq<char>,
    timestamp: Seq<char>,
    body: Seq<u8>,
    signature: Seq<char>,
) -> bool {
    signing_secret.len() > 0 && signature != expected_slack_signature(
        signing_secret,
        timestamp,
        body,
    )
}

/// Handles a Slack approval request: with a signing secret configured the
/// request's signature must match (else `None`, answered 401); the command
/// the body carries is validated, and the outcome is published as
/// `mouth.approval.validated` or `mouth.approval.rejected` and shown as
/// `✅ Approved: {reason}` or `❌ Rejected: {reason}`.
pub fn slack_approval_outcome(
    signing_secret: &str,
    timestamp: &str,
    signature: &str,
    body: &[u8],
) -> (r: Option<SlackApproval>)
    ensures
        r is None <==> slack_unauthorized(signing_secret@, timestamp@, body@, signature@),
        r matches Some(a) ==> {
            let command = slack_command(utf8_lossy(body@));
            let issues = validation_issues(command);
            let approved = report_approved(issues);
            &&& a.report.command@ == command
            &&& issue_views(a.report.issues@) == issues
            &&& a.report.approved == approved
            &&& a.report.reason@ == report_reason(issues)
            &&& a.subject@ == (if approved {
                "mouth.approval.validated"@
            } else {
                "mouth.approval.rejected"@
            })
            &&& a.text@ == (if approved {
                "✅ Approved: "@
            } else {
                "❌ Rejected: "@
            }) + report_reason(issues)
        },
{
    if !signing_secret.is_empty() {
        if !verify_slack_signature(signing_secret, timestamp, body, signature) {
            return None;
        }
    }
    let body_text = lossy_text(body);
    let command = extract_slack_command(body_text.as_str());
    let report = validate_command(command.as_str());
    let subject = if report.approved {
        String::from_str("mouth.approval.validated")
    } else {
        String::from_str("mouth.approval.rejected")
    };
    let mut text = if report.approved {
        String::from_str("✅ Approved: ")
    } else {
        String::from_str("❌ Rejected: ")
    };
    text.append(report.reason.as_str());
    Some(SlackApproval { report, subject, text })
}

} // verus!
