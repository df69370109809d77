//! Log summaries: the local keyword count, and what an AI summary is sent.
use vstd::prelude::*;
use vstd::utf8::*;
use vstd::string::StringExecFns;
use crate::text::{starts_with_seq, contains_seq, lowercase, chars_of, has_infix, to_lowercase, decimal, decimal_text};
use crate::serve::lemma_encode_utf8_concat;
use crate::text::{find_char, push_char, strip_cr, lines_of};
use crate::syntax::{byte_range_text, text_in_range};

verus! {

/// The lowercased line holds `word`.
pub open spec fn mentions(line: Seq<char>, word: Seq<char>) -> bool {
    contains_seq(lowercase(line), word)
}

/// How many of the lines mention `word`.
pub open spec fn count_mentions(lines: Seq<Seq<char>>, word: Seq<char>) -> nat
    decreases lines.len(),
{
    if lines.len() == 0 {
        0
    } else {
        count_mentions(lines.drop_last(), word) + (if mentions(lines.last(), word) {
            1nat
        } else {
            0nat
        })
    }
}

/// A line that reports a problem: it mentions `error`, `fail` or `panic`.
pub open spec fn is_issue_line(line: Seq<char>) -> bool {
    mentions(line, "error"@) || mentions(line, "fail"@) || mentions(line, "panic"@)
}

/// The lines that report a problem, in order.
pub open spec fn issue_lines(lines: Seq<Seq<char>>) -> Seq<Seq<char>>
    decreases lines.len(),
{
    if lines.len() == 0 {
        seq![]
    } else {
        issue_lines(lines.drop_last()) + (if is_issue_line(lines.last()) {
            seq![lines.last()]
        } else {
            seq![]
        })
    }
}

/// At most this many problem lines are listed.
pub open spec fn max_listed() -> nat {
    20
}

/// The counts and listed lines of a local summary.
pub struct LocalSummary {
    pub total_lines: usize,
    pub errors: usize,
    pub warnings: usize,
    pub failures: usize,
    pub traces: usize,
    pub debugs: usize,
    /// The first problem lines, untruncated.
    pub issues: Vec<String>,
}

/// The listed lines of a summary, each taken by its view.
pub open spec fn line_views(lines: Seq<String>) -> Seq<Seq<char>> {
    lines.map_values(|l: String| l@)
}

/// The summary a log text gets: line count, the number of lines that
/// mention `error`, `warn`, `fail`, `trace` and `debug` (case-insensitively),
/// and the first twenty lines that mention `error`, `fail` or `panic`.
pub open spec fn summary_of(input: Seq<char>, r: LocalSummary) -> bool {
    let lines = lines_of(input);
    &&& r.total_lines == lines.len()
    &&& r.errors == count_mentions(lines, "error"@)
    &&& r.warnings == count_mentions(lines, "warn"@)
    &&& r.failures == count_mentions(lines, "fail"@)
    &&& r.traces == count_mentions(lines, "trace"@)
    &&& r.debugs == count_mentions(lines, "debug"@)
    &&& line_views(r.issues@) == issue_lines(lines).take(
        if issue_lines(lines).len() < max_listed() {
            issue_lines(lines).len() as int
        } else {
            max_listed() as int
        },
    )
}

proof fn lemma_count_le(lines: Seq<Seq<char>>, word: Seq<char>)
    ensures
        count_mentions(lines, word) <= lines.len(),
    decreases lines.len(),
{
    if lines.len() > 0 {
        lemma_count_le(lines.drop_last(), word);
    }
}

proof fn lemma_issue_lines_sound(lines: Seq<Seq<char>>)
    ensures
        issue_lines(lines).len() <= lines.len(),
        forall|i: int|
            0 <= i < issue_lines(lines).len() ==> is_issue_line(#[trigger] issue_lines(lines)[i]),
    decreases lines.len(),
{
    if lines.len() > 0 {
        lemma_issue_lines_sound(lines.drop_last());
        let a = issue_lines(lines.drop_last());
        assert forall|i: int|
            0 <= i < issue_lines(lines).len() implies is_issue_line(
            #[trigger] issue_lines(lines)[i],
        ) by {
            if i < a.len() {
                assert(issue_lines(lines)[i] == a[i]);
            }
        }
    }
}

/// Every count of a local summary is at most the number of lines, at most
/// twenty problem lines are listed, and each listed line mentions `error`,
/// `fail` or `panic`.
pub proof fn lemma_summary_bounds(input: Seq<char>)
    ensures
        count_mentions(lines_of(input), "error"@) <= lines_of(input).len(),
        count_mentions(lines_of(input), "warn"@) <= lines_of(input).len(),
        count_mentions(lines_of(input), "fail"@) <= lines_of(input).len(),
        count_mentions(lines_of(input), "trace"@) <= lines_of(input).len(),
        count_mentions(lines_of(input), "debug"@) <= lines_of(input).len(),
        listed_lines(input).len() <= max_listed(),
        listed_lines(input).len() <= lines_of(input).len(),
        forall|i: int|
            0 <= i < listed_lines(input).len() ==> is_issue_line(#[trigger] listed_lines(input)[i]),
{
    let lines = lines_of(input);
    lemma_count_le(lines, "error"@);
    lemma_count_le(lines, "warn"@);
    lemma_count_le(lines, "fail"@);
    lemma_count_le(lines, "trace"@);
    lemma_count_le(lines, "debug"@);
    lemma_issue_lines_sound(lines);
    let il = issue_lines(lines);
    assert forall|i: int| 0 <= i < listed_lines(input).len() implies is_issue_line(
        #[trigger] listed_lines(input)[i],
    ) by {
        assert(listed_lines(input)[i] == il[i]);
    }
}

/// Counting the lines that mention `word` is filtering the lines by
/// whether their lowercase holds `word`.
proof fn lemma_count_is_filter(lines: Seq<Seq<char>>, word: Seq<char>)
    ensures
        count_mentions(lines, word) == lines.filter(
            |l: Seq<char>| contains_seq(lowercase(l), word),
        ).len(),
    decreases lines.len(),
{
    reveal(Seq::filter);
    if lines.len() > 0 {
        lemma_count_is_filter(lines.drop_last(), word);
    }
}

/// The problem lines are the lines whose lowercase holds `error`, `fail`
/// or `panic`, in order.
proof fn lemma_issue_lines_is_filter(lines: Seq<Seq<char>>)
    ensures
        issue_lines(lines) == lines.filter(
            |l: Seq<char>|
                contains_seq(lowercase(l), "error"@) || contains_seq(lowercase(l), "fail"@)
                    || contains_seq(lowercase(l), "panic"@),
        ),
    decreases lines.len(),
{
    reveal(Seq::filter);
    if lines.len() > 0 {
        lemma_issue_lines_is_filter(lines.drop_last());
    }
}

/// A local summary counts, for each of `error`, `warn`, `fail`, `trace`
/// and `debug`, the lines of the log whose lowercase holds that word
/// anywhere (so `FAIL`, `failed` and `--- FAIL:` lines all count as
/// failures), and lists the first twenty lines whose lowercase holds
/// `error`, `fail` or `panic`, in log order.
pub proof fn lemma_summary_counts_lines(input: Seq<char>, r: LocalSummary)
    requires
        summary_of(input, r),
    ensures
        r.total_lines == lines_of(input).len(),
        r.errors == lines_of(input).filter(
            |l: Seq<char>| contains_seq(lowercase(l), "error"@),
        ).len(),
        r.warnings == lines_of(input).filter(
            |l: Seq<char>| contains_seq(lowercase(l), "warn"@),
        ).len(),
        r.failures == lines_of(input).filter(
            |l: Seq<char>| contains_seq(lowercase(l), "fail"@),
        ).len(),
        r.traces == lines_of(input).filter(
            |l: Seq<char>| contains_seq(lowercase(l), "trace"@),
        ).len(),
        r.debugs == lines_of(input).filter(
            |l: Seq<char>| contains_seq(lowercase(l), "debug"@),
        ).len(),
        ({
            let problems = lines_of(input).filter(
                |l: Seq<char>|
                    contains_seq(lowercase(l), "error"@) || contains_seq(lowercase(l), "fail"@)
                        || contains_seq(lowercase(l), "panic"@),
            );
            line_views(r.issues@) == problems.take(
                if problems.len() < 20 {
                    problems.len() as int
                } else {
                    20
                },
            )
        }),
{
    let lines = lines_of(input);
    lemma_count_is_filter(lines, "error"@);
    lemma_count_is_filter(lines, "warn"@);
    lemma_count_is_filter(lines, "fail"@);
    lemma_count_is_filter(lines, "trace"@);
    lemma_count_is_filter(lines, "debug"@);
    lemma_issue_lines_is_filter(lines);
}

/// The line of `chars` that starts at `start`, and where the next one starts.
fn next_line(chars: &Vec<char>, start: usize) -> (r: (String, usize))
    requires
        start < chars.len(),
    ensures
        ({
            let rest = chars@.subrange(start as int, chars.len() as int);
            &&& start < r.1 <= chars.len()
            &&& lines_of(rest) == seq![r.0@] + lines_of(
                chars@.subrange(r.1 as int, chars.len() as int),
            )
        }),
{
    let ghost rest = chars@.subrange(start as int, chars.len() as int);
    let mut line = String::new();
    let mut j: usize = start;
    while j < chars.len() && chars[j] != '\n'
        invariant
            start <= j <= chars.len(),
            rest == chars@.subrange(start as int, chars.len() as int),
            line@ == chars@.subrange(start as int, j as int),
            find_char(rest, '\n', 0) == find_char(rest, '\n', j - start),
        decreases chars.len() - j,
    {
        push_char(&mut line, chars[j]);
        assert(line@ =~= chars@.subrange(start as int, j + 1));
        j = j + 1;
    }
    if j == chars.len() {
        assert(line@ =~= rest);
        assert(lines_of(chars@.subrange(j as int, chars.len() as int)) =~= Seq::<Seq<char>>::empty());
        assert(seq![line@] + Seq::<Seq<char>>::empty() =~= seq![line@]);
        return (line, j);
    }
    assert(find_char(rest, '\n', j - start) == j - start);
    assert(rest.subrange(0, j - start) =~= line@);
    assert(rest.subrange(j - start + 1, rest.len() as int) =~= chars@.subrange(
        j + 1,
        chars.len() as int,
    ));
    let ghost raw = line@;
    if j > start && chars[j - 1] == '\r' {
        let mut stripped = String::new();
        let mut i: usize = start;
        while i < j - 1
            invariant
                start <= i <= j - 1,
                j < chars.len(),
                stripped@ == chars@.subrange(start as int, i as int),
            decreases j - 1 - i,
        {
            push_char(&mut stripped, chars[i]);
            assert(stripped@ =~= chars@.subrange(start as int, i + 1));
            i = i + 1;
        }
        assert(stripped@ =~= strip_cr(raw));
        (stripped, j + 1)
    } else {
        (line, j + 1)
    }
}

/// Whether the lowercase of `line` holds `word`.
fn line_mentions(lower: &Vec<char>, word: &str) -> (r: bool)
    ensures
        r == contains_seq(lower@, word@),
{
    has_infix(lower, &chars_of(word))
}

/// Counts the lines of a log text that mention errors, warnings, failures,
/// traces and debug output (case-insensitively) and keeps the first twenty
/// lines that mention `error`, `fail` or `panic`.
pub fn local_summary(input: &str) -> (r: LocalSummary)
    ensures
        summary_of(input@, r),
{
    let chars = chars_of(input);
    let mut pos: usize = 0;
    let ghost mut done: Seq<Seq<char>> = seq![];
    let mut total: usize = 0;
    let mut errors: usize = 0;
    let mut warnings: usize = 0;
    let mut failures: usize = 0;
    let mut traces: usize = 0;
    let mut debugs: usize = 0;
    let mut issues: Vec<String> = Vec::new();
    assert(chars@.subrange(0, chars.len() as int) =~= input@);
    while pos < chars.len()
        invariant
            chars@ == input@,
            pos <= chars.len(),
            lines_of(input@) == done + lines_of(chars@.subrange(pos as int, chars.len() as int)),
            done.len() <= pos,
            total == done.len(),
            errors == count_mentions(done, "error"@),
            warnings == count_mentions(done, "warn"@),
            failures == count_mentions(done, "fail"@),
            traces == count_mentions(done, "trace"@),
            debugs == count_mentions(done, "debug"@),
            line_views(issues@) == issue_lines(done).take(
                if issue_lines(done).len() < 20 {
                    issue_lines(done).len() as int
                } else {
                    20
                },
            ),
        decreases chars.len() - pos,
    {
        let (line, next) = next_line(&chars, pos);
        let ghost before = done;
        proof {
            done = done.push(line@);
            assert(done.drop_last() =~= before);
            assert(before + lines_of(chars@.subrange(pos as int, chars.len() as int)) =~= done
                + lines_of(chars@.subrange(next as int, chars.len() as int)));
            lemma_count_le(before, "error"@);
            lemma_count_le(before, "warn"@);
            lemma_count_le(before, "fail"@);
            lemma_count_le(before, "trace"@);
            lemma_count_le(before, "debug"@);
        }
        let lowered = to_lowercase(line.as_str());
        let lower = chars_of(lowered.as_str());
        total = total + 1;
        let e = line_mentions(&lower, "error");
        let f = line_mentions(&lower, "fail");
        let p = line_mentions(&lower, "panic");
        if e {
            errors = errors + 1;
        }
        if line_mentions(&lower, "warn") {
            warnings = warnings + 1;
        }
        if f {
            failures = failures + 1;
        }
        if line_mentions(&lower, "trace") {
            traces = traces + 1;
        }
        if line_mentions(&lower, "debug") {
            debugs = debugs + 1;
        }
        let ghost old_issues = line_views(issues@);
        if (e || f || p) && issues.len() < 20 {
            issues.push(line);
            assert(line_views(issues@) =~= old_issues.push(done.last()));
        }
        proof {
            let il = issue_lines(done);
            let ib = issue_lines(before);
            if is_issue_line(done.last()) {
                assert(il =~= ib.push(done.last()));
            } else {
                assert(il =~= ib);
            }
            if ib.len() < 20 {
                assert(ib.take(ib.len() as int) =~= ib);
            }
            if il.len() < 20 {
                assert(il.take(il.len() as int) =~= il);
            }
            if ib.len() >= 20 {
                assert(il.take(20) =~= ib.take(20));
            }
        }
        pos = next;
    }
    assert(chars@.subrange(pos as int, chars.len() as int) =~= Seq::<char>::empty());
    assert(done + Seq::<Seq<char>>::empty() =~= done);
    LocalSummary { total_lines: total, errors, warnings, failures, traces, debugs, issues }
}


/// The UTF-8 width of a character.
fn char_width(c: char) -> (w: usize)
    ensures
        w == encode_scalar(c as u32).len(),
{
    proof {
        char_is_scalar(c);
    }
    let u = c as u32;
    if u <= 0x7f {
        1
    } else if u <= 0x7ff {
        2
    } else if u <= 0xffff {
        3
    } else {
        4
    }
}

pub proof fn lemma_encode_push(s: Seq<char>, c: char)
    ensures
        encode_utf8(s.push(c)) == encode_utf8(s) + encode_scalar(c as u32),
{
    lemma_encode_utf8_concat(s, seq![c]);
    assert(s.push(c) =~= s + seq![c]);
    assert(seq![c].drop_first() =~= Seq::<char>::empty());
    assert(encode_utf8(Seq::<char>::empty()) =~= Seq::<u8>::empty());
    assert(seq![c][0] == c);
    assert(encode_utf8(seq![c]) =~= encode_scalar(c as u32));
}

/// Whether the UTF-8 encoding of `chars` is longer than `limit` bytes.
fn utf8_len_exceeds(chars: &Vec<char>, limit: usize) -> (r: bool)
    requires
        limit < 1_000_000,
    ensures
        r == (encode_utf8(chars@).len() > limit),
{
    let mut acc: usize = 0;
    let mut i: usize = 0;
    while i < chars.len() && acc <= limit
        invariant
            i <= chars.len(),
            limit < 1_000_000,
            acc <= limit + 4,
            acc == encode_utf8(chars@.take(i as int)).len(),
        decreases chars.len() - i,
    {
        proof {
            lemma_encode_push(chars@.take(i as int), chars@[i as int]);
            assert(chars@.take(i + 1) =~= chars@.take(i as int).push(chars@[i as int]));
        }
        acc = acc + char_width(chars[i]);
        i = i + 1;
    }
    proof {
        lemma_encode_utf8_concat(chars@.take(i as int), chars@.skip(i as int));
        assert(chars@.take(i as int) + chars@.skip(i as int) =~= chars@);
    }
    acc > limit
}

/// A listed line is cut to its first 117 bytes and `...` when it is longer
/// than 120 bytes.
pub open spec fn truncated_line(l: Seq<char>) -> Seq<char> {
    let b = encode_utf8(l);
    if b.len() > 120 {
        decode_utf8(b.subrange(0, 117)) + "..."@
    } else {
        l
    }
}

/// Cutting the line at byte 117 is defined: a line longer than 120 bytes
/// has a character boundary there.
pub open spec fn truncatable(l: Seq<char>) -> bool {
    encode_utf8(l).len() > 120 ==> is_char_boundary(encode_utf8(l), 117)
}

/// Decoding the first `n` bytes of a text, cut at a character boundary,
/// gives its first `p` characters, which take exactly `n` bytes.
proof fn lemma_byte_prefix(s: Seq<char>, n: int) -> (p: int)
    requires
        is_char_boundary(encode_utf8(s), n),
    ensures
        0 <= p <= s.len(),
        encode_utf8(s.take(p)).len() == n,
        decode_utf8(encode_utf8(s).subrange(0, n)) == s.take(p),
{
    let b = encode_utf8(s);
    encode_utf8_valid_utf8(s);
    encode_utf8_decode_utf8(s);
    valid_utf8_split(b, n);
    decode_utf8_split(b, n);
    let head = decode_utf8(b.subrange(0, n));
    decode_utf8_encode_utf8(b.subrange(0, n));
    assert(s == head + decode_utf8(b.subrange(n, b.len() as int)));
    assert(s.take(head.len() as int) =~= head);
    head.len() as int
}

/// A listed line longer than 120 bytes is shown as its first `p`
/// characters, which take exactly 117 bytes (its start, not its end), and
/// `...`; a line of at most 120 bytes is shown whole.
pub proof fn lemma_truncated_line_head(l: Seq<char>) -> (p: int)
    requires
        encode_utf8(l).len() > 120 ==> is_char_boundary(encode_utf8(l), 117),
    ensures
        encode_utf8(l).len() <= 120 ==> truncated_line(l) == l,
        encode_utf8(l).len() > 120 ==> {
            &&& 0 <= p <= l.len()
            &&& encode_utf8(l.take(p)).len() == 117
            &&& truncated_line(l) == l.take(p) + "..."@
        },
{
    if encode_utf8(l).len() > 120 {
        lemma_byte_prefix(l, 117)
    } else {
        0
    }
}

fn truncate_line(line: &str) -> (r: String)
    requires
        truncatable(line@),
    ensures
        r@ == truncated_line(line@),
{
    let chars = chars_of(line);
    if utf8_len_exceeds(&chars, 120) {
        proof {
            let b = encode_utf8(line@);
            encode_utf8_valid_utf8(line@);
            is_char_boundary_start_end_of_seq(b);
            assert(byte_range_text(line@, 0, 117) == Some(decode_utf8(b.subrange(0, 117))));
        }
        match text_in_range(line, 0, 117) {
            Some(t) => {
                let mut cut = String::from_str(t);
                cut.append("...");
                cut
            },
            None => String::new(),
        }
    } else {
        String::from_str(line)
    }
}

/// The numbered list of problem lines `1..=n`.
pub open spec fn issue_entries(issues: Seq<Seq<char>>, n: nat) -> Seq<char>
    decreases n,
{
    if n == 0 {
        seq![]
    } else {
        issue_entries(issues, (n - 1) as nat) + "  "@ + decimal(n) + ". "@ + truncated_line(
            issues[n - 1],
        ) + "\n"@
    }
}

/// The text of a local summary, as printed.
pub open spec fn summary_text(
    total: nat,
    errors: nat,
    warnings: nat,
    failures: nat,
    traces: nat,
    debugs: nat,
    issues: Seq<Seq<char>>,
) -> Seq<char> {
    "Log Summary\n"@ + "━━━━━━━━━━━━━━\n"@ + "  Total lines: "@ + decimal(total) + "\n"@
        + "  Errors:      "@ + decimal(errors) + "\n"@ + "  Warnings:    "@ + decimal(warnings)
        + "\n"@ + "  Failures:    "@ + decimal(failures) + "\n"@ + "  Trace/Debug: "@ + decimal(
        traces,
    ) + "/"@ + decimal(debugs) + "\n"@ + "\n"@ + (if issues.len() > 0 {
        "Issues Found (first "@ + decimal(issues.len()) + "):\n"@ + issue_entries(
            issues,
            issues.len(),
        )
    } else {
        "No errors or failures detected.\n"@
    })
}

/// The text of a summary's report.
pub open spec fn report_text(s: LocalSummary) -> Seq<char> {
    summary_text(
        s.total_lines as nat,
        s.errors as nat,
        s.warnings as nat,
        s.failures as nat,
        s.traces as nat,
        s.debugs as nat,
        line_views(s.issues@),
    )
}

fn append_count(text: &mut String, label: &str, n: usize)
    ensures
        final(text)@ == old(text)@ + label@ + decimal(n as nat) + "\n"@,
{
    text.append(label);
    let d = decimal_text(n as u128);
    text.append(d.as_str());
    text.append("\n");
}

/// The counts part of a summary's report, up to and including the blank
/// line after them.
pub open spec fn report_header(s: LocalSummary) -> Seq<char> {
    "Log Summary\n"@ + "━━━━━━━━━━━━━━\n"@ + "  Total lines: "@ + decimal(s.total_lines as nat)
        + "\n"@ + "  Errors:      "@ + decimal(s.errors as nat) + "\n"@ + "  Warnings:    "@
        + decimal(s.warnings as nat) + "\n"@ + "  Failures:    "@ + decimal(s.failures as nat)
        + "\n"@ + "  Trace/Debug: "@ + decimal(s.traces as nat) + "/"@ + decimal(s.debugs as nat)
        + "\n"@ + "\n"@
}

/// The report written up to the `k`-th listed line, where the line after
/// it cannot be cut.
pub open spec fn report_until(s: LocalSummary, k: nat) -> Seq<char> {
    let issues = line_views(s.issues@);
    report_header(s) + "Issues Found (first "@ + decimal(issues.len()) + "):\n"@ + issue_entries(
        issues,
        k,
    )
}

/// Writes the report of a local summary: the counts, then the numbered
/// problem lines (each cut to 117 bytes and `...` past 120 bytes), or a line
/// saying that none was found. Where a listed line longer than 120 bytes has
/// no character boundary at byte 117 the report stops before that line's
/// entry and the flag is `false`.
pub fn render_local_summary(s: &LocalSummary) -> (r: (String, bool))
    ensures
        r.1 <==> (forall|i: int| 0 <= i < s.issues@.len() ==> truncatable(#[trigger] s.issues@[i]@)),
        r.1 ==> r.0@ == report_text(*s),
        !r.1 ==> exists|k: int|
            0 <= k < s.issues@.len() && !truncatable(s.issues@[k]@) && (forall|j: int|
                0 <= j < k ==> truncatable(#[trigger] s.issues@[j]@)) && r.0@ == report_until(
                *s,
                k as nat,
            ),
{
    let mut text = String::from_str("Log Summary\n");
    text.append("━━━━━━━━━━━━━━\n");
    append_count(&mut text, "  Total lines: ", s.total_lines);
    append_count(&mut text, "  Errors:      ", s.errors);
    append_count(&mut text, "  Warnings:    ", s.warnings);
    append_count(&mut text, "  Failures:    ", s.failures);
    text.append("  Trace/Debug: ");
    let t = decimal_text(s.traces as u128);
    text.append(t.as_str());
    text.append("/");
    let d = decimal_text(s.debugs as u128);
    text.append(d.as_str());
    text.append("\n");
    text.append("\n");
    let ghost head = text@;
    assert(head =~= report_header(*s));
    let ghost issues = line_views(s.issues@);
    if s.issues.len() > 0 {
        text.append("Issues Found (first ");
        let n = decimal_text(s.issues.len() as u128);
        text.append(n.as_str());
        text.append("):\n");
        let ghost head2 = text@;
        assert(head2 =~= head + "Issues Found (first "@ + decimal(issues.len()) + "):\n"@);
        let mut i: usize = 0;
        while i < s.issues.len()
            invariant
                i <= s.issues.len(),
                issues == line_views(s.issues@),
                head == report_header(*s),
                head2 == head + "Issues Found (first "@ + decimal(issues.len()) + "):\n"@,
                forall|j: int| 0 <= j < i ==> truncatable(#[trigger] s.issues@[j]@),
                text@ == head2 + issue_entries(issues, i as nat),
            decreases s.issues.len() - i,
        {
            if !is_truncatable(s.issues[i].as_str()) {
                assert(text@ =~= report_until(*s, i as nat));
                return (text, false);
            }
            text.append("  ");
            let k = decimal_text((i + 1) as u128);
            text.append(k.as_str());
            text.append(". ");
            let cut = truncate_line(s.issues[i].as_str());
            text.append(cut.as_str());
            text.append("\n");
            assert(issues[i as int] == s.issues@[i as int]@);
            assert(text@ =~= head2 + issue_entries(issues, (i + 1) as nat));
            i = i + 1;
        }
        assert(issues.len() == s.issues@.len());
        assert(text@ =~= head + ("Issues Found (first "@ + decimal(issues.len()) + "):\n"@
            + issue_entries(issues, issues.len())));
        assert(text@ =~= report_text(*s));
    } else {
        text.append("No errors or failures detected.\n");
        assert(issues.len() == 0);
        assert(text@ =~= report_text(*s));
    }
    (text, true)
}

/// The problem lines a summary lists: the first twenty.
pub open spec fn listed_lines(input: Seq<char>) -> Seq<Seq<char>> {
    let il = issue_lines(lines_of(input));
    il.take(
        if il.len() < max_listed() {
            il.len() as int
        } else {
            max_listed() as int
        },
    )
}

/// The report of the local summary of a log text.
pub open spec fn local_report(input: Seq<char>) -> Seq<char> {
    let lines = lines_of(input);
    summary_text(
        lines.len(),
        count_mentions(lines, "error"@),
        count_mentions(lines, "warn"@),
        count_mentions(lines, "fail"@),
        count_mentions(lines, "trace"@),
        count_mentions(lines, "debug"@),
        listed_lines(input),
    )
}

/// The printed local summary of a log starts with its counts, one per
/// line: all lines, then the lines whose lowercase holds `error`, `warn`,
/// `fail`, and `trace`/`debug`, then a blank line.
pub proof fn lemma_local_report_header(input: Seq<char>)
    ensures
        starts_with_seq(
            local_report(input),
            "Log Summary\n"@ + "━━━━━━━━━━━━━━\n"@ + "  Total lines: "@ + decimal(
                lines_of(input).len(),
            ) + "\n"@ + "  Errors:      "@ + decimal(
                lines_of(input).filter(|l: Seq<char>| contains_seq(lowercase(l), "error"@)).len(),
            ) + "\n"@ + "  Warnings:    "@ + decimal(
                lines_of(input).filter(|l: Seq<char>| contains_seq(lowercase(l), "warn"@)).len(),
            ) + "\n"@ + "  Failures:    "@ + decimal(
                lines_of(input).filter(|l: Seq<char>| contains_seq(lowercase(l), "fail"@)).len(),
            ) + "\n"@ + "  Trace/Debug: "@ + decimal(
                lines_of(input).filter(|l: Seq<char>| contains_seq(lowercase(l), "trace"@)).len(),
            ) + "/"@ + decimal(
                lines_of(input).filter(|l: Seq<char>| contains_seq(lowercase(l), "debug"@)).len(),
            ) + "\n"@ + "\n"@,
        ),
{
    let lines = lines_of(input);
    lemma_count_is_filter(lines, "error"@);
    lemma_count_is_filter(lines, "warn"@);
    lemma_count_is_filter(lines, "fail"@);
    lemma_count_is_filter(lines, "trace"@);
    lemma_count_is_filter(lines, "debug"@);
    let head = "Log Summary\n"@ + "━━━━━━━━━━━━━━\n"@ + "  Total lines: "@ + decimal(lines.len())
        + "\n"@ + "  Errors:      "@ + decimal(count_mentions(lines, "error"@)) + "\n"@
        + "  Warnings:    "@ + decimal(count_mentions(lines, "warn"@)) + "\n"@
        + "  Failures:    "@ + decimal(count_mentions(lines, "fail"@)) + "\n"@
        + "  Trace/Debug: "@ + decimal(count_mentions(lines, "trace"@)) + "/"@ + decimal(
        count_mentions(lines, "debug"@),
    ) + "\n"@ + "\n"@;
    let issues = listed_lines(input);
    let tail = if issues.len() > 0 {
        "Issues Found (first "@ + decimal(issues.len()) + "):\n"@ + issue_entries(
            issues,
            issues.len(),
        )
    } else {
        "No errors or failures detected.\n"@
    };
    assert(local_report(input) == head + tail);
    assert((head + tail).subrange(0, head.len() as int) =~= head);
}

/// The local summary of a log text, as printed when no AI service is
/// configured. Cutting a listed line at byte 117 must fall on a character
/// boundary.
pub fn summarize_locally(input: &str) -> (r: String)
    requires
        forall|i: int|
            0 <= i < listed_lines(input@).len() ==> truncatable(
                #[trigger] listed_lines(input@)[i],
            ),
    ensures
        r@ == local_report(input@),
{
    let summary = local_summary(input);
    proof {
        let il = issue_lines(lines_of(input@));
        let k: int = if il.len() < max_listed() {
            il.len() as int
        } else {
            max_listed() as int
        };
        assert(line_views(summary.issues@) == il.take(k));
        assert(listed_lines(input@) == il.take(k));
        assert forall|i: int| 0 <= i < summary.issues@.len() implies truncatable(
            #[trigger] summary.issues@[i]@,
        ) by {
            assert(line_views(summary.issues@)[i] == summary.issues@[i]@);
            assert(listed_lines(input@)[i] == summary.issues@[i]@);
        }
    }
    let (text, _) = render_local_summary(&summary);
    text
}

/// Whether cutting `line` at byte 117 is defined where it is cut.
fn is_truncatable(line: &str) -> (r: bool)
    ensures
        r == truncatable(line@),
{
    let chars = chars_of(line);
    if utf8_len_exceeds(&chars, 120) {
        line.is_char_boundary(117)
    } else {
        true
    }
}

/// The local summary of a log text, or `None` where a listed line longer
/// than 120 bytes has no character boundary at byte 117 (where cutting it
/// is undefined).
pub fn try_summarize_locally(input: &str) -> (r: Option<String>)
    ensures
        r is Some <==> (forall|i: int|
            0 <= i < listed_lines(input@).len() ==> truncatable(
                #[trigger] listed_lines(input@)[i],
            )),
        r matches Some(t) ==> t@ == local_report(input@),
{
    let summary = local_summary(input);
    let ghost il = issue_lines(lines_of(input@));
    let ghost k: int = if il.len() < max_listed() {
        il.len() as int
    } else {
        max_listed() as int
    };
    proof {
        assert(line_views(summary.issues@) == il.take(k));
        assert(listed_lines(input@) == il.take(k));
        assert(listed_lines(input@).len() == summary.issues@.len());
        assert forall|j: int| 0 <= j < summary.issues@.len() implies listed_lines(input@)[j]
            == summary.issues@[j]@ by {
            assert(line_views(summary.issues@)[j] == summary.issues@[j]@);
        }
    }
    let (text, complete) = render_local_summary(&summary);
    if !complete {
        proof {
            let w = choose|w: int|
                0 <= w < summary.issues@.len() && !truncatable(summary.issues@[w]@) && (forall|
                    j: int,
                |
                    0 <= j < w ==> truncatable(#[trigger] summary.issues@[j]@)) && text@
                    == report_until(summary, w as nat);
            assert(!truncatable(listed_lines(input@)[w]));
        }
        return None;
    }
    proof {
        assert(report_text(summary) == local_report(input@));
    }
    Some(text)
}

/// An AI summary is sent at most the first 8000 bytes of the log, marked
/// with the log's full length in bytes.
pub open spec fn api_excerpt(input: Seq<char>) -> Seq<char> {
    let b = encode_utf8(input);
    if b.len() > 8000 {
        decode_utf8(b.subrange(0, 8000)) + "... [truncated from "@ + decimal(b.len()) + " chars]"@
    } else {
        input
    }
}

/// The UTF-8 length of `chars` in bytes.
fn utf8_len(chars: &Vec<char>) -> (r: u128)
    ensures
        r == encode_utf8(chars@).len(),
{
    let mut acc: u128 = 0;
    let mut i: usize = 0;
    while i < chars.len()
        invariant
            i <= chars.len(),
            acc <= 4 * i,
            acc == encode_utf8(chars@.take(i as int)).len(),
        decreases chars.len() - i,
    {
        proof {
            lemma_encode_push(chars@.take(i as int), chars@[i as int]);
            assert(chars@.take(i + 1) =~= chars@.take(i as int).push(chars@[i as int]));
        }
        acc = acc + char_width(chars[i]) as u128;
        i = i + 1;
    }
    assert(chars@.take(i as int) =~= chars@);
    acc
}

/// Cutting the log at byte 8000 is defined where it is cut.
pub open spec fn api_cut_defined(input: Seq<char>) -> bool {
    encode_utf8(input).len() > 8000 ==> is_char_boundary(encode_utf8(input), 8000)
}

/// What an AI summary request carries of the log: the log itself, or past
/// 8000 bytes its first 8000 bytes and a note of its length. Cutting at
/// byte 8000 must fall on a character boundary.
pub fn truncate_for_api(input: &str) -> (r: String)
    requires
        api_cut_defined(input@),
    ensures
        r@ == api_excerpt(input@),
{
    let chars = chars_of(input);
    let len = utf8_len(&chars);
    if len > 8000 {
        proof {
            let b = encode_utf8(input@);
            encode_utf8_valid_utf8(input@);
            is_char_boundary_start_end_of_seq(b);
            assert(byte_range_text(input@, 0, 8000) == Some(decode_utf8(b.subrange(0, 8000))));
        }
        let mut text = match text_in_range(input, 0, 8000) {
            Some(t) => String::from_str(t),
            None => String::new(),
        };
        text.append("... [truncated from ");
        let n = decimal_text(len);
        text.append(n.as_str());
        text.append(" chars]");
        text
    } else {
        String::from_str(input)
    }
}

/// What an AI summary request carries of the log, or `None` where the log
/// is longer than 8000 bytes and byte 8000 falls inside a character.
pub fn try_truncate_for_api(input: &str) -> (r: Option<String>)
    ensures
        r is Some <==> api_cut_defined(input@),
        r matches Some(t) ==> t@ == api_excerpt(input@),
{
    let chars = chars_of(input);
    if utf8_len(&chars) > 8000 && !input.is_char_boundary(8000) {
        return None;
    }
    Some(truncate_for_api(input))
}

/// Past 8000 bytes the excerpt is the log's first `p` characters, which
/// take exactly 8000 bytes (the head of the log, not its tail), followed
/// by the note `... [truncated from N chars]` with `N` the log's length
/// in bytes; up to 8000 bytes the excerpt is the whole log.
pub proof fn lemma_api_excerpt_head(input: Seq<char>) -> (p: int)
    requires
        encode_utf8(input).len() > 8000 ==> is_char_boundary(encode_utf8(input), 8000),
    ensures
        encode_utf8(input).len() <= 8000 ==> api_excerpt(input) == input,
        encode_utf8(input).len() > 8000 ==> {
            &&& 0 <= p <= input.len()
            &&& encode_utf8(input.take(p)).len() == 8000
            &&& api_excerpt(input) == input.take(p) + "... [truncated from "@ + decimal(
                encode_utf8(input).len(),
            ) + " chars]"@
        },
{
    if encode_utf8(input).len() > 8000 {
        lemma_byte_prefix(input, 8000)
    } else {
        0
    }
}

/// Where the summary of a non-blank log is made.
pub enum SummaryRoute {
    /// OpenAI, with this API key.
    OpenAi(String),
    /// Anthropic, with this API key.
    Anthropic(String),
    /// The local keyword summary.
    Local,
}

/// `char::is_whitespace`: the characters with the Unicode `White_Space`
/// property (U+0009..U+000D, U+0020, U+0085, U+00A0, U+1680,
/// U+2000..U+200A, U+2028, U+2029, U+202F, U+205F, U+3000).
pub open spec fn white_space(c: char) -> bool {
    let u = c as u32;
    ||| 0x09 <= u <= 0x0d
    ||| u == 0x20
    ||| u == 0x85
    ||| u == 0xa0
    ||| u == 0x1680
    ||| 0x2000 <= u <= 0x200a
    ||| u == 0x2028
    ||| u == 0x2029
    ||| u == 0x202f
    ||| u == 0x205f
    ||| u == 0x3000
}

/// Calls `char::is_whitespace`, documented as the Unicode `White_Space`
/// property, whose code points `white_space` lists.
#[verifier::external_body]
fn is_whitespace(c: char) -> (r: bool)
    ensures
        r == white_space(c),
{
    c.is_whitespace()
}

/// `input.trim().is_empty()`: the input holds only whitespace.
pub open spec fn blank(input: Seq<char>) -> bool {
    forall|i: int| 0 <= i < input.len() ==> white_space(#[trigger] input[i])
}

/// Whether the log holds nothing but whitespace (`input.trim().is_empty()`),
/// in which case there is nothing to summarize.
pub fn log_is_blank(input: &str) -> (r: bool)
    ensures
        r == blank(input@),
{
    let chars = chars_of(input);
    let mut i: usize = 0;
    while i < chars.len() && is_whitespace(chars[i])
        invariant
            i <= chars.len(),
            chars@ == input@,
            forall|j: int| 0 <= j < i ==> white_space(#[trigger] input@[j]),
        decreases chars.len() - i,
    {
        i = i + 1;
    }
    if i == chars.len() {
        return true;
    }
    assert(!white_space(input@[i as int]));
    false
}

/// One character that is not whitespace, wherever it stands (also after
/// a line feed), makes the log not blank; a log of whitespace alone is
/// blank.
pub proof fn lemma_blank_iff_no_visible_char(input: Seq<char>)
    ensures
        !blank(input) <==> exists|i: int| 0 <= i < input.len() && !white_space(input[i]),
{
}

/// Two pieces of a log put together are blank exactly when both are.
pub proof fn lemma_blank_concat(a: Seq<char>, b: Seq<char>)
    ensures
        blank(a + b) <==> (blank(a) && blank(b)),
{
    if blank(a) && blank(b) {
        assert forall|i: int| 0 <= i < (a + b).len() implies white_space(#[trigger] (a + b)[i]) by {
            if i < a.len() {
                assert((a + b)[i] == a[i]);
            } else {
                assert((a + b)[i] == b[i - a.len()]);
            }
        }
    }
    if blank(a + b) {
        assert forall|i: int| 0 <= i < a.len() implies white_space(#[trigger] a[i]) by {
            assert((a + b)[i] == a[i]);
        }
        assert forall|i: int| 0 <= i < b.len() implies white_space(#[trigger] b[i]) by {
            assert((a + b)[a.len() + i] == b[i]);
        }
    }
}

/// Picks how a non-blank log is summarized: OpenAI when its key is set,
/// else Anthropic when its key is set, else the local summary.
pub fn summary_route(openai_key: Option<String>, anthropic_key: Option<String>) -> (r:
    SummaryRoute)
    ensures
        match openai_key {
            Some(k) => r == SummaryRoute::OpenAi(k),
            None => match anthropic_key {
                Some(k) => r == SummaryRoute::Anthropic(k),
                None => r is Local,
            },
        },
{
    match openai_key {
        Some(k) => SummaryRoute::OpenAi(k),
        None => match anthropic_key {
            Some(k) => SummaryRoute::Anthropic(k),
            None => SummaryRoute::Local,
        },
    }
}

} // verus!
