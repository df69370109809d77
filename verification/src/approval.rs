//! Bash command approval by walking the tree-sitter syntax tree, and Slack
//! request signature checks.
use hmac::Mac;
use vstd::prelude::*;
use vstd::utf8::*;
use vstd::string::StringExecFns;
use crate::text::{
    starts_with_seq, contains_seq, occurs_at, contains_word, compact, find_char, lowercase, decimal,
    chars_of, has_prefix, has_infix, has_word, compact_chars, push_all, same_chars, same_text,
    to_lowercase, decimal_text, lines_of, lemma_find_char,
};
use crate::syntax::{
    NodeRecord, nodes_placed, newlines_before, lemma_row_within_lines, bash_syntax, tree_nodes,
    byte_range_text, parse_bash, node_count, node_at, text_in_range, BashParse,
};

verus! {

/// One finding of the approval policy.
#[derive(Debug, Clone)]
pub struct ValidationIssue {
    pub line: usize,
    pub severity: String,
    pub message: String,
}

/// An issue as a mathematical value.
pub struct IssueSpec {
    pub line: nat,
    pub severity: Seq<char>,
    pub message: Seq<char>,
}

impl View for ValidationIssue {
    type V = IssueSpec;

    open spec fn view(&self) -> IssueSpec {
        IssueSpec { line: self.line as nat, severity: self.severity@, message: self.message@ }
    }
}

/// The outcome of validating a command.
#[derive(Debug, Clone)]
pub struct ValidationReport {
    pub approved: bool,
    pub command: String,
    pub issues: Vec<ValidationIssue>,
    pub reason: String,
}

/// The issues of a report, each taken by its view.
pub open spec fn issue_views(issues: Seq<ValidationIssue>) -> Seq<IssueSpec> {
    issues.map_values(|i: ValidationIssue| i@)
}

pub open spec fn error_issue(line: nat, message: Seq<char>) -> IssueSpec {
    IssueSpec { line, severity: "error"@, message }
}

pub open spec fn rm_rf_message() -> Seq<char> {
    "destructive rm -rf blocked by approval policy"@
}

pub open spec fn dynamic_exec_message() -> Seq<char> {
    "dynamic execution (eval/source/.) blocked"@
}

pub open spec fn pipe_to_shell_message() -> Seq<char> {
    "pipe-to-shell pattern blocked"@
}

pub open spec fn dd_message() -> Seq<char> {
    "forbidden command dd blocked"@
}

pub open spec fn chmod_message() -> Seq<char> {
    "recursive chmod 777 blocked"@
}

pub open spec fn block_device_message() -> Seq<char> {
    "redirect to block device blocked"@
}

pub open spec fn fork_bomb_message() -> Seq<char> {
    "fork bomb blocked"@
}

pub open spec fn parse_failure_message() -> Seq<char> {
    "failed to parse command as bash"@
}

/// `rm` with a recursive force flag.
pub open spec fn is_rm_rf(lower: Seq<char>) -> bool {
    starts_with_seq(lower, "rm "@) && (contains_seq(lower, " -rf "@) || contains_seq(
        lower,
        " -fr "@,
    ))
}

/// `eval`, `source` or `.` at the head of the command.
pub open spec fn is_dynamic_exec(lower: Seq<char>) -> bool {
    starts_with_seq(lower, "eval "@) || starts_with_seq(lower, "source "@) || starts_with_seq(
        lower,
        ". "@,
    )
}

/// `curl` and `| sh` within the text of one command (a quoted script).
pub open spec fn is_pipe_to_shell(lower: Seq<char>) -> bool {
    contains_seq(lower, "curl "@) && contains_seq(lower, "| sh"@)
}

/// The `dd` command, as written.
pub open spec fn is_dd(text: Seq<char>) -> bool {
    text == "dd"@ || starts_with_seq(text, "dd "@)
}

/// `chmod -R 777`, as written.
pub open spec fn is_chmod_777(text: Seq<char>) -> bool {
    starts_with_seq(text, "chmod "@) && contains_seq(text, " -R 777"@)
}

/// A pipeline that feeds `curl` into a shell stage `sh` or `bash`, as
/// written.
pub open spec fn is_curl_to_shell_pipeline(text: Seq<char>) -> bool {
    contains_seq(text, "curl "@) && (contains_word(text, "| sh"@) || contains_word(
        text,
        "|sh"@,
    ) || contains_word(text, "| bash"@) || contains_word(text, "|bash"@))
}

/// A redirection that writes to a disk block device `/dev/sd*`, as
/// written.
pub open spec fn is_block_device_redirect(text: Seq<char>) -> bool {
    contains_seq(compact(text), ">/dev/sd"@)
}

/// A function whose body pipes itself into itself in the background:
/// `name(){ name|name& }`, as in `:(){ :|:& };:`.
pub open spec fn is_fork_bomb(c: Seq<char>) -> bool {
    let k = find_char(c, '(', 0);
    &&& k < c.len()
    &&& c == c.take(k) + "(){"@ + c.take(k) + "|"@ + c.take(k) + "&}"@
}

/// One issue where `flagged` holds, none elsewhere.
pub open spec fn flag(flagged: bool, line: nat, message: Seq<char>) -> Seq<IssueSpec> {
    if flagged {
        seq![error_issue(line, message)]
    } else {
        seq![]
    }
}

/// The issues that the policy raises for one `command` node, given its
/// text, the lowercase of that text and its one-based line: `rm -rf`,
/// `eval`/`source`/`.` and `curl`/`| sh` are found in any letter case,
/// `dd` and `chmod -R 777` as written.
pub open spec fn command_issues(line: nat, text: Seq<char>, lower: Seq<char>) -> Seq<IssueSpec> {
    flag(is_rm_rf(lower), line, rm_rf_message()) + flag(
        is_dynamic_exec(lower),
        line,
        dynamic_exec_message(),
    ) + flag(is_pipe_to_shell(lower), line, pipe_to_shell_message()) + flag(
        is_dd(text),
        line,
        dd_message(),
    ) + flag(is_chmod_777(text), line, chmod_message())
}

/// The issues the policy raises for a node of `kind` with this text:
/// `command` nodes as above, `pipeline` nodes that pipe `curl` into a
/// shell, `file_redirect` nodes that write to `/dev/sd*`, and
/// `function_definition` nodes that define a fork bomb.
pub open spec fn kind_issues(kind: Seq<char>, line: nat, text: Seq<char>) -> Seq<IssueSpec> {
    if kind == "command"@ {
        command_issues(line, text, lowercase(text))
    } else if kind == "pipeline"@ {
        flag(is_curl_to_shell_pipeline(text), line, pipe_to_shell_message())
    } else if kind == "file_redirect"@ {
        flag(is_block_device_redirect(text), line, block_device_message())
    } else if kind == "function_definition"@ {
        flag(is_fork_bomb(compact(text)), line, fork_bomb_message())
    } else {
        seq![]
    }
}

/// The issues for one syntax node with a non-empty byte range, on its
/// source text (an empty text matches no pattern of the policy).
pub open spec fn node_issues(source: Seq<char>, node: NodeRecord) -> Seq<IssueSpec> {
    if node.2 < node.3 {
        match byte_range_text(source, node.2 as int, node.3 as int) {
            Some(t) => kind_issues(node.0, node.1 + 1, t),
            None => seq![],
        }
    } else {
        seq![]
    }
}

/// The issues of the first `n` nodes, in node order.
pub open spec fn nodes_issues(source: Seq<char>, nodes: Seq<NodeRecord>, n: nat) -> Seq<IssueSpec>
    decreases n,
{
    if n == 0 {
        seq![]
    } else {
        nodes_issues(source, nodes, (n - 1) as nat) + node_issues(source, nodes[n - 1])
    }
}

/// All issues that validating `source` raises.
pub open spec fn validation_issues(source: Seq<char>) -> Seq<IssueSpec> {
    match bash_syntax(source) {
        Some(nodes) => nodes_issues(source, nodes, nodes.len()),
        None => seq![error_issue(1, parse_failure_message())],
    }
}

pub open spec fn has_error(issues: Seq<IssueSpec>) -> bool {
    exists|i: int| 0 <= i < issues.len() && issues[i].severity == "error"@
}

pub open spec fn has_destructive(issues: Seq<IssueSpec>) -> bool {
    exists|i: int|
        0 <= i < issues.len() && (contains_seq(issues[i].message, "rm -rf"@) || contains_seq(
            issues[i].message,
            "code injection"@,
        ))
}

pub open spec fn report_approved(issues: Seq<IssueSpec>) -> bool {
    !has_error(issues) && !has_destructive(issues)
}

pub open spec fn report_reason(issues: Seq<IssueSpec>) -> Seq<char> {
    if report_approved(issues) {
        if issues.len() == 0 {
            "command passed AST validation"@
        } else {
            "approved with "@ + decimal(issues.len()) + " warning(s)"@
        }
    } else if has_destructive(issues) {
        "rejected: destructive or dynamic execution pattern detected"@
    } else {
        "rejected: AST validation errors"@
    }
}


/// Every issue in the list is an error.
pub open spec fn all_errors(issues: Seq<IssueSpec>) -> bool {
    forall|i: int| 0 <= i < issues.len() ==> #[trigger] issues[i].severity == "error"@
}

proof fn lemma_nodes_issues_are_errors(source: Seq<char>, nodes: Seq<NodeRecord>, n: nat)
    ensures
        all_errors(nodes_issues(source, nodes, n)),
    decreases n,
{
    if n > 0 {
        lemma_nodes_issues_are_errors(source, nodes, (n - 1) as nat);
        let a = nodes_issues(source, nodes, (n - 1) as nat);
        let b = node_issues(source, nodes[n - 1]);
        assert(all_errors(b));
        assert forall|i: int| 0 <= i < (a + b).len() implies #[trigger] (a + b)[i].severity
            == "error"@ by {
            if i < a.len() {
                assert((a + b)[i] == a[i]);
            } else {
                assert((a + b)[i] == b[i - a.len()]);
            }
        }
    }
}

/// Every issue that validation raises is an error.
pub proof fn lemma_validation_issues_are_errors(source: Seq<char>)
    ensures
        all_errors(validation_issues(source)),
{
    match bash_syntax(source) {
        Some(nodes) => lemma_nodes_issues_are_errors(source, nodes, nodes.len()),
        None => {},
    }
}

/// The issues of the first `n` nodes are empty exactly when each of those
/// nodes raises none.
proof fn lemma_nodes_issues_empty(source: Seq<char>, nodes: Seq<NodeRecord>, n: nat)
    requires
        n <= nodes.len(),
    ensures
        (nodes_issues(source, nodes, n).len() == 0) <==> (forall|k: int|
            0 <= k < n ==> (#[trigger] node_issues(source, nodes[k])).len() == 0),
    decreases n,
{
    if n > 0 {
        lemma_nodes_issues_empty(source, nodes, (n - 1) as nat);
    }
}

/// A command is approved exactly when the bash grammar parses it and none
/// of its syntax nodes raises an issue; in particular one node that the
/// policy flags rejects the whole source.
pub proof fn lemma_approved_iff_no_flagged_node(source: Seq<char>)
    ensures
        report_approved(validation_issues(source)) <==> (match bash_syntax(source) {
            Some(nodes) => forall|k: int|
                0 <= k < nodes.len() ==> (#[trigger] node_issues(source, nodes[k])).len() == 0,
            None => false,
        }),
{
    lemma_validation_issues_are_errors(source);
    let v = validation_issues(source);
    if v.len() > 0 {
        assert(v[0].severity == "error"@);
    }
    match bash_syntax(source) {
        Some(nodes) => lemma_nodes_issues_empty(source, nodes, nodes.len()),
        None => {},
    }
}

/// Every issue that one of the first `n` nodes raises is among the issues
/// of those nodes.
proof fn lemma_node_issue_listed(
    source: Seq<char>,
    nodes: Seq<NodeRecord>,
    n: nat,
    k: int,
    j: int,
)
    requires
        0 <= k < n,
        0 <= j < node_issues(source, nodes[k]).len(),
    ensures
        nodes_issues(source, nodes, n).contains(node_issues(source, nodes[k])[j]),
    decreases n,
{
    let a = nodes_issues(source, nodes, (n - 1) as nat);
    let b = node_issues(source, nodes[n - 1]);
    assert(nodes_issues(source, nodes, n) == a + b);
    if k == n - 1 {
        assert((a + b)[a.len() + j] == b[j]);
    } else {
        lemma_node_issue_listed(source, nodes, (n - 1) as nat, k, j);
        let i = choose|i: int| 0 <= i < a.len() && a[i] == node_issues(source, nodes[k])[j];
        assert((a + b)[i] == a[i]);
    }
}

/// A `command` node whose lowercased text starts with `rm ` and holds
/// ` -rf ` or ` -fr ` anywhere (also after other flags, as in
/// `rm -v -rf /tmp/build`) makes the source rejected as destructive, with
/// the rm -rf error on the node's one-based line.
pub proof fn lemma_rm_rf_rejected(source: Seq<char>, k: int, text: Seq<char>)
    requires
        bash_syntax(source) is Some,
        0 <= k < bash_syntax(source)->0.len(),
        bash_syntax(source)->0[k].0 == "command"@,
        byte_range_text(
            source,
            bash_syntax(source)->0[k].2 as int,
            bash_syntax(source)->0[k].3 as int,
        ) == Some(text),
        bash_syntax(source)->0[k].2 < bash_syntax(source)->0[k].3,
        starts_with_seq(lowercase(text), "rm "@),
        contains_seq(lowercase(text), " -rf "@) || contains_seq(lowercase(text), " -fr "@),
    ensures
        !report_approved(validation_issues(source)),
        validation_issues(source).contains(
            IssueSpec {
                line: bash_syntax(source)->0[k].1 + 1,
                severity: "error"@,
                message: "destructive rm -rf blocked by approval policy"@,
            },
        ),
        report_reason(validation_issues(source))
            == "rejected: destructive or dynamic execution pattern detected"@,
{
    let nodes = bash_syntax(source)->0;
    let issue = IssueSpec {
        line: nodes[k].1 + 1,
        severity: "error"@,
        message: "destructive rm -rf blocked by approval policy"@,
    };
    assert(node_issues(source, nodes[k])[0] == issue);
    lemma_node_issue_listed(source, nodes, nodes.len(), k, 0);
    let v = validation_issues(source);
    let i = choose|i: int| 0 <= i < v.len() && v[i] == issue;
    reveal_strlit("destructive rm -rf blocked by approval policy");
    reveal_strlit("rm -rf");
    assert(issue.message.subrange(12, 18) =~= "rm -rf"@);
    assert(occurs_at(issue.message, "rm -rf"@, 12));
    assert(has_destructive(v));
    assert(v[i].severity == "error"@);
}

/// An error that one syntax node raises is reported for the whole source,
/// which is then not approved.
proof fn lemma_node_issue_reported(source: Seq<char>, k: int, issue: IssueSpec)
    requires
        bash_syntax(source) is Some,
        0 <= k < bash_syntax(source)->0.len(),
        node_issues(source, bash_syntax(source)->0[k]).contains(issue),
        issue.severity == "error"@,
    ensures
        validation_issues(source).contains(issue),
        !report_approved(validation_issues(source)),
{
    let nodes = bash_syntax(source)->0;
    let raised = node_issues(source, nodes[k]);
    let j = choose|j: int| 0 <= j < raised.len() && raised[j] == issue;
    lemma_node_issue_listed(source, nodes, nodes.len(), k, j);
    let v = validation_issues(source);
    let i = choose|i: int| 0 <= i < v.len() && v[i] == issue;
    assert(v[i].severity == "error"@);
}

/// A `command` node whose lowercased text starts with `eval `, `source `
/// or `. ` makes the source rejected, with the dynamic execution error on
/// the node's one-based line.
pub proof fn lemma_dynamic_exec_rejected(source: Seq<char>, k: int, text: Seq<char>)
    requires
        bash_syntax(source) is Some,
        0 <= k < bash_syntax(source)->0.len(),
        bash_syntax(source)->0[k].0 == "command"@,
        byte_range_text(
            source,
            bash_syntax(source)->0[k].2 as int,
            bash_syntax(source)->0[k].3 as int,
        ) == Some(text),
        bash_syntax(source)->0[k].2 < bash_syntax(source)->0[k].3,
        starts_with_seq(lowercase(text), "eval "@) || starts_with_seq(lowercase(text), "source "@)
            || starts_with_seq(lowercase(text), ". "@),
    ensures
        !report_approved(validation_issues(source)),
        validation_issues(source).contains(
            IssueSpec {
                line: bash_syntax(source)->0[k].1 + 1,
                severity: "error"@,
                message: "dynamic execution (eval/source/.) blocked"@,
            },
        ),
{
    let nodes = bash_syntax(source)->0;
    let line = nodes[k].1 + 1;
    let lower = lowercase(text);
    let issue = error_issue(line, dynamic_exec_message());
    let f1 = flag(is_rm_rf(lower), line, rm_rf_message());
    let f2 = flag(is_dynamic_exec(lower), line, dynamic_exec_message());
    let rest = flag(is_pipe_to_shell(lower), line, pipe_to_shell_message()) + flag(
        is_dd(text),
        line,
        dd_message(),
    ) + flag(is_chmod_777(text), line, chmod_message());
    let raised = node_issues(source, nodes[k]);
    assert(raised == f1 + f2 + rest);
    assert((f1 + f2)[f1.len() as int] == issue);
    assert(raised[f1.len() as int] == issue);
    lemma_node_issue_reported(source, k, issue);
}

/// A `command` node whose lowercased text holds both `curl ` and `| sh`
/// (a script piped to a shell inside one command) makes the source
/// rejected, with the pipe-to-shell error on the node's one-based line.
pub proof fn lemma_pipe_to_shell_rejected(source: Seq<char>, k: int, text: Seq<char>)
    requires
        bash_syntax(source) is Some,
        0 <= k < bash_syntax(source)->0.len(),
        bash_syntax(source)->0[k].0 == "command"@,
        byte_range_text(
            source,
            bash_syntax(source)->0[k].2 as int,
            bash_syntax(source)->0[k].3 as int,
        ) == Some(text),
        bash_syntax(source)->0[k].2 < bash_syntax(source)->0[k].3,
        contains_seq(lowercase(text), "curl "@),
        contains_seq(lowercase(text), "| sh"@),
    ensures
        !report_approved(validation_issues(source)),
        validation_issues(source).contains(
            IssueSpec {
                line: bash_syntax(source)->0[k].1 + 1,
                severity: "error"@,
                message: "pipe-to-shell pattern blocked"@,
            },
        ),
{
    let nodes = bash_syntax(source)->0;
    let line = nodes[k].1 + 1;
    let lower = lowercase(text);
    let issue = error_issue(line, pipe_to_shell_message());
    let f12 = flag(is_rm_rf(lower), line, rm_rf_message()) + flag(
        is_dynamic_exec(lower),
        line,
        dynamic_exec_message(),
    );
    let f3 = flag(is_pipe_to_shell(lower), line, pipe_to_shell_message());
    let rest = flag(is_dd(text), line, dd_message()) + flag(
        is_chmod_777(text),
        line,
        chmod_message(),
    );
    let raised = node_issues(source, nodes[k]);
    assert(raised == f12 + f3 + rest);
    assert((f12 + f3)[f12.len() as int] == issue);
    assert(raised[f12.len() as int] == issue);
    lemma_node_issue_reported(source, k, issue);
}

/// A `command` node running `dd` (its text, as written, is `dd` or starts
/// with `dd `) makes the source rejected, with the dd error on the node's
/// one-based line.
pub proof fn lemma_dd_rejected(source: Seq<char>, k: int, text: Seq<char>)
    requires
        bash_syntax(source) is Some,
        0 <= k < bash_syntax(source)->0.len(),
        bash_syntax(source)->0[k].0 == "command"@,
        byte_range_text(
            source,
            bash_syntax(source)->0[k].2 as int,
            bash_syntax(source)->0[k].3 as int,
        ) == Some(text),
        bash_syntax(source)->0[k].2 < bash_syntax(source)->0[k].3,
        text == "dd"@ || starts_with_seq(text, "dd "@),
    ensures
        !report_approved(validation_issues(source)),
        validation_issues(source).contains(
            IssueSpec {
                line: bash_syntax(source)->0[k].1 + 1,
                severity: "error"@,
                message: "forbidden command dd blocked"@,
            },
        ),
{
    let nodes = bash_syntax(source)->0;
    let line = nodes[k].1 + 1;
    let lower = lowercase(text);
    let issue = error_issue(line, dd_message());
    let f123 = flag(is_rm_rf(lower), line, rm_rf_message()) + flag(
        is_dynamic_exec(lower),
        line,
        dynamic_exec_message(),
    ) + flag(is_pipe_to_shell(lower), line, pipe_to_shell_message());
    let f4 = flag(is_dd(text), line, dd_message());
    let f5 = flag(is_chmod_777(text), line, chmod_message());
    let raised = node_issues(source, nodes[k]);
    assert(raised == f123 + f4 + f5);
    assert((f123 + f4)[f123.len() as int] == issue);
    assert(raised[f123.len() as int] == issue);
    lemma_node_issue_reported(source, k, issue);
}

/// A `command` node whose text, as written, starts with `chmod ` and holds
/// ` -R 777` makes the source rejected, with the chmod error on the node's
/// one-based line.
pub proof fn lemma_chmod_777_rejected(source: Seq<char>, k: int, text: Seq<char>)
    requires
        bash_syntax(source) is Some,
        0 <= k < bash_syntax(source)->0.len(),
        bash_syntax(source)->0[k].0 == "command"@,
        byte_range_text(
            source,
            bash_syntax(source)->0[k].2 as int,
            bash_syntax(source)->0[k].3 as int,
        ) == Some(text),
        bash_syntax(source)->0[k].2 < bash_syntax(source)->0[k].3,
        starts_with_seq(text, "chmod "@),
        contains_seq(text, " -R 777"@),
    ensures
        !report_approved(validation_issues(source)),
        validation_issues(source).contains(
            IssueSpec {
                line: bash_syntax(source)->0[k].1 + 1,
                severity: "error"@,
                message: "recursive chmod 777 blocked"@,
            },
        ),
{
    let nodes = bash_syntax(source)->0;
    let line = nodes[k].1 + 1;
    let lower = lowercase(text);
    let issue = error_issue(line, chmod_message());
    let f1234 = flag(is_rm_rf(lower), line, rm_rf_message()) + flag(
        is_dynamic_exec(lower),
        line,
        dynamic_exec_message(),
    ) + flag(is_pipe_to_shell(lower), line, pipe_to_shell_message()) + flag(
        is_dd(text),
        line,
        dd_message(),
    );
    let f5 = flag(is_chmod_777(text), line, chmod_message());
    let raised = node_issues(source, nodes[k]);
    assert(raised == f1234 + f5);
    assert(raised[f1234.len() as int] == issue);
    lemma_node_issue_reported(source, k, issue);
}

/// A `file_redirect` node that, with its layout characters removed, holds
/// `>/dev/sd` makes the source rejected, with the block device error on
/// the node's one-based line.
pub proof fn lemma_block_device_rejected(source: Seq<char>, k: int, text: Seq<char>)
    requires
        bash_syntax(source) is Some,
        0 <= k < bash_syntax(source)->0.len(),
        bash_syntax(source)->0[k].0 == "file_redirect"@,
        byte_range_text(
            source,
            bash_syntax(source)->0[k].2 as int,
            bash_syntax(source)->0[k].3 as int,
        ) == Some(text),
        bash_syntax(source)->0[k].2 < bash_syntax(source)->0[k].3,
        contains_seq(compact(text), ">/dev/sd"@),
    ensures
        !report_approved(validation_issues(source)),
        validation_issues(source).contains(
            IssueSpec {
                line: bash_syntax(source)->0[k].1 + 1,
                severity: "error"@,
                message: "redirect to block device blocked"@,
            },
        ),
{
    let nodes = bash_syntax(source)->0;
    reveal_strlit("command");
    reveal_strlit("pipeline");
    reveal_strlit("file_redirect");
    assert(nodes[k].0.len() != "command"@.len());
    assert(nodes[k].0.len() != "pipeline"@.len());
    let issue = error_issue(nodes[k].1 + 1, block_device_message());
    assert(node_issues(source, nodes[k])[0] == issue);
    lemma_node_issue_reported(source, k, issue);
}

/// A `function_definition` node that, with its layout characters removed,
/// reads `name(){name|name&}` for a name without `(` (as `:(){ :|:& }`
/// does) makes the source rejected, with the fork bomb error on the node's
/// one-based line.
pub proof fn lemma_fork_bomb_rejected(
    source: Seq<char>,
    k: int,
    text: Seq<char>,
    name: Seq<char>,
)
    requires
        bash_syntax(source) is Some,
        0 <= k < bash_syntax(source)->0.len(),
        bash_syntax(source)->0[k].0 == "function_definition"@,
        byte_range_text(
            source,
            bash_syntax(source)->0[k].2 as int,
            bash_syntax(source)->0[k].3 as int,
        ) == Some(text),
        bash_syntax(source)->0[k].2 < bash_syntax(source)->0[k].3,
        forall|i: int| 0 <= i < name.len() ==> name[i] != '(',
        compact(text) == name + "(){"@ + name + "|"@ + name + "&}"@,
    ensures
        !report_approved(validation_issues(source)),
        validation_issues(source).contains(
            IssueSpec {
                line: bash_syntax(source)->0[k].1 + 1,
                severity: "error"@,
                message: "fork bomb blocked"@,
            },
        ),
{
    let nodes = bash_syntax(source)->0;
    let c = compact(text);
    reveal_strlit("(){");
    lemma_find_char(c, '(', 0);
    assert(c[name.len() as int] == '(');
    assert forall|j: int| 0 <= j < name.len() implies c[j] != '(' by {
        assert(c[j] == name[j]);
    }
    assert(find_char(c, '(', 0) == name.len());
    assert(c.take(name.len() as int) =~= name);
    assert(is_fork_bomb(c));
    reveal_strlit("command");
    reveal_strlit("pipeline");
    reveal_strlit("file_redirect");
    reveal_strlit("function_definition");
    assert(nodes[k].0.len() != "command"@.len());
    assert(nodes[k].0.len() != "pipeline"@.len());
    assert(nodes[k].0.len() != "file_redirect"@.len());
    let issue = error_issue(nodes[k].1 + 1, fork_bomb_message());
    assert(node_issues(source, nodes[k])[0] == issue);
    lemma_node_issue_reported(source, k, issue);
}

/// A `pipeline` node that holds `curl ` and pipes into a stage `sh` or
/// `bash` (`| sh`, `|sh`, `| bash` or `|bash` ending a word) makes the
/// source rejected, with the pipe-to-shell error on the node's one-based
/// line.
pub proof fn lemma_curl_to_shell_rejected(source: Seq<char>, k: int, text: Seq<char>)
    requires
        bash_syntax(source) is Some,
        0 <= k < bash_syntax(source)->0.len(),
        bash_syntax(source)->0[k].0 == "pipeline"@,
        byte_range_text(
            source,
            bash_syntax(source)->0[k].2 as int,
            bash_syntax(source)->0[k].3 as int,
        ) == Some(text),
        bash_syntax(source)->0[k].2 < bash_syntax(source)->0[k].3,
        contains_seq(text, "curl "@),
        contains_word(text, "| sh"@) || contains_word(text, "|sh"@) || contains_word(
            text,
            "| bash"@,
        ) || contains_word(text, "|bash"@),
    ensures
        !report_approved(validation_issues(source)),
        validation_issues(source).contains(
            IssueSpec {
                line: bash_syntax(source)->0[k].1 + 1,
                severity: "error"@,
                message: "pipe-to-shell pattern blocked"@,
            },
        ),
{
    let nodes = bash_syntax(source)->0;
    reveal_strlit("command");
    reveal_strlit("pipeline");
    assert(nodes[k].0.len() != "command"@.len());
    let issue = error_issue(nodes[k].1 + 1, pipe_to_shell_message());
    assert(node_issues(source, nodes[k])[0] == issue);
    lemma_node_issue_reported(source, k, issue);
}

/// The highest line an issue can name: the number of lines `str::lines`
/// gives, or 1 where it gives none.
pub open spec fn line_limit(source: Seq<char>) -> nat {
    if lines_of(source).len() > 0 {
        lines_of(source).len()
    } else {
        1
    }
}

/// Every issue in the list is on `line`.
pub open spec fn all_at_line(issues: Seq<IssueSpec>, line: nat) -> bool {
    forall|i: int| 0 <= i < issues.len() ==> (#[trigger] issues[i]).line == line
}

/// The issues come in non-decreasing line order.
pub open spec fn lines_sorted(issues: Seq<IssueSpec>) -> bool {
    forall|i: int, j: int|
        0 <= i <= j < issues.len() ==> (#[trigger] issues[i]).line <= (#[trigger] issues[j]).line
}

proof fn lemma_concat_at_line(a: Seq<IssueSpec>, b: Seq<IssueSpec>, line: nat)
    requires
        all_at_line(a, line),
        all_at_line(b, line),
    ensures
        all_at_line(a + b, line),
{
    assert forall|i: int| 0 <= i < (a + b).len() implies (#[trigger] (a + b)[i]).line == line by {
        if i < a.len() {
            assert((a + b)[i] == a[i]);
        } else {
            assert((a + b)[i] == b[i - a.len()]);
        }
    }
}

proof fn lemma_node_issues_at_line(source: Seq<char>, node: NodeRecord)
    ensures
        all_at_line(node_issues(source, node), node.1 + 1),
{
    let line = node.1 + 1;
    match byte_range_text(source, node.2 as int, node.3 as int) {
        Some(t) => {
            let lower = lowercase(t);
            lemma_concat_at_line(
                flag(is_rm_rf(lower), line, rm_rf_message()),
                flag(is_dynamic_exec(lower), line, dynamic_exec_message()),
                line,
            );
            let a2 = flag(is_rm_rf(lower), line, rm_rf_message()) + flag(
                is_dynamic_exec(lower),
                line,
                dynamic_exec_message(),
            );
            lemma_concat_at_line(
                a2,
                flag(is_pipe_to_shell(lower), line, pipe_to_shell_message()),
                line,
            );
            let a3 = a2 + flag(is_pipe_to_shell(lower), line, pipe_to_shell_message());
            lemma_concat_at_line(a3, flag(is_dd(t), line, dd_message()), line);
            let a4 = a3 + flag(is_dd(t), line, dd_message());
            lemma_concat_at_line(a4, flag(is_chmod_777(t), line, chmod_message()), line);
        },
        None => {},
    }
}

proof fn lemma_newlines_monotone(b: Seq<u8>, m: int, n: int)
    requires
        m <= n,
    ensures
        newlines_before(b, m) <= newlines_before(b, n),
    decreases n - m,
{
    if m < n {
        lemma_newlines_monotone(b, m, n - 1);
    }
}

proof fn lemma_nodes_issues_ordered(source: Seq<char>, nodes: Seq<NodeRecord>, n: nat)
    requires
        n <= nodes.len(),
        nodes_placed(source, nodes),
    ensures
        lines_sorted(nodes_issues(source, nodes, n)),
        forall|i: int|
            0 <= i < nodes_issues(source, nodes, n).len() ==> 1 <= (
            #[trigger] nodes_issues(source, nodes, n)[i]).line <= line_limit(source),
        n > 0 ==> forall|i: int|
            0 <= i < nodes_issues(source, nodes, n).len() ==> (#[trigger] nodes_issues(
                source,
                nodes,
                n,
            )[i]).line <= nodes[n - 1].1 + 1,
    decreases n,
{
    if n > 0 {
        let b = encode_utf8(source);
        lemma_nodes_issues_ordered(source, nodes, (n - 1) as nat);
        let a = nodes_issues(source, nodes, (n - 1) as nat);
        let c = node_issues(source, nodes[n - 1]);
        let node = nodes[n - 1];
        lemma_node_issues_at_line(source, node);
        assert(node.2 <= node.3 <= b.len());
        lemma_newlines_monotone(b, node.2 as int, b.len() as int);
        if n > 1 {
            let prev = nodes[n - 2];
            assert(prev.2 <= node.2);
            lemma_newlines_monotone(b, prev.2 as int, node.2 as int);
        }
        assert(nodes_issues(source, nodes, n) == a + c);
        assert forall|i: int, j: int|
            0 <= i <= j < (a + c).len() implies (#[trigger] (a + c)[i]).line <= (#[trigger] (a
            + c)[j]).line by {
            if j < a.len() {
                assert((a + c)[i] == a[i]);
                assert((a + c)[j] == a[j]);
            } else if i < a.len() {
                assert((a + c)[i] == a[i]);
                assert((a + c)[j] == c[j - a.len()]);
            } else {
                assert((a + c)[i] == c[i - a.len()]);
                assert((a + c)[j] == c[j - a.len()]);
            }
        }
        if c.len() > 0 {
            assert(node.2 < node.3);
            lemma_row_within_lines(source, node.2 as int);
        }
        assert forall|i: int| 0 <= i < (a + c).len() implies 1 <= (#[trigger] (a + c)[i]).line
            <= line_limit(source) && (a + c)[i].line <= node.1 + 1 by {
            if i < a.len() {
                assert((a + c)[i] == a[i]);
            } else {
                assert((a + c)[i] == c[i - a.len()]);
            }
        }
    }
}

/// Issues come out in the order of their lines, each line between 1 and
/// the number of lines of the source (1 for an empty source).
pub proof fn lemma_issue_lines_ordered(source: Seq<char>)
    requires
        bash_syntax(source) is Some ==> nodes_placed(source, bash_syntax(source)->0),
    ensures
        lines_sorted(validation_issues(source)),
        forall|i: int|
            0 <= i < validation_issues(source).len() ==> 1 <= (
            #[trigger] validation_issues(source)[i]).line <= line_limit(source),
{
    match bash_syntax(source) {
        Some(nodes) => lemma_nodes_issues_ordered(source, nodes, nodes.len()),
        None => {},
    }
}

fn push_error(issues: &mut Vec<ValidationIssue>, line: usize, message: &str)
    ensures
        issue_views(final(issues)@) == issue_views(old(issues)@).push(error_issue(line as nat, message@)),
{
    let ghost before = issues@;
    issues.push(
        ValidationIssue {
            line,
            severity: String::from_str("error"),
            message: String::from_str(message),
        },
    );
    assert(issue_views(issues@) =~= issue_views(before).push(error_issue(line as nat, message@)));
}

fn flag_issue(issues: &mut Vec<ValidationIssue>, flagged: bool, line: usize, message: &str)
    ensures
        issue_views(final(issues)@) == issue_views(old(issues)@) + flag(
            flagged,
            line as nat,
            message@,
        ),
{
    let ghost before = issue_views(issues@);
    if flagged {
        push_error(issues, line, message);
    }
    assert(issue_views(issues@) =~= before + flag(flagged, line as nat, message@));
}

/// Applies the policy to the text of one `command` node and its lowercase.
fn check_command(issues: &mut Vec<ValidationIssue>, line: usize, text: &Vec<char>, lower: &Vec<char>)
    ensures
        issue_views(final(issues)@) == issue_views(old(issues)@) + command_issues(
            line as nat,
            text@,
            lower@,
        ),
{
    let ghost before = issue_views(issues@);
    let rm = has_prefix(lower, &chars_of("rm ")) && (has_infix(lower, &chars_of(" -rf ")) || has_infix(
        lower,
        &chars_of(" -fr "),
    ));
    flag_issue(issues, rm, line, "destructive rm -rf blocked by approval policy");
    let dynamic = has_prefix(lower, &chars_of("eval ")) || has_prefix(lower, &chars_of("source "))
        || has_prefix(lower, &chars_of(". "));
    flag_issue(issues, dynamic, line, "dynamic execution (eval/source/.) blocked");
    let piped = has_infix(lower, &chars_of("curl ")) && has_infix(lower, &chars_of("| sh"));
    flag_issue(issues, piped, line, "pipe-to-shell pattern blocked");
    let dd = same_chars(text, &chars_of("dd")) || has_prefix(text, &chars_of("dd "));
    flag_issue(issues, dd, line, "forbidden command dd blocked");
    let chmod = has_prefix(text, &chars_of("chmod ")) && has_infix(text, &chars_of(" -R 777"));
    flag_issue(issues, chmod, line, "recursive chmod 777 blocked");
    assert(issue_views(issues@) =~= before + command_issues(line as nat, text@, lower@));
}

/// Whether a compacted function definition is `name(){name|name&}`.
fn fork_bomb_shape(c: &Vec<char>) -> (r: bool)
    ensures
        r == is_fork_bomb(c@),
{
    let mut k: usize = 0;
    while k < c.len() && c[k] != '('
        invariant
            k <= c.len(),
            find_char(c@, '(', 0) == find_char(c@, '(', k as int),
        decreases c.len() - k,
    {
        k = k + 1;
    }
    if k == c.len() {
        return false;
    }
    let mut name: Vec<char> = Vec::new();
    let mut i: usize = 0;
    while i < k
        invariant
            i <= k,
            k < c.len(),
            name@ == c@.take(i as int),
        decreases k - i,
    {
        name.push(c[i]);
        assert(c@.take(i + 1) =~= c@.take(i as int).push(c@[i as int]));
        i = i + 1;
    }
    let mut shape: Vec<char> = Vec::new();
    push_all(&mut shape, &name);
    push_all(&mut shape, &chars_of("(){"));
    push_all(&mut shape, &name);
    push_all(&mut shape, &chars_of("|"));
    push_all(&mut shape, &name);
    push_all(&mut shape, &chars_of("&}"));
    same_chars(c, &shape)
}

/// Applies the policy to a node of `kind` with this source text.
fn check_node(issues: &mut Vec<ValidationIssue>, kind: &str, line: usize, text: &str)
    ensures
        issue_views(final(issues)@) == issue_views(old(issues)@) + kind_issues(
            kind@,
            line as nat,
            text@,
        ),
{
    let ghost before = issue_views(issues@);
    let tc = chars_of(text);
    if same_text(kind, "command") {
        let lowered = to_lowercase(text);
        let lower = chars_of(lowered.as_str());
        check_command(issues, line, &tc, &lower);
    } else if same_text(kind, "pipeline") {
        let curl = has_infix(&tc, &chars_of("curl "));
        let shell = has_word(&tc, &chars_of("| sh")) || has_word(&tc, &chars_of("|sh"))
            || has_word(&tc, &chars_of("| bash")) || has_word(&tc, &chars_of("|bash"));
        flag_issue(issues, curl && shell, line, "pipe-to-shell pattern blocked");
    } else if same_text(kind, "file_redirect") {
        let c = compact_chars(&tc);
        let device = has_infix(&c, &chars_of(">/dev/sd"));
        flag_issue(issues, device, line, "redirect to block device blocked");
    } else if same_text(kind, "function_definition") {
        let c = compact_chars(&tc);
        let bomb = fork_bomb_shape(&c);
        flag_issue(issues, bomb, line, "fork bomb blocked");
    } else {
        assert(issue_views(issues@) =~= before + kind_issues(kind@, line as nat, text@));
    }
}

fn any_error(issues: &Vec<ValidationIssue>) -> (r: bool)
    ensures
        r == has_error(issue_views(issues@)),
{
    let mut i: usize = 0;
    while i < issues.len()
        invariant
            i <= issues.len(),
            forall|j: int| 0 <= j < i ==> issues@[j].severity@ != "error"@,
        decreases issues.len() - i,
    {
        if same_text(issues[i].severity.as_str(), "error") {
            assert(issue_views(issues@)[i as int].severity == "error"@);
            return true;
        }
        i = i + 1;
    }
    proof {
        let v = issue_views(issues@);
        assert forall|j: int| 0 <= j < v.len() implies v[j].severity != "error"@ by {
            assert(v[j] == issues@[j]@);
        }
    }
    false
}

fn is_destructive_message(message: &String) -> (r: bool)
    ensures
        r == (contains_seq(message@, "rm -rf"@) || contains_seq(message@, "code injection"@)),
{
    let m = chars_of(message.as_str());
    has_infix(&m, &chars_of("rm -rf")) || has_infix(&m, &chars_of("code injection"))
}

fn any_destructive(issues: &Vec<ValidationIssue>) -> (r: bool)
    ensures
        r == has_destructive(issue_views(issues@)),
{
    let mut i: usize = 0;
    while i < issues.len()
        invariant
            i <= issues.len(),
            forall|j: int|
                0 <= j < i ==> !(contains_seq(issues@[j].message@, "rm -rf"@) || contains_seq(
                    issues@[j].message@,
                    "code injection"@,
                )),
        decreases issues.len() - i,
    {
        if is_destructive_message(&issues[i].message) {
            assert(issue_views(issues@)[i as int].message == issues@[i as int].message@);
            return true;
        }
        i = i + 1;
    }
    proof {
        let v = issue_views(issues@);
        assert forall|j: int|
            0 <= j < v.len() implies !(contains_seq(v[j].message, "rm -rf"@) || contains_seq(
            v[j].message,
            "code injection"@,
        )) by {
            assert(v[j] == issues@[j]@);
        }
    }
    false
}

/// Validates a bash command (or script) against the approval policy. The
/// source is parsed with the bash grammar and each syntax node is checked on
/// its lowercased text: forbidden are `rm` with ` -rf `/` -fr `, `eval`,
/// `source` and `.`, `dd`, and a fork bomb `f(){ f|f& }`; restricted are a
/// pipeline from `curl` into `sh`/`bash`, `chmod -R 777`, and a redirection
/// to `/dev/sd*`. Each finding is an error on the node's line; issues come
/// in line order. The command is approved exactly when no issue was raised.
/// A node whose byte range does not fall on character boundaries of the
/// source is not checked.
pub fn validate_command(source: &str) -> (r: ValidationReport)
    ensures
        r.command@ == source@,
        issue_views(r.issues@) == validation_issues(source@),
        r.approved == report_approved(validation_issues(source@)),
        r.reason@ == report_reason(validation_issues(source@)),
        r.approved <==> r.issues.len() == 0,
        bash_syntax(source@) is Some,
        nodes_placed(source@, bash_syntax(source@)->0),
        lines_sorted(issue_views(r.issues@)),
        forall|i: int|
            0 <= i < r.issues@.len() ==> 1 <= (#[trigger] r.issues@[i]).line <= line_limit(
                source@,
            ),
{
    let mut issues: Vec<ValidationIssue> = Vec::new();
    match parse_bash(source) {
        BashParse::Parsed(tree) => {
            let n = node_count(&tree);
            let mut i: usize = 0;
            while i < n
                invariant
                    n == tree_nodes(tree).len(),
                    i <= n,
                    bash_syntax(source@) == Some(tree_nodes(tree)),
                    nodes_placed(source@, tree_nodes(tree)),
                    issue_views(issues@) == nodes_issues(source@, tree_nodes(tree), i as nat),
                decreases n - i,
            {
                let node = node_at(&tree, i);
                if node.start_byte < node.end_byte {
                    match text_in_range(source, node.start_byte, node.end_byte) {
                        Some(text) => {
                            check_node(&mut issues, node.kind.as_str(), node.row + 1, text);
                        },
                        None => {},
                    }
                }
                i = i + 1;
            }
        },
        BashParse::NoTree => {
            push_error(&mut issues, 1, "failed to parse command as bash");
            assert(issue_views(issues@) =~= seq![error_issue(1, parse_failure_message())]);
        },
        BashParse::LanguageRejected => {},
    }
    let has_err = any_error(&issues);
    let destructive = any_destructive(&issues);
    let approved = !has_err && !destructive;
    let reason = if approved {
        if issues.len() == 0 {
            String::from_str("command passed AST validation")
        } else {
            let mut text = String::from_str("approved with ");
            let count = decimal_text(issues.len() as u128);
            text.append(count.as_str());
            text.append(" warning(s)");
            text
        }
    } else if destructive {
        String::from_str("rejected: destructive or dynamic execution pattern detected")
    } else {
        String::from_str("rejected: AST validation errors")
    };
    proof {
        lemma_issue_lines_ordered(source@);
        assert forall|i: int| 0 <= i < issues@.len() implies 1 <= (#[trigger] issues@[i]).line
            <= line_limit(source@) by {
            assert(issue_views(issues@)[i] == issues@[i]@);
        }
        lemma_validation_issues_are_errors(source@);
        let v = issue_views(issues@);
        if v.len() > 0 {
            assert(v[0].severity == "error"@);
        }
    }
    ValidationReport { approved, command: String::from_str(source), issues, reason }
}


/// Compares two byte strings without an early exit on the first difference.
pub fn constant_time_eq(a: &[u8], b: &[u8]) -> (r: bool)
    ensures
        r == (a@ == b@),
{
    if a.len() != b.len() {
        return false;
    }
    let mut diff: u8 = 0;
    let mut i: usize = 0;
    while i < a.len()
        invariant
            a.len() == b.len(),
            i <= a.len(),
            (diff == 0) <==> (forall|j: int| 0 <= j < i ==> a@[j] == b@[j]),
        decreases a.len() - i,
    {
        let x = a[i];
        let y = b[i];
        let d = diff;
        assert(((d | (x ^ y)) == 0u8) <==> (d == 0u8 && x == y)) by (bit_vector);
        diff = d | (x ^ y);
        i = i + 1;
    }
    if diff == 0 {
        assert(a@ =~= b@);
        true
    } else {
        false
    }
}

/// HMAC-SHA256 of `message` under `key`.
pub uninterp spec fn hmac_sha256(key: Seq<u8>, message: Seq<u8>) -> Seq<u8>;

/// `String::from_utf8_lossy` of the bytes.
pub uninterp spec fn utf8_lossy(bytes: Seq<u8>) -> Seq<char>;

/// Lowercase hexadecimal digit for `d < 16`.
pub open spec fn hex_digit(d: nat) -> char {
    if d < 10 {
        ((d as int) + 48) as char
    } else {
        ((d as int) + 87) as char
    }
}

/// Two lowercase hex digits per byte, high nibble first.
pub open spec fn hex_lower(bytes: Seq<u8>) -> Seq<char>
    decreases bytes.len(),
{
    if bytes.len() == 0 {
        seq![]
    } else {
        seq![hex_digit((bytes[0] / 16) as nat), hex_digit((bytes[0] % 16) as nat)] + hex_lower(
            bytes.drop_first(),
        )
    }
}

/// Calls `String::from_utf8_lossy`. std documents that valid UTF-8 comes
/// back unchanged; invalid sequences become U+FFFD, which is left to the
/// name `utf8_lossy`.
#[verifier::external_body]
pub(crate) fn lossy_text(bytes: &[u8]) -> (r: String)
    ensures
        r@ == utf8_lossy(bytes@),
        valid_utf8(bytes@) ==> r@ == decode_utf8(bytes@),
{
    String::from_utf8_lossy(bytes).into_owned()
}

/// Computes HMAC-SHA256 with `hmac::Hmac<sha2::Sha256>`:
/// `Mac::new_from_slice(key)`, `Mac::update(message)`, `Mac::finalize`.
/// `new_from_slice` of `HmacCore` returns `Ok` for every key length (longer
/// keys are hashed first), so the result is always `Some`; the tag is a
/// SHA-256 digest, 32 bytes long.
#[verifier::external_body]
fn hmac_sha256_tag(key: &[u8], message: &[u8]) -> (r: Option<Vec<u8>>)
    ensures
        r is Some,
        r matches Some(tag) ==> tag@ == hmac_sha256(key@, message@) && tag@.len() == 32,
{
    let mut mac = match hmac::Hmac::<sha2::Sha256>::new_from_slice(key) {
        Ok(m) => m,
        Err(_) => return None,
    };
    mac.update(message);
    Some(mac.finalize().into_bytes().to_vec())
}

/// Calls `hex::encode`, documented to write each byte as two lowercase hex
/// digits.
#[verifier::external_body]
fn hex_encode(bytes: &[u8]) -> (r: String)
    ensures
        r@ == hex_lower(bytes@),
{
    hex::encode(bytes)
}

/// The base string Slack signs: `v0:{timestamp}:{body}`.
pub open spec fn slack_base_string(timestamp: Seq<char>, body: Seq<u8>) -> Seq<char> {
    "v0:"@ + timestamp + ":"@ + utf8_lossy(body)
}

/// The signature Slack sends for a request: `v0=` and the hex HMAC-SHA256 of
/// the base string under the signing secret.
pub open spec fn expected_slack_signature(
    signing_secret: Seq<char>,
    timestamp: Seq<char>,
    body: Seq<u8>,
) -> Seq<char> {
    "v0="@ + hex_lower(
        hmac_sha256(encode_utf8(signing_secret), encode_utf8(slack_base_string(timestamp, body))),
    )
}

/// A Slack request signature is accepted: the signing secret is set and
/// the signature is the one computed from it.
pub open spec fn slack_signature_valid(
    signing_secret: Seq<char>,
    timestamp: Seq<char>,
    body: Seq<u8>,
    signature: Seq<char>,
) -> bool {
    signing_secret.len() > 0 && signature == expected_slack_signature(
        signing_secret,
        timestamp,
        body,
    )
}

/// A request signed with the configured secret is accepted.
pub proof fn lemma_signed_request_accepted(
    signing_secret: Seq<char>,
    timestamp: Seq<char>,
    body: Seq<u8>,
)
    requires
        signing_secret.len() > 0,
    ensures
        slack_signature_valid(
            signing_secret,
            timestamp,
            body,
            expected_slack_signature(signing_secret, timestamp, body),
        ),
{
}

/// Without a signing secret no signature is accepted.
pub proof fn lemma_no_secret_rejects(timestamp: Seq<char>, body: Seq<u8>, signature: Seq<char>)
    ensures
        !slack_signature_valid(Seq::empty(), timestamp, body, signature),
{
}

/// A signature other than the computed one is rejected.
pub proof fn lemma_wrong_signature_rejected(
    signing_secret: Seq<char>,
    timestamp: Seq<char>,
    body: Seq<u8>,
    signature: Seq<char>,
)
    requires
        signature != expected_slack_signature(signing_secret, timestamp, body),
    ensures
        !slack_signature_valid(signing_secret, timestamp, body, signature),
{
}

/// Hex text is two characters per byte.
pub proof fn lemma_hex_lower_len(bytes: Seq<u8>)
    ensures
        hex_lower(bytes).len() == 2 * bytes.len(),
    decreases bytes.len(),
{
    if bytes.len() > 0 {
        lemma_hex_lower_len(bytes.drop_first());
    }
}

/// The computed signature of a request is 67 characters long (`v0=` and 64
/// hex digits) where the HMAC tag has its 32 bytes, so a signature of any
/// other length is rejected.
pub proof fn lemma_wrong_length_rejected(
    signing_secret: Seq<char>,
    timestamp: Seq<char>,
    body: Seq<u8>,
    signature: Seq<char>,
)
    requires
        hmac_sha256(
            encode_utf8(signing_secret),
            encode_utf8(slack_base_string(timestamp, body)),
        ).len() == 32,
        signature.len() != 67,
    ensures
        expected_slack_signature(signing_secret, timestamp, body).len() == 67,
        !slack_signature_valid(signing_secret, timestamp, body, signature),
{
    reveal_strlit("v0=");
    lemma_hex_lower_len(
        hmac_sha256(encode_utf8(signing_secret), encode_utf8(slack_base_string(timestamp, body))),
    );
}

/// Computes the Slack request signature for a signing secret, timestamp and
/// body.
pub fn slack_signature(signing_secret: &str, timestamp: &str, body: &[u8]) -> (r: String)
    ensures
        r@ == expected_slack_signature(signing_secret@, timestamp@, body@),
        r@.len() == 67,
{
    let mut base = String::from_str("v0:");
    base.append(timestamp);
    base.append(":");
    let lossy = lossy_text(body);
    base.append(lossy.as_str());
    let tag = match hmac_sha256_tag(signing_secret.as_bytes(), base.as_str().as_bytes()) {
        Some(t) => t,
        None => Vec::new(),
    };
    let hex = hex_encode(tag.as_slice());
    let mut expected = String::from_str("v0=");
    expected.append(hex.as_str());
    assert(base@ =~= slack_base_string(timestamp@, body@));
    assert(expected@ =~= expected_slack_signature(signing_secret@, timestamp@, body@));
    proof {
        reveal_strlit("v0=");
        lemma_hex_lower_len(tag@);
    }
    expected
}

/// Checks a Slack request signature: a request is accepted when the signing
/// secret is set and the signature equals `v0=` with the hex HMAC-SHA256 of
/// `v0:{timestamp}:{body}` under the secret. The comparison does not stop at
/// the first differing byte.
pub fn verify_slack_signature(
    signing_secret: &str,
    timestamp: &str,
    body: &[u8],
    signature: &str,
) -> (r: bool)
    ensures
        r == slack_signature_valid(signing_secret@, timestamp@, body@, signature@),
        signature@.len() != 67 ==> !r,
{
    if signing_secret.is_empty() {
        return false;
    }
    let expected = slack_signature(signing_secret, timestamp, body);
    let r = constant_time_eq(signature.as_bytes(), expected.as_str().as_bytes());
    proof {
        encode_utf8_decode_utf8(signature@);
        encode_utf8_decode_utf8(expected@);
    }
    r
}

} // verus!
