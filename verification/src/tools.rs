//! The assistant's read-only requests (read a file, list a directory,
//! search the workspace) and the report of their outcomes: a line per
//! request for the panel, and the text fed back to the model.  Carrying out
//! the requests is the window's.
use vstd::prelude::*;
use vstd::string::StringExecFns;
use vstd::utf8::encode_utf8;

use crate::ai_edits::{split_lines, text_lines};
use crate::listing::{decimal, decimal_string};

verus! {

/// A read-only request of the assistant.
pub enum ToolRequest {
    /// Read a workspace file, by relative path.
    Read(String),
    /// List a workspace directory, by relative path (empty: the root).
    List(String),
    /// Search the workspace for a keyword.
    Search(String),
}

/// Number of lines of `s` (as `str::lines` counts them).
pub open spec fn line_count(s: Seq<char>) -> nat {
    text_lines(encode_utf8(s)).len()
}

/// How a request is named in the report: the path, `.` for the root
/// directory, or the keyword.
pub open spec fn request_subject(req: ToolRequest) -> Seq<char> {
    match req {
        ToolRequest::Read(p) => p@,
        ToolRequest::List(p) => if p@.len() == 0 {
            "."@
        } else {
            p@
        },
        ToolRequest::Search(k) => k@,
    }
}

/// The panel line for a request and its outcome (text, or error message).
pub open spec fn display_line(req: ToolRequest, outcome: Result<Seq<char>, Seq<char>>) -> Seq<char> {
    let s = request_subject(req);
    match (req, outcome) {
        (ToolRequest::Read(_), Ok(t)) => "◎ 已读取 `"@ + s + "`（"@ + decimal(line_count(t)) + " 行）"@,
        (ToolRequest::Read(_), Err(e)) => "✕ 读取 `"@ + s + "` 失败："@ + e,
        (ToolRequest::List(_), Ok(_)) => "◇ 已列出目录 `"@ + s + "`"@,
        (ToolRequest::List(_), Err(e)) => "✕ 列出 `"@ + s + "` 失败："@ + e,
        (ToolRequest::Search(_), Ok(t)) => "◈ 已搜索 `"@ + s + "`（"@ + decimal(line_count(t))
            + " 个结果）"@,
        (ToolRequest::Search(_), Err(e)) => "✕ 搜索 `"@ + s + "` 失败："@ + e,
    }
}

/// What the model is told of a request and its outcome.
pub open spec fn feedback_entry(req: ToolRequest, outcome: Result<Seq<char>, Seq<char>>) -> Seq<
    char,
> {
    let s = request_subject(req);
    match (req, outcome) {
        (ToolRequest::Read(_), Ok(t)) => "[文件内容] "@ + s + "\n```\n"@ + t + "\n```"@,
        (ToolRequest::Read(_), Err(e)) => "[文件读取失败] "@ + s + "："@ + e,
        (ToolRequest::List(_), Ok(t)) => "[目录列表] "@ + s + "\n"@ + t,
        (ToolRequest::List(_), Err(e)) => "[目录列出失败] "@ + s + "："@ + e,
        (ToolRequest::Search(_), Ok(t)) => "[搜索结果] "@ + s + "\n"@ + t,
        (ToolRequest::Search(_), Err(e)) => "[搜索失败] "@ + s + "："@ + e,
    }
}

/// An outcome as plain text.
pub open spec fn outcome_view(o: Result<String, String>) -> Result<Seq<char>, Seq<char>> {
    match o {
        Ok(t) => Ok(t@),
        Err(e) => Err(e@),
    }
}

/// `parts` joined by blank lines.
pub open spec fn paragraphs(parts: Seq<Seq<char>>) -> Seq<char>
    decreases parts.len(),
{
    if parts.len() == 0 {
        Seq::empty()
    } else if parts.len() == 1 {
        parts[0]
    } else {
        paragraphs(parts.drop_last()) + "\n\n"@ + parts.last()
    }
}

/// The feedback entries of the first `n` requests.
pub open spec fn feedback_entries(
    reqs: Seq<ToolRequest>,
    outcomes: Seq<Result<String, String>>,
    n: int,
) -> Seq<Seq<char>> {
    Seq::new(n as nat, |i: int| feedback_entry(reqs[i], outcome_view(outcomes[i])))
}

/// How `req` is named in the report (see `request_subject`).
fn subject_of(req: &ToolRequest) -> (r: String)
    ensures
        r@ == request_subject(*req),
{
    match req {
        ToolRequest::Read(p) => p.clone(),
        ToolRequest::List(p) => if p.as_str().is_empty() {
            String::from_str(".")
        } else {
            p.clone()
        },
        ToolRequest::Search(k) => k.clone(),
    }
}

/// Number of lines of `s` (as `str::lines` counts them).
fn count_lines(s: &str) -> (n: usize)
    ensures
        n == line_count(s@),
{
    let b = s.as_bytes();
    let spans = split_lines(b);
    proof {
        assert(crate::ai_edits::span_texts(b@, spans@).len() == spans@.len());
    }
    spans.len()
}

/// The panel line for `req` and its outcome (see `display_line`).
fn display_line_of(req: &ToolRequest, outcome: &Result<String, String>) -> (r: String)
    ensures
        r@ == display_line(*req, outcome_view(*outcome)),
{
    let s = subject_of(req);
    match (req, outcome) {
        (ToolRequest::Read(_), Ok(t)) => {
            let n = decimal_string(count_lines(t.as_str()) as u64);
            String::from_str("◎ 已读取 `").concat(s.as_str()).concat("`（").concat(n.as_str()).concat(
                " 行）",
            )
        },
        (ToolRequest::Read(_), Err(e)) => String::from_str("✕ 读取 `").concat(s.as_str()).concat(
            "` 失败：",
        ).concat(e.as_str()),
        (ToolRequest::List(_), Ok(_)) => String::from_str("◇ 已列出目录 `").concat(s.as_str()).concat(
            "`",
        ),
        (ToolRequest::List(_), Err(e)) => String::from_str("✕ 列出 `").concat(s.as_str()).concat(
            "` 失败：",
        ).concat(e.as_str()),
        (ToolRequest::Search(_), Ok(t)) => {
            let n = decimal_string(count_lines(t.as_str()) as u64);
            String::from_str("◈ 已搜索 `").concat(s.as_str()).concat("`（").concat(n.as_str()).concat(
                " 个结果）",
            )
        },
        (ToolRequest::Search(_), Err(e)) => String::from_str("✕ 搜索 `").concat(s.as_str()).concat(
            "` 失败：",
        ).concat(e.as_str()),
    }
}

/// What the model is told of `req` and its outcome (see `feedback_entry`).
fn feedback_entry_of(req: &ToolRequest, outcome: &Result<String, String>) -> (r: String)
    ensures
        r@ == feedback_entry(*req, outcome_view(*outcome)),
{
    let s = subject_of(req);
    match (req, outcome) {
        (ToolRequest::Read(_), Ok(t)) => String::from_str("[文件内容] ").concat(s.as_str()).concat(
            "\n```\n",
        ).concat(t.as_str()).concat("\n```"),
        (ToolRequest::Read(_), Err(e)) => String::from_str("[文件读取失败] ").concat(s.as_str()).concat(
            "：",
        ).concat(e.as_str()),
        (ToolRequest::List(_), Ok(t)) => String::from_str("[目录列表] ").concat(s.as_str()).concat(
            "\n",
        ).concat(t.as_str()),
        (ToolRequest::List(_), Err(e)) => String::from_str("[目录列出失败] ").concat(s.as_str()).concat(
            "：",
        ).concat(e.as_str()),
        (ToolRequest::Search(_), Ok(t)) => String::from_str("[搜索结果] ").concat(s.as_str()).concat(
            "\n",
        ).concat(t.as_str()),
        (ToolRequest::Search(_), Err(e)) => String::from_str("[搜索失败] ").concat(s.as_str()).concat(
            "：",
        ).concat(e.as_str()),
    }
}

/// The report of the requests `reqs` whose outcomes are `outcomes` (the
/// text read, listed or found, or an error message), in order: a panel
/// line per request (`display_line`) and the feedback entries
/// (`feedback_entry`) joined by blank lines.
pub fn tool_report(reqs: &Vec<ToolRequest>, outcomes: &Vec<Result<String, String>>) -> (r: (
    Vec<String>,
    String,
))
    requires
        reqs@.len() == outcomes@.len(),
    ensures
        r.0@.len() == reqs@.len(),
        forall|i: int|
            0 <= i < reqs@.len() ==> (#[trigger] r.0@[i])@ == display_line(
                reqs@[i],
                outcome_view(outcomes@[i]),
            ),
        r.1@ == paragraphs(feedback_entries(reqs@, outcomes@, reqs@.len() as int)),
{
    let mut display: Vec<String> = Vec::new();
    let mut feedback = String::new();
    let mut i: usize = 0;
    while i < reqs.len()
        invariant
            reqs@.len() == outcomes@.len(),
            i <= reqs@.len(),
            display@.len() == i,
            forall|k: int|
                0 <= k < i ==> (#[trigger] display@[k])@ == display_line(
                    reqs@[k],
                    outcome_view(outcomes@[k]),
                ),
            feedback@ == paragraphs(feedback_entries(reqs@, outcomes@, i as int)),
        decreases reqs@.len() - i,
    {
        let line = display_line_of(&reqs[i], &outcomes[i]);
        display.push(line);
        let entry = feedback_entry_of(&reqs[i], &outcomes[i]);
        proof {
            let e = feedback_entries(reqs@, outcomes@, i + 1);
            assert(e.drop_last() =~= feedback_entries(reqs@, outcomes@, i as int));
            assert(e.last() == entry@);
        }
        if i > 0 {
            feedback.append("\n\n");
        }
        feedback.append(entry.as_str());
        proof {
            let e = feedback_entries(reqs@, outcomes@, i + 1);
            if i == 0 {
                assert(feedback@ =~= paragraphs(e));
            } else {
                assert(feedback@ =~= paragraphs(e));
            }
        }
        i = i + 1;
    }
    (display, feedback)
}

} // verus!
