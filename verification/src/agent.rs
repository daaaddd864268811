//! The assistant's agent mode: what a finished reply leads to, the summary
//! of the work a reply did, and the pipeline that carries out a planned
//! list of tasks one by one.  Talking to the model and touching the disk
//! are the window's.
use vstd::prelude::*;
use vstd::string::StringExecFns;

use crate::ai_edits::{truncate_chars, truncation_notice};
use crate::browser::{trim_chars, trim_str};
use crate::listing::{decimal, decimal_string, joined};

verus! {

/// What a reply that has just finished leads to.
#[derive(Clone, Copy, Debug, PartialEq, Eq, Structural)]
pub enum AgentStep {
    /// A task pipeline runs: the reply is its worker's output.
    AdvancePipeline,
    /// The reply holds a task plan: a pipeline starts.
    StartPipeline,
    /// The reply asks for file or terminal work but no workspace is open:
    /// the user is told to open one first.
    NeedWorkspace,
    /// The reply's actions are carried out.
    Process,
}

/// What a finished reply leads to: pipeline work only for the active
/// conversation (a plan only in agent mode), then the workspace gate.
pub open spec fn spec_agent_step(
    is_active: bool,
    pipeline_running: bool,
    agent_mode: bool,
    plan_found: bool,
    has_markers: bool,
    folder_open: bool,
) -> AgentStep {
    if is_active && pipeline_running {
        AgentStep::AdvancePipeline
    } else if is_active && agent_mode && plan_found {
        AgentStep::StartPipeline
    } else if has_markers && !folder_open {
        AgentStep::NeedWorkspace
    } else {
        AgentStep::Process
    }
}

/// Decides what a finished reply leads to (see `spec_agent_step`): whether
/// its conversation is the active one, a pipeline runs, agent mode is on, a
/// plan was found in it, it holds action markers, and a folder is open.
pub fn agent_step(
    is_active: bool,
    pipeline_running: bool,
    agent_mode: bool,
    plan_found: bool,
    has_markers: bool,
    folder_open: bool,
) -> (s: AgentStep)
    ensures
        s == spec_agent_step(
            is_active,
            pipeline_running,
            agent_mode,
            plan_found,
            has_markers,
            folder_open,
        ),
{
    if is_active && pipeline_running {
        AgentStep::AdvancePipeline
    } else if is_active && agent_mode && plan_found {
        AgentStep::StartPipeline
    } else if has_markers && !folder_open {
        AgentStep::NeedWorkspace
    } else {
        AgentStep::Process
    }
}

/// The texts of `v`.
pub open spec fn texts(v: Seq<String>) -> Seq<Seq<char>> {
    v.map_values(|s: String| s@)
}

proof fn lemma_texts_push(v: Seq<String>, x: String)
    ensures
        texts(v.push(x)) == texts(v).push(x@),
{
    assert(texts(v.push(x)) =~= texts(v).push(x@));
}

/// `lines` joined by line breaks.
pub fn join_lines(lines: &Vec<String>) -> (r: String)
    ensures
        r@ == joined(texts(lines@)),
{
    let ghost ls = texts(lines@);
    let mut r = String::new();
    let mut k: usize = 0;
    while k < lines.len()
        invariant
            k <= lines@.len(),
            ls == texts(lines@),
            r@ == joined(ls.take(k as int)),
        decreases lines@.len() - k,
    {
        proof {
            assert(ls.take(k + 1).drop_last() =~= ls.take(k as int));
            assert(ls.take(k + 1).last() == lines@[k as int]@);
        }
        if k > 0 {
            r.append("\n");
        }
        r.append(lines[k].as_str());
        proof {
            reveal_strlit("\n");
            if k == 0 {
                assert(ls.take(1) =~= seq![ls[0]]);
            }
            assert(r@ =~= joined(ls.take(k + 1)));
        }
        k = k + 1;
    }
    proof {
        assert(ls.take(lines@.len() as int) =~= ls);
    }
    r
}

/// `prefix` before each of `items`.
pub open spec fn prefixed(prefix: Seq<char>, items: Seq<Seq<char>>) -> Seq<Seq<char>> {
    items.map_values(|x: Seq<char>| prefix + x)
}

/// A section of the task summary: its title, then its items (each after
/// `prefix`), or `none` when it has no items, then a blank line unless it
/// is the last section.
pub open spec fn summary_section(
    title: Seq<char>,
    items: Seq<Seq<char>>,
    none: Seq<char>,
    prefix: Seq<char>,
) -> Seq<Seq<char>> {
    seq![title] + if items.len() == 0 {
        seq![none]
    } else {
        prefixed(prefix, items)
    }
}

/// The notes on code changes: the number of changed files (when files were
/// written), then the commands that ran.
pub open spec fn change_notes(
    done: Seq<Seq<char>>,
    fixes: Seq<Seq<char>>,
    commands: Seq<Seq<char>>,
) -> Seq<Seq<char>> {
    let writes = done.len() + fixes.len();
    (if writes > 0 {
        seq!["共变更 "@ + decimal(writes) + " 个文件"@]
    } else {
        Seq::empty()
    }) + commands
}

/// The audit notes: where writes were made (when files were written), that
/// deleted files can be restored (when a file was deleted), then the
/// read-only look-ups that were made.
pub open spec fn audit_notes(
    has_writes: bool,
    has_delete: bool,
    lookups: Seq<Seq<char>>,
) -> Seq<Seq<char>> {
    (if has_writes {
        seq![
            "所有写操作均限制在当前工作区内（沙箱路径校验）"@,
            "修改前的历史快照已保存，展开文件卡片可查看红绿差异"@,
        ]
    } else {
        Seq::empty()
    }) + (if has_delete {
        seq!["删除的文件已移入回收站，支持 Ctrl+Z 恢复"@]
    } else {
        Seq::empty()
    }) + lookups
}

/// The lines of the task summary of a reply: the files it wrote (`done`),
/// the fixes it made (`fixes`), the commands it ran, the look-ups it made,
/// and what failed, in five sections.
pub open spec fn summary_lines(
    done: Seq<Seq<char>>,
    fixes: Seq<Seq<char>>,
    commands: Seq<Seq<char>>,
    lookups: Seq<Seq<char>>,
    failures: Seq<Seq<char>>,
    has_delete: bool,
) -> Seq<Seq<char>> {
    let has_writes = done.len() + fixes.len() > 0;
    seq!["## 任务总结"@, ""@] + summary_section("**执行的功能**"@, done, "- （无）"@, "- ✓ "@)
        + seq![""@] + summary_section(
        "**修复的 Bug**"@,
        fixes,
        "- （本轮无 Bug 修复记录）"@,
        "- ✓ "@,
    ) + seq![""@] + summary_section(
        "**代码修改**"@,
        change_notes(done, fixes, commands),
        "- （无）"@,
        "- "@,
    ) + seq![""@] + summary_section(
        "**审计信息**"@,
        audit_notes(has_writes, has_delete, lookups),
        "- （无安全相关记录）"@,
        "- "@,
    ) + seq![""@] + summary_section("**失败项**"@, failures, "- （全部成功）"@, "- ✕ "@)
}

/// The task summary of a reply (see `summary_lines`), when there is
/// anything to report: files written, code-change notes, or failures.
pub open spec fn spec_task_summary(
    done: Seq<Seq<char>>,
    fixes: Seq<Seq<char>>,
    commands: Seq<Seq<char>>,
    lookups: Seq<Seq<char>>,
    failures: Seq<Seq<char>>,
    has_delete: bool,
) -> Option<Seq<char>> {
    let has_writes = done.len() + fixes.len() > 0;
    if has_writes || change_notes(done, fixes, commands).len() > 0 || failures.len() > 0 {
        Some(joined(summary_lines(done, fixes, commands, lookups, failures, has_delete)))
    } else {
        None
    }
}

/// Appends `items`, each after `prefix`, to `lines`.
fn push_prefixed(lines: &mut Vec<String>, prefix: &str, items: &Vec<String>)
    ensures
        texts(final(lines)@) == texts(old(lines)@) + prefixed(prefix@, texts(items@)),
{
    let mut k: usize = 0;
    while k < items.len()
        invariant
            k <= items@.len(),
            texts(lines@) == texts(old(lines)@) + prefixed(prefix@, texts(items@).take(k as int)),
        decreases items@.len() - k,
    {
        let line = String::from_str(prefix).concat(items[k].as_str());
        let ghost before = lines@;
        lines.push(line);
        proof {
            lemma_texts_push(before, line);
            assert(texts(items@).take(k + 1) =~= texts(items@).take(k as int).push(items@[k as int]@));
            assert(prefixed(prefix@, texts(items@).take(k + 1)) =~= prefixed(
                prefix@,
                texts(items@).take(k as int),
            ).push(prefix@ + items@[k as int]@));
            assert(texts(lines@) =~= texts(old(lines)@) + prefixed(
                prefix@,
                texts(items@).take(k + 1),
            ));
        }
        k = k + 1;
    }
    proof {
        assert(texts(items@).take(items@.len() as int) =~= texts(items@));
    }
}

/// Appends the line `t` to `lines`.
fn push_text(lines: &mut Vec<String>, t: &str)
    ensures
        texts(final(lines)@) == texts(old(lines)@).push(t@),
{
    let x = String::from_str(t);
    lines.push(x);
    proof {
        lemma_texts_push(old(lines)@, x);
    }
}

/// Appends a section of the summary (see `summary_section`) to `lines`.
fn push_section(lines: &mut Vec<String>, title: &str, items: &Vec<String>, none: &str, prefix: &str)
    ensures
        texts(final(lines)@) == texts(old(lines)@) + summary_section(
            title@,
            texts(items@),
            none@,
            prefix@,
        ),
{
    push_text(lines, title);
    if items.len() == 0 {
        push_text(lines, none);
        proof {
            assert(texts(lines@) =~= texts(old(lines)@) + summary_section(
                title@,
                texts(items@),
                none@,
                prefix@,
            ));
        }
    } else {
        let ghost mid = lines@;
        push_prefixed(lines, prefix, items);
        proof {
            assert(texts(mid) =~= texts(old(lines)@).push(title@));
            assert(texts(lines@) =~= texts(old(lines)@) + summary_section(
                title@,
                texts(items@),
                none@,
                prefix@,
            ));
        }
    }
}

/// The task summary of a reply (see `spec_task_summary`): `done` are the
/// files it wrote, `fixes` the fixes it made, `commands` the commands it
/// ran, `lookups` the read-only look-ups it made, `failures` what failed,
/// and `has_delete` whether it deleted a file.
pub fn task_summary(
    done: &Vec<String>,
    fixes: &Vec<String>,
    commands: &Vec<String>,
    lookups: &Vec<String>,
    failures: &Vec<String>,
    has_delete: bool,
) -> (r: Option<String>)
    requires
        done@.len() + fixes@.len() <= u64::MAX,
    ensures
        match (
            r,
            spec_task_summary(
                texts(done@),
                texts(fixes@),
                texts(commands@),
                texts(lookups@),
                texts(failures@),
                has_delete,
            ),
        ) {
            (Some(s), Some(t)) => s@ == t,
            (None, None) => true,
            _ => false,
        },
{
    let writes = done.len() as u64 + fixes.len() as u64;
    let has_writes = writes > 0;
    let mut changes: Vec<String> = Vec::new();
    if has_writes {
        let n = decimal_string(writes);
        changes.push(String::from_str("共变更 ").concat(n.as_str()).concat(" 个文件"));
    }
    let ghost c0 = changes@;
    let mut k: usize = 0;
    while k < commands.len()
        invariant
            k <= commands@.len(),
            texts(changes@) == texts(c0) + texts(commands@).take(k as int),
        decreases commands@.len() - k,
    {
        let c = commands[k].clone();
        let ghost before = changes@;
        changes.push(c);
        proof {
            lemma_texts_push(before, c);
            assert(texts(commands@).take(k + 1) =~= texts(commands@).take(k as int).push(
                commands@[k as int]@,
            ));
            assert(texts(changes@) =~= texts(c0) + texts(commands@).take(k + 1));
        }
        k = k + 1;
    }
    proof {
        assert(texts(commands@).take(commands@.len() as int) =~= texts(commands@));
        assert(texts(changes@) =~= change_notes(texts(done@), texts(fixes@), texts(commands@)));
    }
    if !(has_writes || changes.len() > 0 || failures.len() > 0) {
        return None;
    }
    let mut audit: Vec<String> = Vec::new();
    if has_writes {
        audit.push(String::from_str("所有写操作均限制在当前工作区内（沙箱路径校验）"));
        audit.push(String::from_str("修改前的历史快照已保存，展开文件卡片可查看红绿差异"));
    }
    if has_delete {
        audit.push(String::from_str("删除的文件已移入回收站，支持 Ctrl+Z 恢复"));
    }
    let ghost a0 = audit@;
    let mut k: usize = 0;
    while k < lookups.len()
        invariant
            k <= lookups@.len(),
            texts(audit@) == texts(a0) + texts(lookups@).take(k as int),
        decreases lookups@.len() - k,
    {
        let c = lookups[k].clone();
        let ghost before = audit@;
        audit.push(c);
        proof {
            lemma_texts_push(before, c);
            assert(texts(lookups@).take(k + 1) =~= texts(lookups@).take(k as int).push(
                lookups@[k as int]@,
            ));
            assert(texts(audit@) =~= texts(a0) + texts(lookups@).take(k + 1));
        }
        k = k + 1;
    }
    proof {
        assert(texts(lookups@).take(lookups@.len() as int) =~= texts(lookups@));
        assert(texts(audit@) =~= audit_notes(has_writes, has_delete, texts(lookups@)));
    }
    let ghost d = texts(done@);
    let ghost f = texts(fixes@);
    let ghost cm = texts(commands@);
    let ghost lk = texts(lookups@);
    let ghost fl = texts(failures@);
    let mut lines: Vec<String> = Vec::new();
    push_text(&mut lines, "## 任务总结");
    push_text(&mut lines, "");
    let ghost g0 = texts(lines@);
    push_section(&mut lines, "**执行的功能**", done, "- （无）", "- ✓ ");
    push_text(&mut lines, "");
    let ghost g1 = texts(lines@);
    push_section(&mut lines, "**修复的 Bug**", fixes, "- （本轮无 Bug 修复记录）", "- ✓ ");
    push_text(&mut lines, "");
    let ghost g2 = texts(lines@);
    push_section(&mut lines, "**代码修改**", &changes, "- （无）", "- ");
    push_text(&mut lines, "");
    let ghost g3 = texts(lines@);
    push_section(&mut lines, "**审计信息**", &audit, "- （无安全相关记录）", "- ");
    push_text(&mut lines, "");
    let ghost g4 = texts(lines@);
    push_section(&mut lines, "**失败项**", failures, "- （全部成功）", "- ✕ ");
    proof {
        reveal_strlit("");
        let s1 = summary_section("**执行的功能**"@, d, "- （无）"@, "- ✓ "@);
        let s2 = summary_section("**修复的 Bug**"@, f, "- （本轮无 Bug 修复记录）"@, "- ✓ "@);
        let s3 = summary_section("**代码修改**"@, texts(changes@), "- （无）"@, "- "@);
        let s4 = summary_section("**审计信息**"@, texts(audit@), "- （无安全相关记录）"@, "- "@);
        let s5 = summary_section("**失败项**"@, fl, "- （全部成功）"@, "- ✕ "@);
        assert(g0 =~= seq!["## 任务总结"@, ""@]);
        assert(g1 =~= g0 + s1 + seq![""@]);
        assert(g2 =~= g1 + s2 + seq![""@]);
        assert(g3 =~= g2 + s3 + seq![""@]);
        assert(g4 =~= g3 + s4 + seq![""@]);
        assert(texts(lines@) =~= g4 + s5);
        assert(texts(lines@) =~= summary_lines(d, f, cm, lk, fl, has_delete));
    }
    Some(join_lines(&lines))
}

/// The kind of a planned task.
#[derive(Clone, Copy, Debug, PartialEq, Eq, Structural)]
pub enum PlannedTaskKind {
    /// Generate a file (by a worker request to the model).
    File,
    /// Run a command in the terminal.
    Run,
}

/// One task of a plan: its kind, its target (a file or a command), and
/// what it is for.
pub struct PlannedTask {
    pub kind: PlannedTaskKind,
    pub target: String,
    pub description: String,
}

/// A plan being carried out: the tasks in order, the next one (`cursor`),
/// the files written and those that failed, and how often the current
/// file's cut-off output was resumed.
pub struct AgentPipeline {
    pub goal: String,
    pub tasks: Vec<PlannedTask>,
    pub cursor: usize,
    pub created_files: Vec<String>,
    pub failed_files: Vec<String>,
    pub resume_count: usize,
}

/// How often a cut-off file output is resumed before the task counts as failed.
pub const MAX_RESUME_COUNT: usize = 3;

/// What the window does after a worker's reply was taken.
pub enum PipelineAction {
    /// The user stopped: drop the pipeline and say the rest was not done.
    Abort,
    /// There is no current task: nothing to do.
    Idle,
    /// The output was cut off: ask the model to go on writing `target`
    /// (the `attempt`-th time).
    Resume { target: String, attempt: usize },
    /// The output was cut off too often: `target` failed; go on with the
    /// next task.
    ResumeLimitReached { target: String },
    /// The output was written (or not): go on with the next task; a failed
    /// task with a reason is reported.
    Recorded { failure: Option<(String, String)> },
}

/// The current task's target, if there is a current task.
pub open spec fn current_target(p: AgentPipeline) -> Option<String> {
    if p.cursor < p.tasks@.len() {
        Some(p.tasks@[p.cursor as int].target)
    } else {
        None
    }
}

/// `n` and `a` are what taking a cut-off reply does to the pipeline `o`:
/// with no current task nothing; below the resume limit the task is resumed
/// once more; at the limit it fails and the next task follows.
pub open spec fn truncated_step(o: AgentPipeline, n: AgentPipeline, a: PipelineAction) -> bool {
    match current_target(o) {
        None => a is Idle && n == o,
        Some(t) => if o.resume_count >= MAX_RESUME_COUNT {
            &&& a == (PipelineAction::ResumeLimitReached { target: t })
            &&& n == (AgentPipeline {
                cursor: (o.cursor + 1) as usize,
                resume_count: 0,
                failed_files: n.failed_files,
                ..o
            })
            &&& n.failed_files@ == o.failed_files@.push(t)
        } else {
            &&& a == (PipelineAction::Resume {
                target: t,
                attempt: (o.resume_count + 1) as usize,
            })
            &&& n == (AgentPipeline {
                resume_count: (o.resume_count + 1) as usize,
                ..o
            })
        },
    }
}

/// Takes a worker's reply for the pipeline `p`: `stop_requested` (the user
/// stopped), `truncated` (the reply was cut off), and `written` (what
/// writing the reply's file gave: the files written, or why it failed;
/// `None` when nothing could be written and there is no reason to report).
/// Stopping aborts.  A cut-off reply for the current task is resumed, at
/// most `MAX_RESUME_COUNT` times; after that the task fails and the next
/// one follows.  Otherwise the task is recorded as written (some file was
/// written) or failed, and the next one follows with the resume count reset.
pub fn advance_pipeline(
    p: &mut AgentPipeline,
    stop_requested: bool,
    truncated: bool,
    written: Option<Result<Vec<String>, String>>,
) -> (a: PipelineAction)
    requires
        old(p).cursor < usize::MAX,
    ensures
        stop_requested ==> a is Abort && *final(p) == *old(p),
        !stop_requested && truncated ==> truncated_step(*old(p), *final(p), a),
        !stop_requested && !truncated ==> {
            let wrote = match written {
                Some(Ok(files)) => files@.len() > 0,
                _ => false,
            };
            &&& final(p).cursor == old(p).cursor + 1
            &&& final(p).resume_count == 0
            &&& final(p).goal == old(p).goal
            &&& final(p).tasks == old(p).tasks
            &&& match current_target(*old(p)) {
                None => {
                    &&& final(p).created_files == old(p).created_files
                    &&& final(p).failed_files == old(p).failed_files
                    &&& a == (PipelineAction::Recorded { failure: None })
                },
                Some(t) => if wrote {
                    &&& final(p).created_files@ == old(p).created_files@.push(t)
                    &&& final(p).failed_files == old(p).failed_files
                    &&& a == (PipelineAction::Recorded { failure: None })
                } else {
                    &&& final(p).created_files == old(p).created_files
                    &&& final(p).failed_files@ == old(p).failed_files@.push(t)
                    &&& a == (PipelineAction::Recorded {
                        failure: match written {
                            Some(Err(e)) => Some((t, e)),
                            _ => None,
                        },
                    })
                },
            }
        },
{
    if stop_requested {
        return PipelineAction::Abort;
    }
    if truncated {
        if p.cursor >= p.tasks.len() {
            return PipelineAction::Idle;
        }
        let target = p.tasks[p.cursor].target.clone();
        if p.resume_count >= MAX_RESUME_COUNT {
            p.failed_files.push(target.clone());
            p.cursor = p.cursor + 1;
            p.resume_count = 0;
            return PipelineAction::ResumeLimitReached { target };
        }
        p.resume_count = p.resume_count + 1;
        return PipelineAction::Resume { target, attempt: p.resume_count };
    }
    let wrote = match &written {
        Some(Ok(files)) => files.len() > 0,
        _ => false,
    };
    let mut failure: Option<(String, String)> = None;
    if p.cursor < p.tasks.len() {
        let target = p.tasks[p.cursor].target.clone();
        if wrote {
            p.created_files.push(target);
        } else {
            p.failed_files.push(target.clone());
            match written {
                Some(Err(e)) => {
                    failure = Some((target, e));
                },
                _ => {},
            }
        }
    }
    p.cursor = p.cursor + 1;
    p.resume_count = 0;
    PipelineAction::Recorded { failure }
}

/// A file task whose output keeps being cut off is resumed exactly
/// `MAX_RESUME_COUNT` times (attempts 1, 2, 3); the next cut-off reply
/// marks it failed and the pipeline moves on to the following task with the
/// resume count reset.  `ps[k + 1]` and `acts[k]` are what taking the `k`-th
/// cut-off reply did to `ps[k]`.
pub proof fn law_resume_limit(ps: Seq<AgentPipeline>, acts: Seq<PipelineAction>)
    requires
        ps.len() == MAX_RESUME_COUNT + 2,
        acts.len() == MAX_RESUME_COUNT + 1,
        ps[0].cursor < ps[0].tasks@.len(),
        ps[0].cursor < usize::MAX,
        ps[0].resume_count == 0,
        forall|k: int| 0 <= k < acts.len() ==> truncated_step(ps[k], #[trigger] ps[k + 1], acts[k]),
    ensures
        forall|k: int|
            0 <= k < MAX_RESUME_COUNT ==> #[trigger] acts[k] == (PipelineAction::Resume {
                target: ps[0].tasks@[ps[0].cursor as int].target,
                attempt: (k + 1) as usize,
            }),
        acts[MAX_RESUME_COUNT as int] == (PipelineAction::ResumeLimitReached {
            target: ps[0].tasks@[ps[0].cursor as int].target,
        }),
        ps[MAX_RESUME_COUNT + 1].cursor == ps[0].cursor + 1,
        ps[MAX_RESUME_COUNT + 1].resume_count == 0,
        ps[MAX_RESUME_COUNT + 1].failed_files@ == ps[0].failed_files@.push(
            ps[0].tasks@[ps[0].cursor as int].target,
        ),
        ps[MAX_RESUME_COUNT + 1].created_files == ps[0].created_files,
        ps[MAX_RESUME_COUNT + 1].tasks == ps[0].tasks,
{
    let t = ps[0].tasks@[ps[0].cursor as int].target;
    assert(truncated_step(ps[0], ps[1], acts[0]));
    assert(ps[1] == AgentPipeline { resume_count: 1, ..ps[0] });
    assert(truncated_step(ps[1], ps[2], acts[1]));
    assert(ps[2] == AgentPipeline { resume_count: 2, ..ps[0] });
    assert(truncated_step(ps[2], ps[3], acts[2]));
    assert(ps[3] == AgentPipeline { resume_count: 3, ..ps[0] });
    assert(truncated_step(ps[3], ps[4], acts[3]));
    assert forall|k: int| 0 <= k < MAX_RESUME_COUNT implies #[trigger] acts[k] == (
    PipelineAction::Resume { target: t, attempt: (k + 1) as usize }) by {}
}

/// What the pipeline does next.
pub enum PipelineStep {
    /// All tasks are done: finish.
    Finish,
    /// Run the command `target` (task `index` of `total`, counted from 1);
    /// the pipeline has moved past it.
    RunCommand { target: String, index: usize, total: usize },
    /// Ask a worker to write the file `target` (task `index` of `total`);
    /// the pipeline goes on when its reply is taken.
    GenerateFile { target: String, description: String, index: usize, total: usize },
}

/// The pipeline's next step: finish when the tasks are done; a command is
/// run and passed; a file is asked for and waited on.
pub fn pipeline_next(p: &mut AgentPipeline) -> (s: PipelineStep)
    ensures
        old(p).cursor >= old(p).tasks@.len() ==> s is Finish && *final(p) == *old(p),
        old(p).cursor < old(p).tasks@.len() ==> {
            let t = old(p).tasks@[old(p).cursor as int];
            let index = (old(p).cursor + 1) as usize;
            let total = old(p).tasks@.len() as usize;
            match t.kind {
                PlannedTaskKind::Run => {
                    &&& s == (PipelineStep::RunCommand { target: t.target, index, total })
                    &&& *final(p) == (AgentPipeline { cursor: index, ..*old(p) })
                },
                PlannedTaskKind::File => {
                    &&& s == (PipelineStep::GenerateFile {
                        target: t.target,
                        description: t.description,
                        index,
                        total,
                    })
                    &&& *final(p) == *old(p)
                },
            }
        },
{
    if p.cursor >= p.tasks.len() {
        return PipelineStep::Finish;
    }
    let i = p.cursor;
    let total = p.tasks.len();
    let target = p.tasks[i].target.clone();
    match p.tasks[i].kind {
        PlannedTaskKind::Run => {
            p.cursor = i + 1;
            PipelineStep::RunCommand { target, index: i + 1, total }
        },
        PlannedTaskKind::File => {
            let description = p.tasks[i].description.clone();
            PipelineStep::GenerateFile { target, description, index: i + 1, total }
        },
    }
}

/// `s` cut to `max` chars with a notice (see `truncate_chars`).
pub open spec fn cut(s: Seq<char>, max: int) -> Seq<char> {
    if s.len() <= max {
        s
    } else {
        s.subrange(0, max) + truncation_notice()
    }
}

/// `s`, or a note that there was no output when it is empty.
pub open spec fn or_no_output(s: Seq<char>) -> Seq<char> {
    if s.len() == 0 {
        "（无输出）"@
    } else {
        s
    }
}

/// The message shown for a finished command of the assistant: its output
/// cut to 2000 chars in a code block.
pub open spec fn command_display(command: Seq<char>, output: Seq<char>) -> Seq<char> {
    "✓ `"@ + command + "` 执行完成，输出：\n```\n"@ + or_no_output(cut(output, 2000)) + "\n```"@
}

/// What the model is told of a finished command: the command and its
/// output cut to 4000 chars.
pub open spec fn command_feedback(command: Seq<char>, output: Seq<char>) -> Seq<char> {
    "[终端命令执行结果]\n命令: "@ + command + "\n输出:\n"@ + or_no_output(cut(output, 4000))
}

/// The message shown for the finished command `command` with output
/// `output`, and, for the active conversation, what the model is told of
/// it (see `command_display` and `command_feedback`).
pub fn command_result_messages(command: &str, output: &str, is_active: bool) -> (r: (
    String,
    Option<String>,
))
    ensures
        r.0@ == command_display(command@, output@),
        match r.1 {
            Some(f) => is_active && f@ == command_feedback(command@, output@),
            None => !is_active,
        },
{
    let shown = truncate_chars(output, 2000);
    let shown = if shown.as_str().is_empty() {
        String::from_str("（无输出）")
    } else {
        shown
    };
    let display = String::from_str("✓ `").concat(command).concat("` 执行完成，输出：\n```\n").concat(
        shown.as_str(),
    ).concat("\n```");
    if !is_active {
        return (display, None);
    }
    let fed = truncate_chars(output, 4000);
    let fed = if fed.as_str().is_empty() {
        String::from_str("（无输出）")
    } else {
        fed
    };
    let feedback = String::from_str("[终端命令执行结果]\n命令: ").concat(command).concat(
        "\n输出:\n",
    ).concat(fed.as_str());
    (display, Some(feedback))
}

/// The lines reporting file blocks saved after an interrupted reply: what
/// writing them gave (the files written, or the error) and the file whose
/// block was cut off, if one was saved in part.
pub open spec fn salvage_lines(written: Result<Seq<Seq<char>>, Seq<char>>, partial: Option<Seq<char>>) -> Seq<
    Seq<char>,
> {
    seq!["[警告] 生成中断，已抢救接收到的文件块："@] + match written {
        Ok(files) => files.map_values(|f: Seq<char>| "✓ 已写入 `"@ + f + "`"@),
        Err(e) => seq!["✕ 文件操作失败: "@ + e],
    } + match partial {
        Some(n) => seq!["[警告] `"@ + n + "` 为生成中断时的部分内容，可能不完整，请检查后再使用。"@],
        None => Seq::empty(),
    }
}

/// The report of file blocks saved after an interrupted reply (see
/// `salvage_lines`), joined by line breaks.
pub fn salvage_report(written: &Result<Vec<String>, String>, partial: &Option<String>) -> (r: String)
    ensures
        r@ == joined(
            salvage_lines(
                match written {
                    Ok(files) => Ok(texts(files@)),
                    Err(e) => Err(e@),
                },
                match partial {
                    Some(n) => Some(n@),
                    None => None,
                },
            ),
        ),
{
    let mut lines: Vec<String> = Vec::new();
    push_text(&mut lines, "[警告] 生成中断，已抢救接收到的文件块：");
    let ghost head = texts(lines@);
    match written {
        Ok(files) => {
            let mut k: usize = 0;
            while k < files.len()
                invariant
                    k <= files@.len(),
                    texts(lines@) == head + texts(files@).take(k as int).map_values(
                        |f: Seq<char>| "✓ 已写入 `"@ + f + "`"@,
                    ),
                decreases files@.len() - k,
            {
                let line = String::from_str("✓ 已写入 `").concat(files[k].as_str()).concat("`");
                let ghost before = lines@;
                lines.push(line);
                proof {
                    lemma_texts_push(before, line);
                    assert(texts(files@).take(k + 1) =~= texts(files@).take(k as int).push(
                        files@[k as int]@,
                    ));
                    assert(texts(lines@) =~= head + texts(files@).take(k + 1).map_values(
                        |f: Seq<char>| "✓ 已写入 `"@ + f + "`"@,
                    ));
                }
                k = k + 1;
            }
            proof {
                assert(texts(files@).take(files@.len() as int) =~= texts(files@));
            }
        },
        Err(e) => {
            let line = String::from_str("✕ 文件操作失败: ").concat(e.as_str());
            let ghost before = lines@;
            lines.push(line);
            proof {
                lemma_texts_push(before, line);
            }
        },
    }
    let ghost mid = texts(lines@);
    match partial {
        Some(n) => {
            let line = String::from_str("[警告] `").concat(n.as_str()).concat(
                "` 为生成中断时的部分内容，可能不完整，请检查后再使用。",
            );
            let ghost before = lines@;
            lines.push(line);
            proof {
                lemma_texts_push(before, line);
            }
        },
        None => {},
    }
    proof {
        let w = match written {
            Ok(files) => Ok(texts(files@)),
            Err(e) => Err(e@),
        };
        let pn = match partial {
            Some(n) => Some(n@),
            None => None,
        };
        assert(texts(lines@) =~= salvage_lines(w, pn));
    }
    join_lines(&lines)
}

/// The verb of a task kind in a plan.
pub open spec fn task_verb(k: PlannedTaskKind) -> Seq<char> {
    match k {
        PlannedTaskKind::File => "生成文件"@,
        PlannedTaskKind::Run => "运行"@,
    }
}

/// The plan line of task `i` (counted from 0).
pub open spec fn plan_line(i: int, t: PlannedTask) -> Seq<char> {
    let head = decimal((i + 1) as nat) + ". "@ + task_verb(t.kind) + " "@ + t.target@;
    if trim_chars(t.description@).len() == 0 {
        head
    } else {
        head + " — "@ + t.description@
    }
}

/// The readable plan shown for the goal `goal` and the tasks `tasks`: a
/// title (with the goal, when there is one), then a numbered line per task.
pub open spec fn plan_lines(goal: Seq<char>, tasks: Seq<PlannedTask>) -> Seq<Seq<char>> {
    seq![
        if trim_chars(goal).len() == 0 {
            "执行计划："@
        } else {
            "执行计划（"@ + trim_chars(goal) + "）："@
        },
    ] + Seq::new(tasks.len(), |i: int| plan_line(i, tasks[i]))
}

/// The readable plan for `goal` and `tasks` (see `plan_lines`), joined by
/// line breaks.
pub fn plan_text(goal: &str, tasks: &Vec<PlannedTask>) -> (r: String)
    ensures
        r@ == joined(plan_lines(goal@, tasks@)),
{
    let mut lines: Vec<String> = Vec::new();
    let g = trim_str(goal);
    if g.is_empty() {
        push_text(&mut lines, "执行计划：");
    } else {
        let t = String::from_str("执行计划（").concat(g).concat("）：");
        let ghost before = lines@;
        lines.push(t);
        proof {
            lemma_texts_push(before, t);
        }
    }
    let ghost head = texts(lines@);
    let mut i: usize = 0;
    while i < tasks.len()
        invariant
            i <= tasks@.len(),
            texts(lines@) == head + Seq::new(i as nat, |j: int| plan_line(j, tasks@[j])),
        decreases tasks@.len() - i,
    {
        let t = &tasks[i];
        let verb = match t.kind {
            PlannedTaskKind::File => "生成文件",
            PlannedTaskKind::Run => "运行",
        };
        let n = decimal_string((i as u64) + 1);
        let mut line = n.concat(". ").concat(verb).concat(" ").concat(t.target.as_str());
        if !trim_str(t.description.as_str()).is_empty() {
            line = line.concat(" — ").concat(t.description.as_str());
        }
        let ghost before = lines@;
        lines.push(line);
        proof {
            lemma_texts_push(before, line);
            assert(texts(lines@) =~= head + Seq::new((i + 1) as nat, |j: int| plan_line(j, tasks@[j])));
        }
        i = i + 1;
    }
    proof {
        assert(texts(lines@) =~= plan_lines(goal@, tasks@));
    }
    join_lines(&lines)
}

/// `items` as a numbered list (`  1. a`, `  2. b`, ...).
pub open spec fn numbered(items: Seq<Seq<char>>) -> Seq<Seq<char>> {
    Seq::new(items.len(), |i: int| "  "@ + decimal((i + 1) as nat) + ". "@ + items[i])
}

/// The lines of the final summary of a pipeline for `goal` with `total`
/// tasks, of which the files `created` were written and `failed` failed.
pub open spec fn finish_lines(
    goal: Seq<char>,
    total: nat,
    created: Seq<Seq<char>>,
    failed: Seq<Seq<char>>,
) -> Seq<Seq<char>> {
    seq![
        if trim_chars(goal).len() == 0 {
            "[任务完成] **任务执行完成**"@
        } else {
            "[任务完成] **"@ + trim_chars(goal) + "**"@
        },
        ""@,
        if failed.len() == 0 {
            "✓ 成功完成全部 "@ + decimal(total) + " 个任务"@
        } else {
            "⚠ 任务部分完成："@ + decimal((total - failed.len()) as nat) + " 个成功，"@ + decimal(
                failed.len(),
            ) + " 个失败"@
        },
    ] + file_block("**成功创建的文件（"@, created) + (if failed.len() == 0 {
        Seq::empty()
    } else {
        file_block("**未成功写入的文件（"@, failed) + seq![""@, "[建议] 可重新发送需求，系统将重试失败的文件"@]
    }) + seq![""@, "---"@, "[信息] 任务执行完毕，如有问题请随时告知"@]
}

/// A block listing `items` under a heading that starts with `head` and gives
/// their number; nothing when `items` is empty.
pub open spec fn file_block(head: Seq<char>, items: Seq<Seq<char>>) -> Seq<Seq<char>> {
    if items.len() == 0 {
        Seq::empty()
    } else {
        seq![""@, head + decimal(items.len()) + " 个）：**"@] + numbered(items)
    }
}

/// Appends the block of `items` under `head` (see `file_block`) to `lines`.
fn push_file_block(lines: &mut Vec<String>, head: &str, items: &Vec<String>)
    ensures
        texts(final(lines)@) == texts(old(lines)@) + file_block(head@, texts(items@)),
{
    if items.len() > 0 {
        push_text(lines, "");
        let n = decimal_string(items.len() as u64);
        let t = String::from_str(head).concat(n.as_str()).concat(" 个）：**");
        let ghost b = lines@;
        lines.push(t);
        proof {
            lemma_texts_push(b, t);
        }
        push_numbered(lines, items);
        proof {
            assert(texts(lines@) =~= texts(old(lines)@) + file_block(head@, texts(items@)));
        }
    } else {
        proof {
            assert(texts(lines@) =~= texts(old(lines)@) + file_block(head@, texts(items@)));
        }
    }
}

/// Appends `items` as a numbered list (see `numbered`) to `lines`.
fn push_numbered(lines: &mut Vec<String>, items: &Vec<String>)
    ensures
        texts(final(lines)@) == texts(old(lines)@) + numbered(texts(items@)),
{
    let mut i: usize = 0;
    while i < items.len()
        invariant
            i <= items@.len(),
            texts(lines@) == texts(old(lines)@) + numbered(texts(items@).take(i as int)),
        decreases items@.len() - i,
    {
        let n = decimal_string((i as u64) + 1);
        let line = String::from_str("  ").concat(n.as_str()).concat(". ").concat(items[i].as_str());
        let ghost before = lines@;
        lines.push(line);
        proof {
            lemma_texts_push(before, line);
            assert(numbered(texts(items@).take(i + 1)) =~= numbered(texts(items@).take(i as int)).push(
                line@,
            ));
        }
        i = i + 1;
    }
    proof {
        assert(texts(items@).take(items@.len() as int) =~= texts(items@));
    }
}

/// The final summary of a pipeline (see `finish_lines`), joined by line
/// breaks, and whether every task succeeded.
pub fn finish_summary(goal: &str, total: usize, created: &Vec<String>, failed: &Vec<String>) -> (r: (
    String,
    bool,
))
    requires
        failed@.len() <= total,
    ensures
        r.0@ == joined(finish_lines(goal@, total as nat, texts(created@), texts(failed@))),
        r.1 == (failed@.len() == 0),
{
    let mut lines: Vec<String> = Vec::new();
    let g = trim_str(goal);
    if g.is_empty() {
        push_text(&mut lines, "[任务完成] **任务执行完成**");
    } else {
        let t = String::from_str("[任务完成] **").concat(g).concat("**");
        let ghost before = lines@;
        lines.push(t);
        proof {
            lemma_texts_push(before, t);
        }
    }
    push_text(&mut lines, "");
    let stat = if failed.len() == 0 {
        let n = decimal_string(total as u64);
        String::from_str("✓ 成功完成全部 ").concat(n.as_str()).concat(" 个任务")
    } else {
        let ok = decimal_string((total - failed.len()) as u64);
        let bad = decimal_string(failed.len() as u64);
        String::from_str("⚠ 任务部分完成：").concat(ok.as_str()).concat(" 个成功，").concat(
            bad.as_str(),
        ).concat(" 个失败")
    };
    let ghost before = lines@;
    lines.push(stat);
    proof {
        lemma_texts_push(before, stat);
    }
    let ghost g1 = texts(lines@);
    push_file_block(&mut lines, "**成功创建的文件（", created);
    let ghost g2 = texts(lines@);
    if failed.len() > 0 {
        push_file_block(&mut lines, "**未成功写入的文件（", failed);
        push_text(&mut lines, "");
        push_text(&mut lines, "[建议] 可重新发送需求，系统将重试失败的文件");
    }
    let ghost g3 = texts(lines@);
    push_text(&mut lines, "");
    push_text(&mut lines, "---");
    push_text(&mut lines, "[信息] 任务执行完毕，如有问题请随时告知");
    proof {
        let f = texts(failed@);
        assert(g3 =~= g2 + (if f.len() == 0 {
            Seq::empty()
        } else {
            file_block("**未成功写入的文件（"@, f) + seq![""@, "[建议] 可重新发送需求，系统将重试失败的文件"@]
        }));
        assert(texts(lines@) =~= finish_lines(goal@, total as nat, texts(created@), f));
    }
    (join_lines(&lines), failed.len() == 0)
}

} // verus!
