use aether_win32::agent::{
    advance_pipeline, agent_step, command_result_messages, finish_summary, pipeline_next, plan_text,
    salvage_report,
    task_summary, AgentPipeline, AgentStep, PipelineAction, PipelineStep, PlannedTask,
    PlannedTaskKind,
};

fn strings(v: &[&str]) -> Vec<String> {
    v.iter().map(|s| s.to_string()).collect()
}

#[test]
fn a_finished_reply_is_routed() {
    assert_eq!(agent_step(true, true, true, true, true, false), AgentStep::AdvancePipeline);
    assert_eq!(agent_step(true, false, true, true, true, false), AgentStep::StartPipeline);
    assert_eq!(agent_step(true, false, false, true, true, false), AgentStep::NeedWorkspace);
    assert_eq!(agent_step(false, true, true, true, true, true), AgentStep::Process);
    assert_eq!(agent_step(false, false, true, true, false, false), AgentStep::Process);
}

#[test]
fn the_task_summary_has_five_sections() {
    let r = task_summary(
        &strings(&["`a.rs` — 新建文件"]),
        &Vec::new(),
        &strings(&["▶ 已执行 `cargo build`"]),
        &Vec::new(),
        &Vec::new(),
        false,
    )
    .unwrap();
    assert_eq!(
        r,
        "## 任务总结\n\n**执行的功能**\n- ✓ `a.rs` — 新建文件\n\n**修复的 Bug**\n- （本轮无 Bug 修复记录）\n\n**代码修改**\n- 共变更 1 个文件\n- ▶ 已执行 `cargo build`\n\n**审计信息**\n- 所有写操作均限制在当前工作区内（沙箱路径校验）\n- 修改前的历史快照已保存，展开文件卡片可查看红绿差异\n\n**失败项**\n- （全部成功）"
    );
}

#[test]
fn nothing_to_report_gives_no_summary() {
    let e: Vec<String> = Vec::new();
    assert_eq!(task_summary(&e, &e, &e, &strings(&["◎ 已读取 `x`（1 行）"]), &e, true), None);
    let r = task_summary(&e, &e, &e, &e, &strings(&["boom"]), false).unwrap();
    assert!(r.ends_with("**失败项**\n- ✕ boom"));
    assert!(r.contains("**审计信息**\n- （无安全相关记录）"));
}

fn pipeline(kinds: &[PlannedTaskKind]) -> AgentPipeline {
    AgentPipeline {
        goal: "site".to_string(),
        tasks: kinds
            .iter()
            .enumerate()
            .map(|(i, k)| PlannedTask { kind: *k, target: format!("t{}", i), description: String::new() })
            .collect(),
        cursor: 0,
        created_files: Vec::new(),
        failed_files: Vec::new(),
        resume_count: 0,
    }
}

#[test]
fn cut_off_output_is_resumed_three_times_then_fails() {
    let mut p = pipeline(&[PlannedTaskKind::File, PlannedTaskKind::File]);
    for attempt in 1..=3 {
        match advance_pipeline(&mut p, false, true, None) {
            PipelineAction::Resume { target, attempt: a } => {
                assert_eq!(target, "t0");
                assert_eq!(a, attempt);
            }
            _ => panic!("resume expected"),
        }
    }
    match advance_pipeline(&mut p, false, true, None) {
        PipelineAction::ResumeLimitReached { target } => assert_eq!(target, "t0"),
        _ => panic!("limit expected"),
    }
    assert_eq!(p.cursor, 1);
    assert_eq!(p.resume_count, 0);
    assert_eq!(p.failed_files, strings(&["t0"]));
}

#[test]
fn write_outcomes_are_recorded() {
    let mut p = pipeline(&[PlannedTaskKind::File, PlannedTaskKind::File, PlannedTaskKind::File]);
    match advance_pipeline(&mut p, false, false, Some(Ok(strings(&["t0"])))) {
        PipelineAction::Recorded { failure } => assert!(failure.is_none()),
        _ => panic!(),
    }
    match advance_pipeline(&mut p, false, false, Some(Err("disk full".to_string()))) {
        PipelineAction::Recorded { failure } => {
            assert_eq!(failure, Some(("t1".to_string(), "disk full".to_string())))
        }
        _ => panic!(),
    }
    match advance_pipeline(&mut p, false, false, Some(Ok(Vec::new()))) {
        PipelineAction::Recorded { failure } => assert!(failure.is_none()),
        _ => panic!(),
    }
    assert_eq!(p.created_files, strings(&["t0"]));
    assert_eq!(p.failed_files, strings(&["t1", "t2"]));
    assert_eq!(p.cursor, 3);
    assert!(matches!(advance_pipeline(&mut p, true, false, None), PipelineAction::Abort));
    assert_eq!(p.cursor, 3);
}

#[test]
fn commands_run_and_files_wait() {
    let mut p = pipeline(&[PlannedTaskKind::Run, PlannedTaskKind::File]);
    match pipeline_next(&mut p) {
        PipelineStep::RunCommand { target, index, total } => {
            assert_eq!((target.as_str(), index, total), ("t0", 1, 2))
        }
        _ => panic!(),
    }
    match pipeline_next(&mut p) {
        PipelineStep::GenerateFile { target, index, .. } => assert_eq!((target.as_str(), index), ("t1", 2)),
        _ => panic!(),
    }
    assert_eq!(p.cursor, 1);
    p.cursor = 2;
    assert!(matches!(pipeline_next(&mut p), PipelineStep::Finish));
}

#[test]
fn command_results_are_shown_and_fed_back() {
    let (shown, fed) = command_result_messages("ls", "a\nb", true);
    assert_eq!(shown, "✓ `ls` 执行完成，输出：\n```\na\nb\n```");
    assert_eq!(fed.unwrap(), "[终端命令执行结果]\n命令: ls\n输出:\na\nb");
    let (shown, fed) = command_result_messages("true", "", false);
    assert_eq!(shown, "✓ `true` 执行完成，输出：\n```\n（无输出）\n```");
    assert_eq!(fed, None);
    let long = "x".repeat(3000);
    let (shown, fed) = command_result_messages("c", &long, true);
    assert!(shown.contains(&format!("{}\n…（输出过长已截断）", "x".repeat(2000))));
    assert_eq!(fed.unwrap(), format!("[终端命令执行结果]\n命令: c\n输出:\n{}", long));
}

#[test]
fn salvaged_blocks_are_reported() {
    let r = salvage_report(&Ok(strings(&["a.html"])), &Some("b.css".to_string()));
    assert_eq!(
        r,
        "[警告] 生成中断，已抢救接收到的文件块：\n✓ 已写入 `a.html`\n[警告] `b.css` 为生成中断时的部分内容，可能不完整，请检查后再使用。"
    );
    let r = salvage_report(&Err("denied".to_string()), &None);
    assert_eq!(r, "[警告] 生成中断，已抢救接收到的文件块：\n✕ 文件操作失败: denied");
}

#[test]
fn the_plan_lists_each_task() {
    let tasks = vec![
        PlannedTask {
            kind: PlannedTaskKind::File,
            target: "src/main.rs".to_string(),
            description: "入口".to_string(),
        },
        PlannedTask {
            kind: PlannedTaskKind::Run,
            target: "cargo build".to_string(),
            description: "  ".to_string(),
        },
    ];
    assert_eq!(
        plan_text("  贪吃蛇 ", &tasks),
        "执行计划（贪吃蛇）：\n1. 生成文件 src/main.rs — 入口\n2. 运行 cargo build"
    );
    assert_eq!(plan_text("", &Vec::new()), "执行计划：");
}

#[test]
fn the_final_summary_counts_and_lists_files() {
    let (text, all_ok) = finish_summary("游戏", 3, &strings(&["a.rs", "b.rs"]), &strings(&["c.rs"]));
    assert!(!all_ok);
    assert_eq!(
        text,
        "[任务完成] **游戏**\n\n⚠ 任务部分完成：2 个成功，1 个失败\n\n**成功创建的文件（2 个）：**\n  1. a.rs\n  2. b.rs\n\n**未成功写入的文件（1 个）：**\n  1. c.rs\n\n[建议] 可重新发送需求，系统将重试失败的文件\n\n---\n[信息] 任务执行完毕，如有问题请随时告知"
    );
    let (text, all_ok) = finish_summary(" ", 2, &Vec::new(), &Vec::new());
    assert!(all_ok);
    assert_eq!(
        text,
        "[任务完成] **任务执行完成**\n\n✓ 成功完成全部 2 个任务\n\n---\n[信息] 任务执行完毕，如有问题请随时告知"
    );
}
