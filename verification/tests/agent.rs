use pawpaw::agent::{
    build_agent_system_prompt, build_memory_summarization_prompt, daily_memo_file_name,
    daily_memo_path, daily_memo_template, default_agent, default_heartbeat, default_identity,
    default_memory, default_soul, default_user, last_session_from_content,
    memory_needs_summarization, memory_size, session_is_stale, truncate_keep_tail,
    AgentPromptInputs,
};
use pawpaw::dates::{format_date, format_date_display, format_minute, CalendarDate, LocalMinute};
use pawpaw::heartbeat::{
    due_heartbeat_tasks, heartbeat_minute_stamp, heartbeat_tick_due, read_heartbeat_tasks,
};
use pawpaw::paths::{agent_dir, agent_dir_in, daily_dir, join, workspace_dir};

fn day(year: i32, month: u32, day: u32, weekday: u32) -> CalendarDate {
    CalendarDate { year, month, day, weekday }
}

#[test]
fn truncate_keeps_short_text() {
    assert_eq!(truncate_keep_tail("hello", 5), "hello");
    assert_eq!(truncate_keep_tail("", 0), "");
}

#[test]
fn truncate_keeps_the_tail() {
    assert_eq!(truncate_keep_tail("abcdefghij", 3), "[...truncated 7 chars...]\nhij");
    assert_eq!(truncate_keep_tail("가나다라", 2), "[...truncated 2 chars...]\n다라");
    assert_eq!(truncate_keep_tail("abc", 0), "[...truncated 3 chars...]\n");
}

#[test]
fn memory_threshold() {
    assert!(!memory_needs_summarization(None));
    assert!(!memory_needs_summarization(Some(50_000)));
    assert!(memory_needs_summarization(Some(50_001)));
    assert_eq!(memory_size(None), 0);
    assert_eq!(memory_size(Some(1234)), 1234);
}

#[test]
fn summarization_prompt() {
    assert!(build_memory_summarization_prompt("  \n\t").is_none());
    let p = build_memory_summarization_prompt("- é").unwrap();
    assert!(p.starts_with("You are performing maintenance on your own long-term memory file.\nThe MEMORY.md file has grown too large (4 bytes, threshold: 50000 bytes).\n\nYour task:\n"));
    assert!(p.ends_with("Current MEMORY.md:\n---\n- é\n---\n\nOutput the summarized MEMORY.md content now:"));
}

#[test]
fn session_staleness() {
    assert!(!session_is_stale(604_800, 0));
    assert!(session_is_stale(604_800, 1));
    assert!(session_is_stale(604_801, 0));
    assert!(!session_is_stale(0, 0));
}

#[test]
fn session_content() {
    assert_eq!(last_session_from_content("  abc-123 \n"), Some("abc-123".to_string()));
    assert_eq!(last_session_from_content(" \n "), None);
    assert_eq!(last_session_from_content(""), None);
}

#[test]
fn date_forms() {
    let d = day(2024, 3, 5, 1);
    assert_eq!(format_date(&d, '_'), "2024_03_05");
    assert_eq!(format_date_display(&d), "2024-03-05 (Tuesday)");
    assert_eq!(format_date(&day(7, 12, 31, 6), '-'), "0007-12-31");
    assert_eq!(format_date(&day(-44, 1, 1, 0), '-'), "-0044-01-01");
    assert_eq!(format_date(&day(12345, 1, 1, 0), '-'), "+12345-01-01");
    assert_eq!(format_date_display(&day(2024, 3, 10, 6)), "2024-03-10 (Sunday)");
    let t = LocalMinute { date: d, hour: 9, minute: 7 };
    assert_eq!(format_minute(&t), "2024-03-05 09:07");
    assert_eq!(heartbeat_minute_stamp(&t), "2024-03-05 09:07");
}

#[test]
fn daily_memo_names() {
    let d = day(2025, 1, 9, 3);
    assert_eq!(daily_memo_file_name(&d), "daily_memo_2025_01_09.md");
    assert_eq!(
        daily_memo_path("/home/u/.cokacdir/agent/daily", &d),
        "/home/u/.cokacdir/agent/daily/daily_memo_2025_01_09.md"
    );
    assert_eq!(
        daily_memo_template(&d),
        "# Daily Memo — 2025-01-09 (Thursday)\n\n## Work Log\n\n## Key Conversations\n\n## Notes\n"
    );
}

#[test]
fn path_joining() {
    assert_eq!(join("/home/u", "a"), "/home/u/a");
    assert_eq!(join("/home/u/", "a"), "/home/u/a");
    assert_eq!(join("", "a"), "a");
    assert_eq!(join("/home/u", "/etc/x"), "/etc/x");
    assert_eq!(agent_dir_in("/home/u"), "/home/u/.cokacdir/agent");
}

#[test]
fn agent_directories_share_the_root() {
    match (agent_dir(), workspace_dir(), daily_dir()) {
        (Some(root), Some(ws), Some(daily)) => {
            assert_eq!(ws, format!("{}/workspace", root));
            assert_eq!(daily, format!("{}/daily", root));
            assert!(root.ends_with(".cokacdir/agent"));
        }
        (None, None, None) => {}
        _ => panic!("home directory changed between calls"),
    }
}

#[test]
fn heartbeat_tasks_are_parsed() {
    let content = "# Heartbeat\n\n- [cron: */30 * * * *] Check files\n  - [cron: 0 9 * * *]   Morning memo  \n- [cron: ] empty cron\n- [cron: 1 * * * *]\n- [cron 0 * * * *] bad\n- [cron: 0 0 * * 0 no bracket\n- [cron: 5 4 * * *] a ] b\r\n";
    let tasks = read_heartbeat_tasks(content);
    assert_eq!(
        tasks,
        vec![
            ("Check files".to_string(), "*/30 * * * *".to_string()),
            ("Morning memo".to_string(), "0 9 * * *".to_string()),
            ("a ] b".to_string(), "5 4 * * *".to_string()),
        ]
    );
}

#[test]
fn heartbeat_line_round_trip() {
    let tasks = read_heartbeat_tasks("- [cron: 0 18 * * *] Summarize today's work");
    assert_eq!(tasks, vec![("Summarize today's work".to_string(), "0 18 * * *".to_string())]);
}

#[test]
fn default_heartbeat_examples_are_in_code_block_lines() {
    // the examples in the default file are written as task lines too
    let tasks = read_heartbeat_tasks(default_heartbeat());
    assert_eq!(tasks.len(), 3);
    assert_eq!(tasks[2].1, "0 0 * * 0");
}

#[test]
fn due_tasks_follow_the_flags() {
    let tasks = vec![
        ("a".to_string(), "* * * * *".to_string()),
        ("b".to_string(), "0 9 * * *".to_string()),
        ("c".to_string(), "0 0 * * 0".to_string()),
    ];
    assert_eq!(due_heartbeat_tasks(&tasks, &vec![true, false, true]), vec!["a", "c"]);
    assert_eq!(due_heartbeat_tasks(&tasks, &vec![false, true]), vec!["b"]);
    assert!(due_heartbeat_tasks(&tasks, &vec![]).is_empty());
}

#[test]
fn one_tick_per_minute() {
    assert!(heartbeat_tick_due(&None, "2024-03-05 09:07"));
    assert!(!heartbeat_tick_due(&Some("2024-03-05 09:07\n".to_string()), "2024-03-05 09:07"));
    assert!(heartbeat_tick_due(&Some("2024-03-05 09:06".to_string()), "2024-03-05 09:07"));
}

#[test]
fn prompt_layout() {
    let inputs = AgentPromptInputs {
        soul: "Kind.".to_string(),
        identity: "   ".to_string(),
        user: String::new(),
        memory: "m".repeat(8001),
        agent: "Be good.".to_string(),
        heartbeat: String::new(),
        yesterday_memo: String::new(),
        agent_root: "/h/.cokacdir/agent".to_string(),
        workspace: "/h/.cokacdir/agent/workspace".to_string(),
        today: day(2024, 3, 5, 1),
        last_session: Some("sess-1".to_string()),
    };
    let p = build_agent_system_prompt(&inputs);
    let expected = format!(
        "# AGENT MODE ACTIVE\n\nYou are a persistent personal assistant agent with identity, memory, and autonomy.\n\n## SYSTEM RULES\n- All bash commands MUST be non-interactive (use -y, --no-pager, -m flags; never open editors)\n- Respond in the same language as the user\n- Use Markdown formatting\n\n## AGENT GUIDELINES\nBe good.\n\n## SOUL\nKind.\n\n## IDENTITY\n(not yet defined)\n\n## USER\n(no info yet)\n\n## HEARTBEAT\n(none)\n\n## MEMORY (use Read tool for full file if truncated)\n[...truncated 1 chars...]\n{}\n\n## YESTERDAY'S MEMO\n(no memo from yesterday)\n\n## Paths\n- Agent root: /h/.cokacdir/agent\n- Workspace: /h/.cokacdir/agent/workspace\n- Daily memos: /h/.cokacdir/agent/daily\n- Today's daily memo (write here): /h/.cokacdir/agent/daily/daily_memo_2024_03_05.md\n- Today: 2024-03-05 (Tuesday)\n- Last session: sess-1\n",
        "m".repeat(8000)
    );
    assert_eq!(p, expected);
}

#[test]
fn prompt_without_session_and_with_yesterday() {
    let inputs = AgentPromptInputs {
        soul: String::new(),
        identity: String::new(),
        user: String::new(),
        memory: String::new(),
        agent: String::new(),
        heartbeat: String::new(),
        yesterday_memo: "did things".to_string(),
        agent_root: "r".to_string(),
        workspace: String::new(),
        today: day(2024, 12, 31, 1),
        last_session: None,
    };
    let p = build_agent_system_prompt(&inputs);
    assert!(p.contains("## MEMORY (use Read tool for full file if truncated)\n(empty)\n"));
    assert!(p.contains("## YESTERDAY'S MEMO\ndid things\n"));
    assert!(p.ends_with("- Today: 2024-12-31 (Tuesday)\n\n"));
}

#[test]
fn default_files() {
    assert!(default_soul().starts_with("# Soul\n"));
    assert!(default_identity().starts_with("# Identity\n"));
    assert!(default_user().starts_with("# User Profile\n"));
    assert!(default_memory().starts_with("# Long-Term Memory\n"));
    assert!(default_agent().starts_with("# Agent Behavioral Guidelines\n"));
    assert!(default_heartbeat().starts_with("# Heartbeat — Periodic Tasks\n"));
}
