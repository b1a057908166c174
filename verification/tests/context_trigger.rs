use pawpaw::context_trigger::{
    build_trigger_index, format_file_section, format_triggered_context, index_cache_fresh,
    is_md_file_name, is_skipped_project_name, layer_for_category, messages_similar,
    parse_frontmatter_triggers, search_query, select_triggered, semantic_cache_hit,
    IndexLayer, KnowledgeFile, ProjectDir, TriggerEntry,
};
use pawpaw::context_trigger::{
    context_source, frontmatter_read_ends, plan_context, search_wait_step, ChildPoll, ContextSource,
    WaitStep,
};
use pawpaw::json::parse_search_output;

fn strings(v: &[&str]) -> Vec<String> {
    v.iter().map(|s| s.to_string()).collect()
}

fn entry(keywords: &[&str], path: &str, layer: IndexLayer) -> TriggerEntry {
    TriggerEntry { keywords: strings(keywords), file_path: path.to_string(), layer }
}

#[test]
fn test_parse_frontmatter_triggers() {
    let content = "---\nname: Test\ntriggers: [hello, world, 테스트]\nstatus: active\n---\n\n# Content";
    let triggers = parse_frontmatter_triggers(content);
    assert_eq!(triggers, vec!["hello", "world", "테스트"]);
}

#[test]
fn test_parse_no_frontmatter() {
    let triggers = parse_frontmatter_triggers("# Just a heading\nNo frontmatter here.");
    assert!(triggers.is_empty());
}

#[test]
fn frontmatter_keywords_are_lowercased_and_unquoted() {
    let content = "---\ntriggers: [\"Rust\", 'VERUS', , Proof ]\n---\n";
    assert_eq!(parse_frontmatter_triggers(content), vec!["rust", "verus", "proof"]);
}

#[test]
fn frontmatter_without_brackets_and_crlf() {
    let content = "---\r\ntriggers: alpha,beta\r\n---\r\n";
    assert_eq!(parse_frontmatter_triggers(content), vec!["alpha", "beta"]);
}

#[test]
fn frontmatter_triggers_after_closing_fence_are_ignored() {
    let content = "---\nname: x\n---\ntriggers: [late]\n";
    assert!(parse_frontmatter_triggers(content).is_empty());
}

#[test]
fn frontmatter_first_triggers_line_wins() {
    let content = "  ---  \ntriggers: [one]\ntriggers: [two]\n---";
    assert_eq!(parse_frontmatter_triggers(content), vec!["one"]);
}

#[test]
fn frontmatter_empty_content() {
    assert!(parse_frontmatter_triggers("").is_empty());
}

#[test]
fn similar_messages_share_half_their_words() {
    assert!(messages_similar("how do I deploy the app", "deploy the app now"));
    assert!(!messages_similar("how do I deploy", "write a poem about cats"));
    // exactly half
    assert!(messages_similar("a b", "a z"));
    assert!(!messages_similar("a b", "a y z"));
}

#[test]
fn similar_needs_words_on_both_sides() {
    assert!(!messages_similar("", "hello"));
    assert!(!messages_similar("hello", "   \t "));
}

#[test]
fn similar_counts_repeated_words() {
    // "x x x y": three of four words occur in the cached query
    assert!(messages_similar("x", "x x x y"));
}

#[test]
fn message_is_similar_to_itself() {
    assert!(messages_similar("keep the tail", "keep the tail"));
}

#[test]
fn index_orders_projects_before_knowledge() {
    let projects = vec![
        ProjectDir {
            name: "alpha".to_string(),
            is_dir: true,
            wiki_path: "/a/projects/alpha/wiki.md".to_string(),
            wiki_triggers: Some(strings(&["alpha"])),
        },
        ProjectDir {
            name: "_draft".to_string(),
            is_dir: true,
            wiki_path: "/a/projects/_draft/wiki.md".to_string(),
            wiki_triggers: Some(strings(&["draft"])),
        },
        ProjectDir {
            name: "file.txt".to_string(),
            is_dir: false,
            wiki_path: "/a/projects/file.txt/wiki.md".to_string(),
            wiki_triggers: Some(strings(&["file"])),
        },
        ProjectDir {
            name: "beta".to_string(),
            is_dir: true,
            wiki_path: "/a/projects/beta/wiki.md".to_string(),
            wiki_triggers: None,
        },
        ProjectDir {
            name: "gamma".to_string(),
            is_dir: true,
            wiki_path: "/a/projects/gamma/wiki.md".to_string(),
            wiki_triggers: Some(vec![]),
        },
    ];
    let knowledge = vec![
        KnowledgeFile {
            file_name: "rust.md".to_string(),
            path: "/a/knowledge/wiki/rust.md".to_string(),
            triggers: strings(&["rust", "cargo"]),
        },
        KnowledgeFile {
            file_name: "notes.txt".to_string(),
            path: "/a/knowledge/wiki/notes.txt".to_string(),
            triggers: strings(&["notes"]),
        },
        KnowledgeFile {
            file_name: ".md".to_string(),
            path: "/a/knowledge/wiki/.md".to_string(),
            triggers: strings(&["hidden"]),
        },
    ];
    let index = build_trigger_index(&projects, &knowledge);
    assert_eq!(index.len(), 2);
    assert_eq!(index[0].file_path, "/a/projects/alpha/wiki.md");
    assert!(index[0].layer == IndexLayer::Project);
    assert_eq!(index[0].keywords, vec!["alpha"]);
    assert_eq!(index[1].file_path, "/a/knowledge/wiki/rust.md");
    assert!(index[1].layer == IndexLayer::Knowledge);
    assert_eq!(index[1].keywords, vec!["rust", "cargo"]);
}

#[test]
fn project_names_and_extensions() {
    assert!(is_skipped_project_name("_archive"));
    assert!(is_skipped_project_name("."));
    assert!(!is_skipped_project_name(".."));
    assert!(!is_skipped_project_name("work"));
    assert!(is_md_file_name("a.md"));
    assert!(is_md_file_name("x..md"));
    assert!(!is_md_file_name(".md"));
    assert!(!is_md_file_name("a.markdown"));
    assert!(!is_md_file_name("md"));
}

#[test]
fn selection_prefers_projects_and_caps_at_three() {
    let index = vec![
        entry(&["rust"], "k1", IndexLayer::Knowledge),
        entry(&["rust"], "p1", IndexLayer::Project),
        entry(&["python"], "p2", IndexLayer::Project),
        entry(&["verus", "rust"], "k2", IndexLayer::Knowledge),
        entry(&["ru"], "p3", IndexLayer::Project),
        entry(&["st"], "k3", IndexLayer::Knowledge),
    ];
    let picked = select_triggered(&index, "i like rust");
    assert_eq!(picked, vec![1, 4, 0]);
    let picked = select_triggered(&index, "python please");
    assert_eq!(picked, vec![2]);
    assert!(select_triggered(&index, "nothing here").is_empty());
}

#[test]
fn cache_decisions() {
    assert!(index_cache_fresh(true, 59));
    assert!(!index_cache_fresh(true, 60));
    assert!(!index_cache_fresh(false, 0));
    assert!(semantic_cache_hit(299, "deploy the app", "deploy the app"));
    assert!(!semantic_cache_hit(300, "deploy the app", "deploy the app"));
    assert!(!semantic_cache_hit(10, "deploy the app", "write a poem"));
}

#[test]
fn category_layers() {
    assert_eq!(layer_for_category("project"), "PROJECT");
    assert_eq!(layer_for_category("knowledge"), "KNOWLEDGE");
    assert_eq!(layer_for_category("episodic"), "EPISODIC");
    assert_eq!(layer_for_category(""), "CONTEXT");
    assert_eq!(layer_for_category("Project"), "CONTEXT");
}

#[test]
fn section_keeps_short_content() {
    let s = format_file_section("PROJECT", "wiki.md", "hello");
    assert_eq!(s, "### PROJECT — wiki.md\nhello");
}

#[test]
fn section_keeps_three_thousand_characters_whole() {
    // 1500 Korean characters are 4500 bytes but fewer than 3000 characters
    let korean = "가".repeat(1500);
    assert_eq!(format_file_section("K", "k.md", &korean), format!("### K — k.md\n{}", korean));
    let exact = "é".repeat(3000);
    assert_eq!(format_file_section("K", "k.md", &exact), format!("### K — k.md\n{}", exact));
}

#[test]
fn section_cuts_long_content_to_three_thousand_characters() {
    let content = format!("{}xyz", "é".repeat(2999));
    let s = format_file_section("KNOWLEDGE", "x.md", &content);
    assert_eq!(s, format!("### KNOWLEDGE — x.md\n{}x...\n[truncated]", "é".repeat(2999)));
}

#[test]
fn triggered_context_block() {
    assert_eq!(format_triggered_context(&vec![]), "");
    let block = format_triggered_context(&strings(&["A", "B"]));
    assert_eq!(
        block,
        "\n## TRIGGERED CONTEXT\nThe following context was auto-loaded based on the user's message.\n\nA\n\nB"
    );
}

#[test]
fn search_query_keeps_two_hundred_characters() {
    let long: String = "ж".repeat(250);
    assert_eq!(search_query(&long).chars().count(), 200);
    assert_eq!(search_query("short"), "short");
}

#[test]
fn search_output_is_read_into_results() {
    let out = r#"{"status": "ok", "files": [{"file": "projects/a/wiki.md", "category": "project"}, {"file": "notes.md", "score": 0.5}, {"file": "x.md", "category": 3}]}"#;
    let r = parse_search_output(out).unwrap();
    assert_eq!(
        r,
        vec![
            ("projects/a/wiki.md".to_string(), "project".to_string()),
            ("notes.md".to_string(), String::new()),
            ("x.md".to_string(), String::new()),
        ]
    );
}

#[test]
fn search_output_failures() {
    assert!(parse_search_output("not json").is_none());
    assert!(parse_search_output(r#"{"status": "error", "files": [{"file": "a"}]}"#).is_none());
    assert!(parse_search_output(r#"{"status": "ok", "files": []}"#).is_none());
    assert!(parse_search_output(r#"{"status": "ok", "files": [{"file": "a"}, {"category": "b"}]}"#).is_none());
    assert!(parse_search_output(r#"{"status": "ok"}"#).is_none());
    assert!(parse_search_output(r#"[1, 2]"#).is_none());
}

#[test]
fn semantic_picks_take_three_with_layers() {
    let results = vec![
        ("projects/a/wiki.md".to_string(), "project".to_string()),
        ("/abs/k.md".to_string(), "knowledge".to_string()),
        ("e.md".to_string(), "episodic".to_string()),
        ("z.md".to_string(), "other".to_string()),
    ];
    let picks = pawpaw::context_trigger::semantic_picks("/r", &results);
    assert_eq!(
        picks,
        vec![
            ("/r/projects/a/wiki.md".to_string(), "PROJECT"),
            ("/abs/k.md".to_string(), "KNOWLEDGE"),
            ("/r/e.md".to_string(), "EPISODIC"),
        ]
    );
}

#[test]
fn frontmatter_reading_stops_when_decided() {
    assert!(frontmatter_read_ends(0, "# title"));
    assert!(!frontmatter_read_ends(0, " --- "));
    assert!(!frontmatter_read_ends(1, "name: x"));
    assert!(frontmatter_read_ends(1, "triggers: [a]"));
    assert!(frontmatter_read_ends(3, "---"));
}

#[test]
fn context_source_decision() {
    let cache = Some((10u64, "deploy the app".to_string()));
    assert!(context_source(2, &cache, "deploy the app") == ContextSource::Keywords);
    assert!(context_source(0, &cache, "deploy the app") == ContextSource::CachedSearch);
    assert!(context_source(0, &Some((300u64, "deploy the app".to_string())), "deploy the app") == ContextSource::Nothing);
    assert!(context_source(0, &cache, "poem about cats") == ContextSource::Nothing);
    assert!(context_source(0, &None, "deploy the app") == ContextSource::Nothing);
}

#[test]
fn more_cached_words_keep_a_match() {
    assert!(messages_similar("deploy app", "deploy app now"));
    assert!(messages_similar("deploy app and more words", "deploy app now"));
}

#[test]
fn plan_loads_keyword_files_first() {
    let index = vec![
        entry(&["rust"], "/r/knowledge/wiki/rust.md", IndexLayer::Knowledge),
        entry(&["rust"], "/r/projects/a/wiki.md", IndexLayer::Project),
    ];
    let cache = Some((1u64, "rust".to_string()));
    let results = vec![("x.md".to_string(), "episodic".to_string())];
    let plan = plan_context(&index, "rust", &cache, &results, "/r");
    assert_eq!(
        plan.files,
        vec![
            ("/r/projects/a/wiki.md".to_string(), "PROJECT"),
            ("/r/knowledge/wiki/rust.md".to_string(), "KNOWLEDGE"),
        ]
    );
    assert!(!plan.start_search);
    let plan = plan_context(&index, "go", &Some((1u64, "go".to_string())), &results, "/r");
    assert_eq!(plan.files, vec![("/r/x.md".to_string(), "EPISODIC")]);
    assert!(plan.start_search);
    let plan = plan_context(&index, "go", &None, &results, "/r");
    assert!(plan.files.is_empty());
    assert!(plan.start_search);
}

#[test]
fn waiting_for_the_search() {
    assert!(search_wait_step(ChildPoll::Exited { success: true }, 10) == WaitStep::ReadOutput);
    assert!(search_wait_step(ChildPoll::Exited { success: false }, 10) == WaitStep::GiveUp);
    assert!(search_wait_step(ChildPoll::Failed, 0) == WaitStep::GiveUp);
    assert!(search_wait_step(ChildPoll::Running, 4999) == WaitStep::Sleep(50));
    assert!(search_wait_step(ChildPoll::Running, 5000) == WaitStep::KillAndGiveUp);
}

#[test]
fn frontmatter_prefix_gives_the_same_triggers() {
    let content = "---\nname: x\ntriggers: [A, b]\nmore: y\n---\nbody";
    let prefix = "---\nname: x\ntriggers: [A, b]";
    assert!(frontmatter_read_ends(2, "triggers: [A, b]"));
    assert_eq!(parse_frontmatter_triggers(prefix), parse_frontmatter_triggers(content));
}
