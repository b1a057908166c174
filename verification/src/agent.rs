//! Agent memory, sessions, daily memos, prompt assembly and default files.

use vstd::prelude::*;
use crate::dates::{date_display, date_text, format_date_display, push_date, CalendarDate};
use crate::paths::{join, join_path};
use crate::text::{blank, chars_of, decimal, is_blank, push_decimal, push_range, push_str, trim, trim_str};

verus! {

/// Maximum MEMORY.md size (in bytes) before summarization is due.
pub const MEMORY_MAX_BYTES: usize = 50000;

/// Maximum characters of MEMORY.md that the system prompt includes.
pub const MEMORY_PROMPT_MAX_CHARS: usize = 8000;

/// Maximum characters of yesterday's memo that the system prompt includes.
pub const YESTERDAY_MEMO_MAX_CHARS: usize = 2000;

pub const TRUNCATION_OPEN: &'static str = "[...truncated ";

pub const TRUNCATION_CLOSE: &'static str = " chars...]\n";

/// `s` cut from the beginning to its last `max` characters, behind a note
/// that says how many were cut; unchanged when it already fits.
pub open spec fn keep_tail(s: Seq<char>, max: nat) -> Seq<char> {
    if s.len() <= max {
        s
    } else {
        TRUNCATION_OPEN@ + decimal((s.len() - max) as nat) + TRUNCATION_CLOSE@ + s.skip(
            s.len() - max,
        )
    }
}

/// Truncates `text` to `max_chars` characters, cutting from the beginning
/// so that the most recent content stays.
pub fn truncate_keep_tail(text: &str, max_chars: usize) -> (r: String)
    ensures
        r@ == keep_tail(text@, max_chars as nat),
        text@.len() <= max_chars ==> r@ == text@,
        text@.len() > max_chars ==> r@.len() >= max_chars && r@.subrange(
            r@.len() - max_chars,
            r@.len() as int,
        ) == text@.subrange(text@.len() - max_chars, text@.len() as int),
{
    let v = chars_of(text);
    let n = v.len();
    let mut r = String::new();
    if n <= max_chars {
        push_range(&mut r, &v, 0, n);
        assert(r@ =~= text@);
    } else {
        let skip = n - max_chars;
        push_str(&mut r, TRUNCATION_OPEN);
        push_decimal(&mut r, skip as u64);
        push_str(&mut r, TRUNCATION_CLOSE);
        push_range(&mut r, &v, skip, n);
        assert(r@ =~= keep_tail(text@, max_chars as nat));
        assert(r@.subrange(r@.len() - max_chars, r@.len() as int) =~= text@.subrange(
            text@.len() - max_chars,
            text@.len() as int,
        ));
    }
    r
}

// ---------------------------------------------------------------------------
// System prompt assembly
// ---------------------------------------------------------------------------

/// What the system prompt is assembled from: the contents of the agent's
/// markdown files (empty where a file could not be read), the paths, the
/// current date and the last session.
pub struct AgentPromptInputs {
    pub soul: String,
    pub identity: String,
    pub user: String,
    pub memory: String,
    pub agent: String,
    pub heartbeat: String,
    /// Yesterday's daily memo; empty when there is none.
    pub yesterday_memo: String,
    pub agent_root: String,
    pub workspace: String,
    pub today: CalendarDate,
    pub last_session: Option<String>,
}

pub const PROMPT_HEAD: &'static str = "# AGENT MODE ACTIVE\n\nYou are a persistent personal assistant agent with identity, memory, and autonomy.\n\n## SYSTEM RULES\n- All bash commands MUST be non-interactive (use -y, --no-pager, -m flags; never open editors)\n- Respond in the same language as the user\n- Use Markdown formatting\n\n## AGENT GUIDELINES\n";

pub const PROMPT_SOUL: &'static str = "\n\n## SOUL\n";

pub const PROMPT_IDENTITY: &'static str = "\n\n## IDENTITY\n";

pub const PROMPT_USER: &'static str = "\n\n## USER\n";

pub const PROMPT_HEARTBEAT: &'static str = "\n\n## HEARTBEAT\n";

pub const PROMPT_MEMORY: &'static str = "\n\n## MEMORY (use Read tool for full file if truncated)\n";

pub const PROMPT_YESTERDAY: &'static str = "\n\n## YESTERDAY'S MEMO\n";

pub const PROMPT_PATHS: &'static str = "\n\n## Paths\n- Agent root: ";

pub const PROMPT_WORKSPACE: &'static str = "\n- Workspace: ";

pub const PROMPT_DAILY_DIR: &'static str = "\n- Daily memos: ";

pub const PROMPT_DAILY_PATH: &'static str = "\n- Today's daily memo (write here): ";

pub const PROMPT_TODAY: &'static str = "\n- Today: ";

pub const PROMPT_LAST_SESSION: &'static str = "- Last session: ";

pub const NOT_YET_DEFINED: &'static str = "(not yet defined)";

pub const NO_USER_INFO: &'static str = "(no info yet)";

pub const NO_HEARTBEAT: &'static str = "(none)";

pub const EMPTY_MEMORY: &'static str = "(empty)";

pub const NO_YESTERDAY_MEMO: &'static str = "(no memo from yesterday)";

/// `s`, or `placeholder` when `s` is blank.
pub open spec fn or_placeholder(s: Seq<char>, placeholder: Seq<char>) -> Seq<char> {
    if is_blank(s) {
        placeholder
    } else {
        s
    }
}

/// The name of the daily memo file of a day: `daily_memo_YYYY_MM_DD.md`.
pub open spec fn daily_memo_name(d: CalendarDate) -> Seq<char> {
    "daily_memo_"@ + date_text(d, '_') + ".md"@
}

/// The session line of the prompt.
pub open spec fn session_line(s: Option<String>) -> Seq<char> {
    match s {
        Some(sid) => PROMPT_LAST_SESSION@ + sid@,
        None => Seq::<char>::empty(),
    }
}

/// The complete agent system prompt.  Static sections come first and the
/// sections that change often come last, so that prompt caching keeps the
/// longest common prefix.
pub open spec fn agent_prompt(p: AgentPromptInputs) -> Seq<char> {
    let daily = join_path(p.agent_root@, "daily"@);
    PROMPT_HEAD@ + p.agent@
        + PROMPT_SOUL@ + or_placeholder(p.soul@, NOT_YET_DEFINED@)
        + PROMPT_IDENTITY@ + or_placeholder(p.identity@, NOT_YET_DEFINED@)
        + PROMPT_USER@ + or_placeholder(p.user@, NO_USER_INFO@)
        + PROMPT_HEARTBEAT@ + or_placeholder(p.heartbeat@, NO_HEARTBEAT@)
        + PROMPT_MEMORY@ + or_placeholder(
            keep_tail(p.memory@, MEMORY_PROMPT_MAX_CHARS as nat),
            EMPTY_MEMORY@,
        ) + PROMPT_YESTERDAY@ + or_placeholder(
            keep_tail(p.yesterday_memo@, YESTERDAY_MEMO_MAX_CHARS as nat),
            NO_YESTERDAY_MEMO@,
        ) + PROMPT_PATHS@ + p.agent_root@
        + PROMPT_WORKSPACE@ + p.workspace@
        + PROMPT_DAILY_DIR@ + daily
        + PROMPT_DAILY_PATH@ + join_path(daily, daily_memo_name(p.today))
        + PROMPT_TODAY@ + date_display(p.today)
        + "\n"@ + session_line(p.last_session) + "\n"@
}

/// Each file of the agent appears under its own heading, in full, with the
/// next heading right after it: the prompt holds `## SOUL` followed by
/// SOUL.md, `## IDENTITY` by IDENTITY.md, `## USER` by USER.md and
/// `## HEARTBEAT` by HEARTBEAT.md (each replaced by its placeholder only when
/// blank), and the guidelines of AGENT.md under `## AGENT GUIDELINES`.
pub proof fn lemma_prompt_sections(p: AgentPromptInputs)
    ensures
        crate::text::has_substring(
            agent_prompt(p),
            PROMPT_HEAD@ + p.agent@ + PROMPT_SOUL@,
        ),
        crate::text::has_substring(
            agent_prompt(p),
            PROMPT_SOUL@ + (if is_blank(p.soul@) {
                NOT_YET_DEFINED@
            } else {
                p.soul@
            }) + PROMPT_IDENTITY@,
        ),
        crate::text::has_substring(
            agent_prompt(p),
            PROMPT_IDENTITY@ + (if is_blank(p.identity@) {
                NOT_YET_DEFINED@
            } else {
                p.identity@
            }) + PROMPT_USER@,
        ),
        crate::text::has_substring(
            agent_prompt(p),
            PROMPT_USER@ + (if is_blank(p.user@) {
                NO_USER_INFO@
            } else {
                p.user@
            }) + PROMPT_HEARTBEAT@,
        ),
        crate::text::has_substring(
            agent_prompt(p),
            PROMPT_HEARTBEAT@ + (if is_blank(p.heartbeat@) {
                NO_HEARTBEAT@
            } else {
                p.heartbeat@
            }) + PROMPT_MEMORY@,
        ),
        !is_blank(p.user@) ==> crate::text::has_substring(agent_prompt(p), p.user@),
{
    let soul = or_placeholder(p.soul@, NOT_YET_DEFINED@);
    let identity = or_placeholder(p.identity@, NOT_YET_DEFINED@);
    let user = or_placeholder(p.user@, NO_USER_INFO@);
    let heartbeat = or_placeholder(p.heartbeat@, NO_HEARTBEAT@);
    let a = PROMPT_HEAD@ + p.agent@;
    let b = a + PROMPT_SOUL@ + soul;
    let c = b + PROMPT_IDENTITY@ + identity;
    let d = c + PROMPT_USER@ + user;
    assert forall|x: Seq<char>, y: Seq<char>, q: Seq<char>|
        crate::text::has_substring(x, q) implies #[trigger] crate::text::has_substring(x + y, q) by {
        crate::text::lemma_has_substring_append(x, y, q);
    }
    lemma_three_parts_found(Seq::<char>::empty(), PROMPT_HEAD@, p.agent@, PROMPT_SOUL@);
    assert(Seq::<char>::empty() + PROMPT_HEAD@ =~= PROMPT_HEAD@);
    lemma_three_parts_found(a, PROMPT_SOUL@, soul, PROMPT_IDENTITY@);
    lemma_three_parts_found(b, PROMPT_IDENTITY@, identity, PROMPT_USER@);
    lemma_three_parts_found(c, PROMPT_USER@, user, PROMPT_HEARTBEAT@);
    lemma_three_parts_found(d, PROMPT_HEARTBEAT@, heartbeat, PROMPT_MEMORY@);
    if !is_blank(p.user@) {
        crate::text::lemma_has_substring_at_end(c + PROMPT_USER@, p.user@);
    }
}

/// Three consecutive pieces of a concatenation occur together in it.
proof fn lemma_three_parts_found(w: Seq<char>, x: Seq<char>, y: Seq<char>, z: Seq<char>)
    ensures
        crate::text::has_substring(w + x + y + z, x + y + z),
{
    assert((w + x + y + z).subrange(w.len() as int, (w.len() + (x + y + z).len()) as int) =~= x + y + z);
}

/// Appends `s`, or `placeholder` when `s` is blank.
fn push_or_placeholder(out: &mut String, s: &str, placeholder: &str)
    ensures
        final(out)@ == old(out)@ + or_placeholder(s@, placeholder@),
{
    if blank(s) {
        push_str(out, placeholder);
    } else {
        push_str(out, s);
    }
}

/// The name of the daily memo file of a day.
pub fn daily_memo_file_name(d: &CalendarDate) -> (r: String)
    ensures
        r@ == daily_memo_name(*d),
{
    let mut r = String::new();
    push_str(&mut r, "daily_memo_");
    push_date(&mut r, d, '_');
    push_str(&mut r, ".md");
    assert(r@ =~= daily_memo_name(*d));
    r
}

/// The path of the daily memo of a day inside the daily directory.
pub fn daily_memo_path(daily_dir: &str, d: &CalendarDate) -> (r: String)
    ensures
        r@ == join_path(daily_dir@, daily_memo_name(*d)),
{
    let name = daily_memo_file_name(d);
    join(daily_dir, name.as_str())
}

/// The path of today's daily memo, or `None` when the home directory or the
/// clock cannot be read.
pub fn today_daily_memo_path() -> (r: Option<String>)
    ensures
        r matches Some(p) ==> exists|h: Seq<char>, d: CalendarDate|
            h.len() > 0 && d.wf() && p@ == join_path(
                join_path(crate::paths::agent_root_path(h), "daily"@),
                daily_memo_name(d),
            ),
{
    match crate::paths::daily_dir() {
        Some(daily) => match crate::clock::current_minute() {
            Some(now) => Some(daily_memo_path(daily.as_str(), &now.date)),
            None => None,
        },
        None => None,
    }
}

/// Builds the complete agent system prompt from the agent's files.
/// MEMORY.md keeps its most recent 8000 characters and yesterday's memo its
/// most recent 2000; today's memo is named, not loaded.
pub fn build_agent_system_prompt(p: &AgentPromptInputs) -> (r: String)
    ensures
        r@ == agent_prompt(*p),
{
    let memory = truncate_keep_tail(p.memory.as_str(), MEMORY_PROMPT_MAX_CHARS);
    let yesterday = truncate_keep_tail(p.yesterday_memo.as_str(), YESTERDAY_MEMO_MAX_CHARS);
    let daily = join(p.agent_root.as_str(), "daily");
    let daily_path = daily_memo_path(daily.as_str(), &p.today);
    let today = format_date_display(&p.today);
    let mut r = String::new();
    push_str(&mut r, PROMPT_HEAD);
    push_str(&mut r, p.agent.as_str());
    push_str(&mut r, PROMPT_SOUL);
    push_or_placeholder(&mut r, p.soul.as_str(), NOT_YET_DEFINED);
    push_str(&mut r, PROMPT_IDENTITY);
    push_or_placeholder(&mut r, p.identity.as_str(), NOT_YET_DEFINED);
    push_str(&mut r, PROMPT_USER);
    push_or_placeholder(&mut r, p.user.as_str(), NO_USER_INFO);
    push_str(&mut r, PROMPT_HEARTBEAT);
    push_or_placeholder(&mut r, p.heartbeat.as_str(), NO_HEARTBEAT);
    push_str(&mut r, PROMPT_MEMORY);
    push_or_placeholder(&mut r, memory.as_str(), EMPTY_MEMORY);
    push_str(&mut r, PROMPT_YESTERDAY);
    push_or_placeholder(&mut r, yesterday.as_str(), NO_YESTERDAY_MEMO);
    push_str(&mut r, PROMPT_PATHS);
    push_str(&mut r, p.agent_root.as_str());
    push_str(&mut r, PROMPT_WORKSPACE);
    push_str(&mut r, p.workspace.as_str());
    push_str(&mut r, PROMPT_DAILY_DIR);
    push_str(&mut r, daily.as_str());
    push_str(&mut r, PROMPT_DAILY_PATH);
    push_str(&mut r, daily_path.as_str());
    push_str(&mut r, PROMPT_TODAY);
    push_str(&mut r, today.as_str());
    push_str(&mut r, "\n");
    match &p.last_session {
        Some(sid) => {
            push_str(&mut r, PROMPT_LAST_SESSION);
            push_str(&mut r, sid.as_str());
        },
        None => {},
    }
    push_str(&mut r, "\n");
    assert(r@ =~= agent_prompt(*p));
    r
}

// ---------------------------------------------------------------------------
// Session persistence
// ---------------------------------------------------------------------------

/// Sessions older than seven days are not resumed.
pub const SESSION_TTL_SECS: u64 = 604800;

/// Whether a session file of the given age (seconds and nanoseconds since
/// its last modification) is older than seven days.
pub fn session_is_stale(age_secs: u64, age_nanos: u32) -> (r: bool)
    ensures
        r == (age_secs > SESSION_TTL_SECS || (age_secs == SESSION_TTL_SECS && age_nanos > 0)),
{
    age_secs > SESSION_TTL_SECS || (age_secs == SESSION_TTL_SECS && age_nanos > 0)
}

/// The session ID that a saved session file holds: its trimmed content, or
/// `None` when that is empty.
pub fn last_session_from_content(content: &str) -> (r: Option<String>)
    ensures
        match r {
            Some(sid) => !is_blank(content@) && sid@ == trim(content@),
            None => is_blank(content@),
        },
{
    let t = trim_str(content);
    if t.as_str().is_empty() {
        None
    } else {
        Some(t)
    }
}

// ---------------------------------------------------------------------------
// Daily memo
// ---------------------------------------------------------------------------

pub const DAILY_MEMO_TITLE: &'static str = "# Daily Memo \u{2014} ";

pub const DAILY_MEMO_SECTIONS: &'static str = "\n\n## Work Log\n\n## Key Conversations\n\n## Notes\n";

/// The template of a new daily memo.
pub open spec fn daily_memo_text(d: CalendarDate) -> Seq<char> {
    DAILY_MEMO_TITLE@ + date_display(d) + DAILY_MEMO_SECTIONS@
}

/// The empty template with which a day's memo file starts.
pub fn daily_memo_template(d: &CalendarDate) -> (r: String)
    ensures
        r@ == daily_memo_text(*d),
{
    let mut r = String::new();
    push_str(&mut r, DAILY_MEMO_TITLE);
    let day = format_date_display(d);
    push_str(&mut r, day.as_str());
    push_str(&mut r, DAILY_MEMO_SECTIONS);
    assert(r@ =~= daily_memo_text(*d));
    r
}

// ---------------------------------------------------------------------------
// Memory management
// ---------------------------------------------------------------------------

/// The size of MEMORY.md in bytes, given the length from its metadata
/// (`None` when the file or its metadata cannot be read).
pub open spec fn memory_bytes(len: Option<u64>) -> usize {
    match len {
        Some(l) => l as usize,
        None => 0,
    }
}

/// Whether MEMORY.md, with the given metadata length, exceeds the
/// summarization threshold.
pub fn memory_needs_summarization(len: Option<u64>) -> (r: bool)
    ensures
        r == (len is Some && (len->0 as usize) > MEMORY_MAX_BYTES),
{
    match len {
        Some(l) => (l as usize) > MEMORY_MAX_BYTES,
        None => false,
    }
}

/// The current MEMORY.md size in bytes, 0 when it cannot be read.
pub fn memory_size(len: Option<u64>) -> (r: usize)
    ensures
        r == memory_bytes(len),
{
    match len {
        Some(l) => l as usize,
        None => 0,
    }
}

/// Summarization is due exactly when the reported memory size exceeds the
/// threshold.
pub proof fn lemma_summarization_follows_size(len: Option<u64>)
    ensures
        (len is Some && (len->0 as usize) > MEMORY_MAX_BYTES) == (memory_bytes(len)
            > MEMORY_MAX_BYTES),
{
}

/// The summarization prompt gives the memory verbatim and in full, whatever
/// its length: the prompt opens with the fixed head and ends with the whole
/// memory followed by the closing instruction.
pub proof fn lemma_summarization_prompt_holds_memory(memory: Seq<char>, bytes: nat)
    ensures
        ({
            let p = summarization_prompt(memory, bytes);
            let tail = memory + SUMMARY_TAIL@;
            &&& p.len() >= tail.len() + SUMMARY_HEAD@.len()
            &&& p.take(SUMMARY_HEAD@.len() as int) == SUMMARY_HEAD@
            &&& p.skip(p.len() - tail.len()) == tail
            &&& crate::text::has_substring(p, memory)
        }),
{
    let p = summarization_prompt(memory, bytes);
    let front = SUMMARY_HEAD@ + decimal(bytes) + SUMMARY_THRESHOLD@ + decimal(MEMORY_MAX_BYTES as nat)
        + SUMMARY_TASK@;
    assert(p =~= front + (memory + SUMMARY_TAIL@));
    assert(p.take(SUMMARY_HEAD@.len() as int) =~= SUMMARY_HEAD@);
    assert(p.skip(front.len() as int) =~= memory + SUMMARY_TAIL@);
    assert(p.subrange(front.len() as int, front.len() + memory.len() as int) =~= memory);
}

pub const SUMMARY_HEAD: &'static str = "You are performing maintenance on your own long-term memory file.\nThe MEMORY.md file has grown too large (";

pub const SUMMARY_THRESHOLD: &'static str = " bytes, threshold: ";

pub const SUMMARY_TASK: &'static str = " bytes).\n\nYour task:\n1. Read the current memory content below.\n2. Summarize it \u{2014} keep ALL important facts, decisions, user preferences, and key learnings.\n3. Remove redundant, outdated, or trivial entries.\n4. Output ONLY the new summarized MEMORY.md content (no explanations, no extra text).\n5. Maintain the same markdown format.\n\nCurrent MEMORY.md:\n---\n";

pub const SUMMARY_TAIL: &'static str = "\n---\n\nOutput the summarized MEMORY.md content now:";

/// The prompt that asks the agent to summarize a memory of `bytes` bytes.
pub open spec fn summarization_prompt(memory: Seq<char>, bytes: nat) -> Seq<char> {
    SUMMARY_HEAD@ + decimal(bytes) + SUMMARY_THRESHOLD@ + decimal(MEMORY_MAX_BYTES as nat)
        + SUMMARY_TASK@ + memory + SUMMARY_TAIL@
}

/// Builds the prompt that asks the agent to summarize its own memory, or
/// `None` when the memory is blank.
pub fn build_memory_summarization_prompt(memory: &str) -> (r: Option<String>)
    ensures
        match r {
            Some(p) => !is_blank(memory@) && p@ == summarization_prompt(
                memory@,
                memory.len() as nat,
            ),
            None => is_blank(memory@),
        },
{
    if blank(memory) {
        return None;
    }
    let mut r = String::new();
    push_str(&mut r, SUMMARY_HEAD);
    push_decimal(&mut r, memory.len() as u64);
    push_str(&mut r, SUMMARY_THRESHOLD);
    push_decimal(&mut r, MEMORY_MAX_BYTES as u64);
    push_str(&mut r, SUMMARY_TASK);
    push_str(&mut r, memory);
    push_str(&mut r, SUMMARY_TAIL);
    assert(r@ =~= summarization_prompt(memory@, memory.len() as nat));
    Some(r)
}


// ---------------------------------------------------------------------------
// Default file contents
// ---------------------------------------------------------------------------

pub const DEFAULT_SOUL: &'static str = r#"# Soul

Define the agent's core personality and values here.

## Personality Traits
- (e.g., Thoughtful, proactive, honest)

## Communication Style
- (e.g., Warm but concise, uses clear language)

## Values
- (e.g., Respects user's time, maintains transparency)
"#;

/// The initial content of SOUL.md.
pub fn default_soul() -> (r: &'static str)
    ensures
        r@ == DEFAULT_SOUL@,
{
    DEFAULT_SOUL
}

pub const DEFAULT_IDENTITY: &'static str = r#"# Identity

## Name
(Give your agent a name)

## Role
Personal AI assistant with persistent memory and autonomous capabilities.

## Capabilities
- File management and system operations
- Code writing, review, and debugging
- Research and information gathering
- Task scheduling and automation
- Long-term context retention across sessions
"#;

/// The initial content of IDENTITY.md.
pub fn default_identity() -> (r: &'static str)
    ensures
        r@ == DEFAULT_IDENTITY@,
{
    DEFAULT_IDENTITY
}

pub const DEFAULT_USER: &'static str = r#"# User Profile

Record information about the user here as you learn it.

## Basic Info
- Name:
- Role:

## Preferences
- Language:
- Communication style:

## Work Context
- Primary projects:
- Tech stack:

## Notes
"#;

/// The initial content of USER.md.
pub fn default_user() -> (r: &'static str)
    ensures
        r@ == DEFAULT_USER@,
{
    DEFAULT_USER
}

pub const DEFAULT_MEMORY: &'static str = r#"# Long-Term Memory

Record important facts, decisions, and learnings here.
This file is read at every session start to maintain continuity.

## Key Facts

## Decisions Made

## Learnings
"#;

/// The initial content of MEMORY.md.
pub fn default_memory() -> (r: &'static str)
    ensures
        r@ == DEFAULT_MEMORY@,
{
    DEFAULT_MEMORY
}

pub const DEFAULT_AGENT: &'static str = r#"# Agent Behavioral Guidelines

## Core Files (read at every session start)
- **SOUL.md**: Your personality, values, and tone. Always embody them.
- **IDENTITY.md**: Your name, role, and capabilities.
- **USER.md**: Everything you know about the user. Update when you learn new info.
- **MEMORY.md**: Long-term memory. Append important facts, decisions, and learnings.
- **HEARTBEAT.md**: Periodic tasks to execute automatically.
- **AGENT.md**: This file — your behavioral guidelines.

## Rules
1. **Memory**: During conversations, record important information to MEMORY.md — facts, preferences, decisions, anything that should persist across sessions.
2. **Daily Memo**: At the start of each work day, create (or append to) the daily memo file (`daily/daily_memo_YYYY_MM_DD.md`). Log:
   - Tasks performed
   - Key conversations and decisions
   - Items to follow up on
3. **User Profile**: Proactively update USER.md when you discover new information about the user — their name, preferences, projects, working style.
4. **Workspace**: Use the `workspace/` directory freely for drafts, temp files, scripts, and any working materials.
5. **Continuity**: Always reference past memories and daily memos when relevant. You are a persistent entity — act like one.
6. **Heartbeat**: Execute HEARTBEAT tasks when their schedule conditions are met.
7. **Autonomy**: Act decisively. You have full local system access. Perform routine operations without asking for permission.
8. **Transparency**: For significant or irreversible actions, briefly explain what you're doing and why.

## File Format for HEARTBEAT.md
Define periodic tasks using this format:
```
- [cron: */30 * * * *] Check for new files in workspace and summarize
- [cron: 0 9 * * *] Write morning daily memo and review yesterday's notes
```
"#;

/// The initial content of AGENT.md.
pub fn default_agent() -> (r: &'static str)
    ensures
        r@ == DEFAULT_AGENT@,
{
    DEFAULT_AGENT
}

pub const DEFAULT_HEARTBEAT: &'static str = r#"# Heartbeat — Periodic Tasks

Define tasks that should run on a schedule.
Format: `- [cron: <cron_expression>] <task description>`

## Examples
```
- [cron: 0 9 * * *] Create today's daily memo and review yesterday's work
- [cron: 0 18 * * *] Summarize today's work in the daily memo
- [cron: 0 0 * * 0] Weekly review — summarize the week and update MEMORY.md
```

## Active Tasks
(Add your tasks below)
"#;

/// The initial content of HEARTBEAT.md.
pub fn default_heartbeat() -> (r: &'static str)
    ensures
        r@ == DEFAULT_HEARTBEAT@,
{
    DEFAULT_HEARTBEAT
}

} // verus!
