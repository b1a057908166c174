//! HEARTBEAT.md: periodic tasks, one per line in the form
//! `- [cron: <cron expression>] <task description>`, and the once-a-minute
//! check that decides when they run.

use vstd::prelude::*;
use crate::dates::{format_minute, minute_text, LocalMinute};
use crate::text::{
    is_ws, lemma_split_on_without_separator, lemma_trim_fixed, lemma_trim_leading_space,
    chars_of, find_in_range, lines, range_starts_with, split_ranges, string_of_range,
    strip_prefix, trim, trim_range, trim_str, CharClass,
};

verus! {

/// The marker that opens a task line.
pub const CRON_PREFIX: &'static str = "- [cron:";

/// The task that one line defines, as (description, cron expression): the
/// trimmed line starts with the marker, a `]` closes the expression, and
/// both the trimmed expression and the trimmed rest are non-empty.
pub open spec fn heartbeat_line_task(line: Seq<char>) -> Option<(Seq<char>, Seq<char>)> {
    match strip_prefix(trim(line), CRON_PREFIX@) {
        Some(rest) => match rest.index_of_first(']') {
            Some(i) => {
                let cron = trim(rest.take(i));
                let desc = trim(rest.skip(i + 1));
                if cron.len() > 0 && desc.len() > 0 {
                    Some((desc, cron))
                } else {
                    None
                }
            },
            None => None,
        },
        None => None,
    }
}

/// The tasks of HEARTBEAT.md, in the order of their lines.
pub open spec fn heartbeat_tasks(content: Seq<char>) -> Seq<(Seq<char>, Seq<char>)> {
    lines(content).filter_map(|l: Seq<char>| heartbeat_line_task(l))
}

/// The views of a list of (description, cron) pairs.
pub open spec fn task_views(tasks: Seq<(String, String)>) -> Seq<(Seq<char>, Seq<char>)> {
    tasks.map_values(|t: (String, String)| (t.0@, t.1@))
}

/// Parses the task line `v[lo..hi]`.
fn parse_task_line(v: &Vec<char>, prefix: &Vec<char>, lo: usize, hi: usize) -> (r: Option<
    (String, String),
>)
    requires
        lo <= hi <= v@.len(),
        prefix@ == CRON_PREFIX@,
    ensures
        match r {
            Some(t) => heartbeat_line_task(v@.subrange(lo as int, hi as int)) == Some(
                (t.0@, t.1@),
            ),
            None => heartbeat_line_task(v@.subrange(lo as int, hi as int)) is None,
        },
{
    let (a, b) = trim_range(v, lo, hi);
    let ghost line = v@.subrange(lo as int, hi as int);
    let ghost t = v@.subrange(a as int, b as int);
    if !range_starts_with(v, a, b, prefix) {
        proof {
            if prefix@.len() <= t.len() {
                assert(t.take(prefix@.len() as int) =~= v@.subrange(a as int, a + prefix@.len()));
            }
        }
        return None;
    }
    let start = a + prefix.len();
    let ghost rest = v@.subrange(start as int, b as int);
    proof {
        assert(t.take(prefix@.len() as int) =~= v@.subrange(a as int, a + prefix@.len()));
        assert(t.skip(prefix@.len() as int) =~= rest);
        assert(strip_prefix(trim(line), CRON_PREFIX@) == Some(rest));
        rest.index_of_first_ensures(']');
    }
    match find_in_range(v, start, b, CharClass::Exactly(']')) {
        None => {
            proof {
                assert(!rest.contains(']')) by {
                    if rest.contains(']') {
                        let j = choose|j: int| 0 <= j < rest.len() && rest[j] == ']';
                        assert(v@[start + j] == ']');
                    }
                }
            }
            None
        },
        Some(i) => {
            proof {
                let k = i - start;
                assert(rest[k] == ']');
                match rest.index_of_first(']') {
                    Some(m) => {
                        if m < k {
                            assert(v@[start + m] == ']');
                        }
                        if k < m {
                            assert(rest[k] != ']');
                        }
                    },
                    None => {
                        assert(rest.contains(']'));
                    },
                }
                assert(rest.index_of_first(']') == Some(k));
                assert(rest.take(k) =~= v@.subrange(start as int, i as int));
                assert(rest.skip(k + 1) =~= v@.subrange(i + 1, b as int));
            }
            let (ca, cb) = trim_range(v, start, i);
            let (da, db) = trim_range(v, i + 1, b);
            if ca < cb && da < db {
                let cron = string_of_range(v, ca, cb);
                let desc = string_of_range(v, da, db);
                Some((desc, cron))
            } else {
                None
            }
        },
    }
}

/// Parses the content of HEARTBEAT.md into (task description, cron
/// expression) pairs.
pub fn read_heartbeat_tasks(content: &str) -> (r: Vec<(String, String)>)
    ensures
        task_views(r@) == heartbeat_tasks(content@),
{
    let v = chars_of(content);
    let prefix = chars_of(CRON_PREFIX);
    let ranges = split_ranges(&v, 0, v.len(), CharClass::Exactly('\n'));
    let ghost ls = lines(content@);
    assert(v@.subrange(0, v@.len() as int) =~= content@);
    let mut r: Vec<(String, String)> = Vec::new();
    let mut k: usize = 0;
    while k < ranges.len()
        invariant
            v@ == content@,
            prefix@ == CRON_PREFIX@,
            ls == lines(content@),
            ranges@.len() == ls.len(),
            forall|j: int|
                0 <= j < ranges@.len() ==> 0 <= (#[trigger] ranges@[j]).0 <= ranges@[j].1
                    <= v@.len() && v@.subrange(ranges@[j].0 as int, ranges@[j].1 as int)
                    == ls[j],
            0 <= k <= ranges@.len(),
            task_views(r@) == ls.take(k as int).filter_map(
                |l: Seq<char>| heartbeat_line_task(l),
            ),
        decreases ranges@.len() - k,
    {
        let (lo, hi) = ranges[k];
        let parsed = parse_task_line(&v, &prefix, lo, hi);
        proof {
            assert(ls.take(k + 1).drop_last() =~= ls.take(k as int));
            assert(ls.take(k + 1).last() == ls[k as int]);
        }
        match parsed {
            Some(t) => {
                r.push(t);
                assert(task_views(r@) =~= ls.take(k + 1).filter_map(
                    |l: Seq<char>| heartbeat_line_task(l),
                ));
            },
            None => {
                assert(task_views(r@) =~= ls.take(k + 1).filter_map(
                    |l: Seq<char>| heartbeat_line_task(l),
                ));
            },
        }
        k = k + 1;
    }
    assert(ls.take(ranges@.len() as int) =~= ls);
    r
}


/// The descriptions of the tasks whose schedule is due: task `i` counts
/// when `due[i]` is true (a missing flag counts as not due).
pub open spec fn due_descriptions(tasks: Seq<(Seq<char>, Seq<char>)>, due: Seq<bool>) -> Seq<
    Seq<char>,
>
    decreases tasks.len(),
{
    if tasks.len() == 0 {
        Seq::<Seq<char>>::empty()
    } else {
        let rest = due_descriptions(tasks.drop_last(), due);
        let i = tasks.len() - 1;
        if i < due.len() && due[i] {
            rest.push(tasks.last().0)
        } else {
            rest
        }
    }
}

/// The descriptions of the heartbeat tasks whose cron expression matches
/// the current time; `due[i]` tells whether task `i`'s expression matches.
pub fn due_heartbeat_tasks(tasks: &Vec<(String, String)>, due: &Vec<bool>) -> (r: Vec<String>)
    ensures
        r@.map_values(|d: String| d@) == due_descriptions(task_views(tasks@), due@),
{
    let mut r: Vec<String> = Vec::new();
    let mut i: usize = 0;
    while i < tasks.len()
        invariant
            0 <= i <= tasks@.len(),
            r@.map_values(|d: String| d@) == due_descriptions(
                task_views(tasks@).take(i as int),
                due@,
            ),
        decreases tasks@.len() - i,
    {
        proof {
            let tv = task_views(tasks@);
            assert(tv.take(i + 1).drop_last() =~= tv.take(i as int));
            assert(tv.take(i + 1).last() == tv[i as int]);
        }
        if i < due.len() && due[i] {
            let d = crate::text::string_of_str(tasks[i].0.as_str());
            r.push(d);
        }
        proof {
            assert(r@.map_values(|d: String| d@) =~= due_descriptions(
                task_views(tasks@).take(i + 1),
                due@,
            ));
        }
        i = i + 1;
    }
    assert(task_views(tasks@).take(tasks@.len() as int) =~= task_views(tasks@));
    r
}

/// Whether a heartbeat check is due at minute `now`, given what the
/// bookkeeping file holds (`None` when it cannot be read): not when the
/// file already records this minute.
pub open spec fn tick_due(last_check: Option<Seq<char>>, now: Seq<char>) -> bool {
    !(last_check matches Some(l) && trim(l) == now)
}

/// The minute stamp that the bookkeeping file records, `%Y-%m-%d %H:%M`.
pub fn heartbeat_minute_stamp(t: &LocalMinute) -> (r: String)
    ensures
        r@ == minute_text(*t),
{
    format_minute(t)
}

/// Whether the heartbeat check should run at minute `now_minute`, given
/// the content of the bookkeeping file (at most once per minute).
pub fn heartbeat_tick_due(last_check: &Option<String>, now_minute: &str) -> (r: bool)
    ensures
        r == tick_due(
            match last_check {
                Some(l) => Some(l@),
                None => None,
            },
            now_minute@,
        ),
{
    match last_check {
        Some(l) => {
            let t = trim_str(l.as_str());
            let n = crate::text::string_of_str(now_minute);
            !(t == n)
        },
        None => true,
    }
}


/// A task written in the documented form, `- [cron: <expr>] <task>`, reads
/// back as that task and expression, when both are trimmed and non-empty,
/// the expression holds no `]` and neither holds a line break.
pub proof fn lemma_task_line_round_trip(cron: Seq<char>, desc: Seq<char>)
    requires
        cron.len() > 0,
        desc.len() > 0,
        !is_ws(cron[0]),
        !is_ws(cron.last()),
        !is_ws(desc[0]),
        !is_ws(desc.last()),
        !cron.contains(']'),
        !cron.contains('\n'),
        !desc.contains('\n'),
    ensures
        heartbeat_tasks(CRON_PREFIX@ + seq![' '] + cron + seq![']', ' '] + desc) == seq![
            (desc, cron),
        ],
{
    reveal_strlit("- [cron:");
    let p = CRON_PREFIX@;
    assert(p.len() == 8);
    let rest = seq![' '] + cron + seq![']', ' '] + desc;
    let line = p + rest;
    assert(CRON_PREFIX@ + seq![' '] + cron + seq![']', ' '] + desc =~= line);
    // the line is its own trim
    assert(line[0] == '-');
    assert(line.last() == desc.last());
    lemma_trim_fixed(line);
    // the prefix comes off
    assert(line.take(p.len() as int) =~= p);
    assert(line.skip(p.len() as int) =~= rest);
    assert(strip_prefix(trim(line), CRON_PREFIX@) == Some(rest));
    // the first `]` closes the expression
    let k: int = cron.len() + 1int;
    assert(rest[k] == ']');
    rest.index_of_first_ensures(']');
    match rest.index_of_first(']') {
        Some(m) => {
            if m < k {
                if m == 0 {
                    assert(rest[0] == ' ');
                } else {
                    assert(rest[m] == cron[m - 1]);
                    assert(cron.contains(']'));
                }
            }
            if k < m {
                assert(rest[k] == ']');
            }
        },
        None => {
            assert(rest.contains(']'));
        },
    }
    assert(rest.index_of_first(']') == Some(k));
    assert(rest.take(k) =~= seq![' '] + cron);
    assert(rest.skip(k + 1) =~= seq![' '] + desc);
    lemma_trim_leading_space(cron);
    lemma_trim_leading_space(desc);
    assert(heartbeat_line_task(line) == Some((desc, cron)));
    // the line is the only line
    assert forall|i: int| 0 <= i < line.len() implies !CharClass::Exactly('\n').has(
        #[trigger] line[i],
    ) by {
        if i < 8 {
            assert(line[i] == p[i]);
        } else if i == 8 {
        } else if i < 9 + cron.len() {
            assert(line[i] == cron[i - 9]);
        } else if i < 11 + cron.len() {
        } else {
            assert(line[i] == desc[i - 11 - cron.len()]);
        }
    }
    lemma_split_on_without_separator(line, CharClass::Exactly('\n'));
    let ls = lines(line);
    assert(ls == seq![line]);
    assert(ls.drop_last() =~= Seq::<Seq<char>>::empty());
    assert(ls.drop_last().filter_map(|l: Seq<char>| heartbeat_line_task(l)) =~= Seq::<
        (Seq<char>, Seq<char>),
    >::empty());
    assert(ls.last() == line);
    assert(ls.filter_map(|l: Seq<char>| heartbeat_line_task(l)) =~= seq![(desc, cron)]);
}

/// Once the minute of a check is recorded, no second check runs in that
/// same minute.
pub proof fn lemma_one_check_per_minute(t: LocalMinute)
    requires
        t.wf(),
    ensures
        !tick_due(Some(minute_text(t)), minute_text(t)),
{
    let s = minute_text(t);
    crate::text::lemma_decimal_digits(t.minute as nat);
    crate::text::lemma_decimal_digits(t.date.year as nat);
    crate::text::lemma_decimal_digits((-t.date.year) as nat);
    let m = crate::dates::two_digits(t.minute as nat);
    let d = crate::text::decimal(t.minute as nat);
    assert(m.last() == d.last());
    assert(s.last() == m.last());
    let y = crate::dates::year_text(t.date.year as int);
    assert(s[0] == y[0]);
    lemma_trim_fixed(s);
}

} // verus!
