use pawpaw::agent::today_daily_memo_path;
use pawpaw::clock::{current_minute, day_before, moment_day_before, today_and_yesterday, LocalInstant};
use pawpaw::dates::{CalendarDate, LocalMinute};
use pawpaw::paths::local_agent_dir;

#[test]
fn current_minute_is_in_range() {
    let m = current_minute().expect("the clock reads after 1970");
    assert!((1..=12).contains(&m.date.month));
    assert!((1..=31).contains(&m.date.day));
    assert!(m.date.weekday < 7);
    assert!(m.hour < 24 && m.minute < 60);
}

#[test]
fn yesterday_is_another_day() {
    let (now, yesterday) = today_and_yesterday().expect("the clock reads after 1970");
    let y = yesterday.expect("the day before now is in range");
    assert_eq!(y.timestamp, now.timestamp - 86_400);
    let (t, d) = (now.at.date, y.at.date);
    assert!((d.year, d.month, d.day) != (t.year, t.month, t.day));
    assert!(d.weekday < 7);
}

#[test]
fn today_memo_lives_in_the_daily_directory() {
    if let Some(p) = today_daily_memo_path() {
        assert!(p.contains("/.cokacdir/agent/daily/daily_memo_"));
        assert!(p.ends_with(".md"));
    }
}

#[test]
fn local_agent_directory() {
    if let Some(p) = local_agent_dir() {
        assert!(p.ends_with("/.cokacdir/local-agent"));
    }
}

#[test]
fn day_before_is_found_within_range() {
    let at = LocalMinute { date: CalendarDate { year: 1970, month: 1, day: 2, weekday: 4 }, hour: 0, minute: 0 };
    let d = day_before(&LocalInstant { timestamp: 86_400 * 100, at }).expect("in range");
    assert_eq!(d.timestamp, 86_400 * 99);
    assert!((1..=12).contains(&d.at.date.month) && d.at.date.weekday < 7);
    assert_eq!(moment_day_before(86_400), Some(0));
    assert_eq!(moment_day_before(i64::MIN + 86_399), None);
    assert!(day_before(&LocalInstant { timestamp: i64::MIN, at }).is_none());
}
