use gh_release_notify::config::{Config, Encryption, SmtpConfig, UiConfig};
use gh_release_notify::github::{GithubError, Release};
use gh_release_notify::schedule::CronSchedule;
use gh_release_notify::scheduler::{
    finish_tick, finish_tick_at, next_poll_at, wait_for, Action, Event, LoopEvent, Phase, Poll,
    StatusSnapshot, Wake,
};
use gh_release_notify::state::StateStore;
use gh_release_notify::time::{Timestamp, Wait, MAX_SECONDS};

fn config(repos: &[&str]) -> Config {
    Config {
        poll_interval_seconds: 3600,
        state_path: "./state.json".to_string(),
        sender: "bot@homelab.local".to_string(),
        repos: repos.iter().map(|r| r.to_string()).collect(),
        recipients: vec!["you@example.com".to_string()],
        smtp: SmtpConfig {
            host: "smtp.example.com".to_string(),
            port: 587,
            encryption: Encryption::StartTls,
            username: String::new(),
            password: String::new(),
        },
        cron_expression: None,
        cron_schedule: None,
        config_path: String::new(),
        ui: UiConfig::default(),
    }
}

fn release(tag: &str) -> Release {
    Release {
        tag_name: tag.to_string(),
        name: tag.to_string(),
        html_url: String::new(),
        body: String::new(),
        published_at: Timestamp { secs: 0, nanos: 0 },
    }
}

fn found(tag: &str) -> Event {
    Event::Fetched(Ok(Some(release(tag))))
}

fn fetches(poll: &Poll, state: &StateStore, repo: &str) -> bool {
    matches!(poll.action(state), Action::Fetch(r) if r == repo)
}

fn finishes(poll: &Poll, state: &StateStore, limited: bool) -> bool {
    matches!(poll.action(state), Action::Finish { rate_limited } if rate_limited == limited)
}

#[test]
fn first_run_stores_without_mail() {
    let mut state = StateStore::load("s", None);
    let poll = Poll::start(&config(&["a/b"]));
    assert!(fetches(&poll, &state, "a/b"));
    let poll = poll.step(found("1"), &mut state);
    assert_eq!(state.last_seen("a/b"), Some("1"));
    match poll.action(&state) {
        Action::Save(save) => assert_eq!(save.contents(), "{\n  \"a/b\": \"1\"\n}"),
        _ => panic!("the store is not saved"),
    }
    let poll = poll.step(Event::Saved, &mut state);
    assert!(finishes(&poll, &state, false));
}

#[test]
fn unchanged_tag_goes_on() {
    let mut state = StateStore::load("s", None);
    state.set("a/b", "1");
    let poll = Poll::start(&config(&["a/b", "c/d"])).step(found("1"), &mut state);
    assert!(fetches(&poll, &state, "c/d"));
    assert_eq!(state.last_seen("a/b"), Some("1"));
}

#[test]
fn new_tag_is_stored_after_the_mail() {
    let mut state = StateStore::load("s", None);
    state.set("a/b", "1");
    let poll = Poll::start(&config(&["a/b"])).step(found("2"), &mut state);
    assert!(matches!(poll.action(&state), Action::Mail(r) if r == "a/b"));
    assert_eq!(poll.release().unwrap().tag_name, "2");
    assert_eq!(state.last_seen("a/b"), Some("1"));
    let poll = poll.step(Event::Mailed(true), &mut state);
    assert_eq!(state.last_seen("a/b"), Some("2"));
    assert!(poll.release().is_none());
    assert!(matches!(poll.action(&state), Action::Save(_)));
    let poll = poll.step(Event::Saved, &mut state);
    assert!(finishes(&poll, &state, false));
    let again = Poll::start(&config(&["a/b"])).step(found("2"), &mut state);
    assert!(finishes(&again, &state, false));
}

#[test]
fn failed_mail_leaves_the_tag_and_is_retried() {
    let mut state = StateStore::load("s", None);
    state.set("a/b", "1");
    let poll = Poll::start(&config(&["a/b"])).step(found("2"), &mut state);
    let poll = poll.step(Event::Mailed(false), &mut state);
    assert!(finishes(&poll, &state, false));
    assert_eq!(state.last_seen("a/b"), Some("1"));
    let again = Poll::start(&config(&["a/b"])).step(found("2"), &mut state);
    assert!(matches!(again.action(&state), Action::Mail(_)));
}

#[test]
fn rate_limit_stops_the_poll() {
    let mut state = StateStore::load("s", None);
    let limited = Event::Fetched(Err(GithubError::RateLimited {
        repo: "a/b".to_string(),
        body: String::new(),
    }));
    let poll = Poll::start(&config(&["a/b", "c/d"])).step(limited, &mut state);
    assert!(finishes(&poll, &state, true));
    let poll = poll.step(found("1"), &mut state);
    assert!(finishes(&poll, &state, true));
    assert_eq!(state.last_seen("a/b"), None);
}

#[test]
fn other_failures_skip_one_repository() {
    let mut state = StateStore::load("s", None);
    let poll = Poll::start(&config(&["a/b", "c/d", "e/f"]));
    let poll = poll.step(Event::Fetched(Err(GithubError::Request("x".to_string()))), &mut state);
    assert!(fetches(&poll, &state, "c/d"));
    let poll = poll.step(Event::Fetched(Ok(None)), &mut state);
    assert!(fetches(&poll, &state, "e/f"));
    let failed = GithubError::Status { repo: "e/f".to_string(), status: 500, body: String::new() };
    let poll = poll.step(Event::Fetched(Err(failed)), &mut state);
    assert!(finishes(&poll, &state, false));
}

#[test]
fn answers_to_other_questions_change_nothing() {
    let mut state = StateStore::load("s", None);
    let poll = Poll::start(&config(&["a/b"])).step(Event::Mailed(true), &mut state);
    assert!(fetches(&poll, &state, "a/b"));
    let poll = poll.step(Event::Saved, &mut state);
    assert!(fetches(&poll, &state, "a/b"));
    assert_eq!(state.last_seen("a/b"), None);
}

#[test]
fn a_poll_without_repositories_is_over() {
    let state = StateStore::load("s", None);
    assert!(finishes(&Poll::start(&config(&[])), &state, false));
}

const NOW: Timestamp = Timestamp { secs: 1_782_484_140, nanos: 250_000_000 };

#[test]
fn the_interval_sets_the_next_poll() {
    let next = next_poll_at(&config(&["a/b"]), &NOW).unwrap();
    assert_eq!(next.secs, NOW.secs + 3600);
    assert_eq!(next.nanos, NOW.nanos);
    let wait = wait_for(&config(&["a/b"]), &NOW, &Some(next));
    assert_eq!(wait, Wait { secs: 3600, nanos: 0 });
}

#[test]
fn the_schedule_takes_precedence_and_skips_to_the_next_occurrence() {
    let mut cfg = config(&["a/b"]);
    cfg.cron_schedule = Some(CronSchedule { source: "0 0 */6 * * *".to_string() });
    // 2026-06-26 14:29:00.25 UTC, so the next full sixth hour is 18:00.
    let next = next_poll_at(&cfg, &NOW).unwrap();
    assert_eq!(next.secs, 1_782_496_800);
    assert_eq!(next.nanos, 0);
    let wait = wait_for(&cfg, &NOW, &Some(next));
    assert_eq!(wait, Wait { secs: 12659, nanos: 750_000_000 });
    let on_time = Timestamp { secs: 1_782_496_800, nanos: 0 };
    assert_eq!(next_poll_at(&cfg, &on_time).unwrap().secs, 1_782_496_800 + 6 * 3600);
}

#[test]
fn a_schedule_that_is_over_falls_back_to_the_interval() {
    let mut cfg = config(&["a/b"]);
    cfg.cron_schedule = Some(CronSchedule { source: "0 0 0 1 1 * 2020".to_string() });
    let next = next_poll_at(&cfg, &NOW);
    assert!(next.is_none());
    assert_eq!(wait_for(&cfg, &NOW, &next), Wait { secs: 3600, nanos: 0 });
}

#[test]
fn a_time_that_has_gone_by_is_not_waited_for() {
    let past = Timestamp { secs: NOW.secs, nanos: 0 };
    assert_eq!(wait_for(&config(&[]), &NOW, &Some(past)), Wait { secs: 0, nanos: 0 });
}

#[test]
fn reports_list_every_repository() {
    let mut state = StateStore::load("s", None);
    state.set("a/b", "1");
    state.set("gone/gone", "9");
    let report = finish_tick_at(&config(&["a/b", "c/d"]), &state, &NOW);
    assert_eq!(report.snapshot.repos.len(), 2);
    assert_eq!(report.snapshot.repos[0].repo, "a/b");
    assert_eq!(report.snapshot.repos[0].last_seen.as_deref(), Some("1"));
    assert_eq!(report.snapshot.repos[1].repo, "c/d");
    assert_eq!(report.snapshot.repos[1].last_seen, None);
    assert_eq!(report.snapshot.last_poll_finished_at.unwrap().secs, NOW.secs);
    assert_eq!(report.snapshot.next_poll_at.unwrap().secs, NOW.secs + 3600);
    assert_eq!(report.wait, Wait { secs: 3600, nanos: 0 });
    let empty = StatusSnapshot::before_first_poll();
    assert!(empty.repos.is_empty() && empty.next_poll_at.is_none());
    assert!(empty.last_poll_finished_at.is_none());
}

#[test]
fn the_clock_ends_a_poll() {
    let state = StateStore::load("s", None);
    let before = chrono::Utc::now().timestamp();
    let report = finish_tick(&config(&["a/b"]), &state);
    let after = chrono::Utc::now().timestamp();
    let at = report.snapshot.last_poll_finished_at.unwrap();
    assert!(before <= at.secs && at.secs <= after);
    assert_eq!(report.snapshot.next_poll_at.unwrap().secs, at.secs + 3600);
    assert_eq!(report.wait, Wait { secs: 3600, nanos: 0 });
}

#[test]
fn an_interval_beyond_the_calendar_is_waited_for_without_a_date() {
    let mut state = StateStore::load("s", None);
    state.set("a/b", "1");
    let mut cfg = config(&["a/b"]);
    for interval in [i64::MAX as u64, i64::MAX as u64 + 1, u64::MAX] {
        cfg.poll_interval_seconds = interval;
        let report = finish_tick(&cfg, &state);
        assert!(report.snapshot.next_poll_at.is_none());
        assert!(report.snapshot.last_poll_finished_at.is_some());
        assert_eq!(report.snapshot.repos[0].last_seen.as_deref(), Some("1"));
        assert_eq!(report.wait, Wait { secs: interval, nanos: 0 });
    }
    cfg.poll_interval_seconds = 60;
    let last = Timestamp { secs: MAX_SECONDS - 60, nanos: 5 };
    assert_eq!(next_poll_at(&cfg, &last).unwrap().secs, MAX_SECONDS);
    let beyond = Timestamp { secs: MAX_SECONDS - 59, nanos: 5 };
    assert!(next_poll_at(&cfg, &beyond).is_none());
    assert_eq!(finish_tick_at(&cfg, &state, &beyond).wait, Wait { secs: 60, nanos: 0 });
    cfg.cron_schedule = Some(CronSchedule { source: "0 0 */6 * * *".to_string() });
    let end = Timestamp { secs: MAX_SECONDS, nanos: 0 };
    assert!(finish_tick_at(&cfg, &state, &end).snapshot.next_poll_at.is_none());
}

#[test]
fn only_a_shutdown_ends_the_loop() {
    let polling = Phase::start();
    assert_eq!(polling, Phase::Polling);
    assert_eq!(polling.after(LoopEvent::Woke(Wake::Shutdown)), Phase::Polling);
    let waiting = polling.after(LoopEvent::Polled);
    assert_eq!(waiting, Phase::Waiting);
    assert_eq!(waiting.after(LoopEvent::Polled), Phase::Waiting);
    assert_eq!(waiting.after(LoopEvent::Woke(Wake::Elapsed)), Phase::Polling);
    assert_eq!(waiting.after(LoopEvent::Woke(Wake::ConfigChanged)), Phase::Polling);
    let stopped = waiting.after(LoopEvent::Woke(Wake::Shutdown));
    assert_eq!(stopped, Phase::Stopped);
    assert_eq!(stopped.after(LoopEvent::Polled), Phase::Stopped);
    assert_eq!(stopped.after(LoopEvent::Woke(Wake::Elapsed)), Phase::Stopped);
}

/// Runs a whole poll; what is announced comes back, each with its repository.
fn whole_poll(
    repos: &[&str],
    state: &mut StateStore,
    answer: &dyn Fn(&str) -> Event,
    sent: &dyn Fn(&str) -> bool,
) -> (Vec<String>, bool) {
    let mut announced = Vec::new();
    let mut poll = Poll::start(&config(repos));
    loop {
        let event = match poll.action(state) {
            Action::Fetch(repo) => answer(&repo),
            Action::Mail(repo) => {
                announced.push(format!("{repo} {}", poll.release().unwrap().tag_name));
                Event::Mailed(sent(&repo))
            }
            Action::Save(_) => Event::Saved,
            Action::Finish { rate_limited } => return (announced, rate_limited),
        };
        poll = poll.step(event, state);
    }
}

#[test]
fn a_whole_poll_announces_exactly_what_is_news() {
    let repos = ["new/new", "same/same", "news/sent", "news/lost", "none/none", "bad/bad"];
    let answer = |repo: &str| match repo {
        "none/none" => Event::Fetched(Ok(None)),
        "bad/bad" => Event::Fetched(Err(GithubError::Request("x".to_string()))),
        _ => found("2"),
    };
    let sent = |repo: &str| repo != "news/lost";
    let mut state = StateStore::load("s", None);
    state.set("same/same", "2");
    state.set("news/sent", "1");
    state.set("news/lost", "1");
    let (announced, limited) = whole_poll(&repos, &mut state, &answer, &sent);
    assert_eq!(announced, vec!["news/sent 2", "news/lost 2"]);
    assert!(!limited);
    let seen: Vec<Option<&str>> = repos.iter().map(|r| state.last_seen(r)).collect();
    assert_eq!(seen, vec![Some("2"), Some("2"), Some("2"), Some("1"), None, None]);
    let (again, _) = whole_poll(&repos, &mut state, &answer, &sent);
    assert_eq!(again, vec!["news/lost 2"]);
}

#[test]
fn a_refusal_keeps_what_was_noted_until_then() {
    let repos = ["a/a", "b/b", "c/c"];
    let answer = |repo: &str| match repo {
        "b/b" => Event::Fetched(Err(GithubError::RateLimited {
            repo: repo.to_string(),
            body: String::new(),
        })),
        _ => found("2"),
    };
    let mut state = StateStore::load("s", None);
    state.set("c/c", "1");
    let (announced, limited) = whole_poll(&repos, &mut state, &answer, &|_| true);
    assert!(announced.is_empty() && limited);
    let seen: Vec<Option<&str>> = repos.iter().map(|r| state.last_seen(r)).collect();
    assert_eq!(seen, vec![Some("2"), None, Some("1")]);
}

#[test]
fn points_in_time_are_ordered_to_the_nanosecond() {
    let a = Timestamp { secs: -1, nanos: 999_999_999 };
    let b = Timestamp { secs: 0, nanos: 0 };
    assert!(b.is_after(&a) && !a.is_after(&b) && !a.is_after(&a));
    let c = Timestamp { secs: 60, nanos: 0 };
    assert!(!c.is_past(&b, 60));
    assert!(c.is_past(&a, 60));
    assert_eq!(a.until(&c), Wait { secs: 60, nanos: 1 });
}
