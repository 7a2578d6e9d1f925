//! The poll loop: what to do with each repository, and when to poll next.

use vstd::prelude::*;

use crate::config::Config;
use crate::github::{answer_view, Answer, GithubError, GithubFault, Release, ReleaseView};
use crate::schedule::{cron_next, next_occurrence};
use crate::state::{PendingSave, StateStore};
use crate::text::{copy_texts, opt_text, same_text, texts};
use crate::time::{utc_now, Timestamp, Wait, MAX_SECONDS};

verus! {

/// Where a poll stands.
pub enum Stage {
    /// The latest release of the current repository is asked for.
    Fetching,
    /// The given release of the current repository is being announced.
    Mailing(Release),
    /// The store is being saved, after a change for the current repository.
    Saving,
    /// Every repository has had its turn.
    Finished,
    /// GitHub refused a request; the remaining repositories are left out.
    RateLimited,
}

/// The stages of a poll, over texts.
#[verifier::ext_equal]
pub enum StageView {
    Fetching,
    Mailing(ReleaseView),
    Saving,
    Finished,
    RateLimited,
}

impl View for Stage {
    type V = StageView;

    open spec fn view(&self) -> StageView {
        match *self {
            Stage::Fetching => StageView::Fetching,
            Stage::Mailing(release) => StageView::Mailing(release@),
            Stage::Saving => StageView::Saving,
            Stage::Finished => StageView::Finished,
            Stage::RateLimited => StageView::RateLimited,
        }
    }
}

/// What a poll asks to be done.
pub enum Action {
    /// Ask GitHub for the latest release of a repository.
    Fetch(String),
    /// Announce the release of a repository.
    Mail(String),
    /// Save the store.
    Save(PendingSave),
    /// Nothing more in this poll.
    Finish { rate_limited: bool },
}

/// What came of an action.
pub enum Event {
    Fetched(Result<Option<Release>, GithubError>),
    /// Whether the announcement was sent.
    Mailed(bool),
    /// The store was saved, or could not be: a failed save is tried again with
    /// the next change.
    Saved,
}

/// The events of a poll, over texts.
#[verifier::ext_equal]
pub enum EventView {
    Fetched(Answer),
    Mailed(bool),
    Saved,
}

impl View for Event {
    type V = EventView;

    open spec fn view(&self) -> EventView {
        match *self {
            Event::Fetched(r) => EventView::Fetched(answer_view(r)),
            Event::Mailed(sent) => EventView::Mailed(sent),
            Event::Saved => EventView::Saved,
        }
    }
}

/// One poll of all repositories: the turn of each, in order.
pub struct Poll {
    repos: Vec<String>,
    at: usize,
    stage: Stage,
}

/// A poll, over texts.
#[verifier::ext_equal]
pub struct PollView {
    pub repos: Seq<Seq<char>>,
    pub at: int,
    pub stage: StageView,
}

impl View for Poll {
    type V = PollView;

    closed spec fn view(&self) -> PollView {
        PollView { repos: texts(self.repos@), at: self.at as int, stage: self.stage@ }
    }
}

impl PollView {
    /// Whether the poll has nothing more to do.
    pub open spec fn is_over(self) -> bool {
        self.stage is Finished || self.stage is RateLimited
    }

    /// The repository whose turn it is.
    pub open spec fn repo(self) -> Seq<char> {
        self.repos[self.at]
    }

    /// A poll within its list of repositories.
    pub open spec fn valid(self) -> bool {
        &&& 0 <= self.at <= self.repos.len()
        &&& !self.is_over() ==> self.at < self.repos.len()
        &&& self.stage is Finished ==> self.at == self.repos.len()
    }

    /// The turn of the repository at a position, or the end behind the last.
    pub open spec fn turn(repos: Seq<Seq<char>>, at: int) -> PollView {
        PollView {
            repos,
            at,
            stage: if at < repos.len() {
                StageView::Fetching
            } else {
                StageView::Finished
            },
        }
    }

    /// The next repository's turn.
    pub open spec fn advanced(self) -> PollView {
        PollView::turn(self.repos, self.at + 1)
    }

    pub open spec fn at_stage(self, stage: StageView) -> PollView {
        PollView { stage, ..self }
    }
}

/// What an event makes of a poll and of the tags seen. An event that answers
/// another action than the current one changes nothing.
pub open spec fn next(p: PollView, seen: Map<Seq<char>, Seq<char>>, event: EventView) -> (
    PollView,
    Map<Seq<char>, Seq<char>>,
) {
    match (p.stage, event) {
        (StageView::Fetching, EventView::Fetched(answer)) => match answer {
            Answer::Nothing => (p.advanced(), seen),
            Answer::Found(release) => if !seen.contains_key(p.repo()) {
                (p.at_stage(StageView::Saving), seen.insert(p.repo(), release.tag_name))
            } else if seen[p.repo()] == release.tag_name {
                (p.advanced(), seen)
            } else {
                (p.at_stage(StageView::Mailing(release)), seen)
            },
            Answer::Fault(GithubFault::RateLimited { .. }) => (
                p.at_stage(StageView::RateLimited),
                seen,
            ),
            Answer::Fault(_) => (p.advanced(), seen),
        },
        (StageView::Mailing(release), EventView::Mailed(sent)) => if sent {
            (p.at_stage(StageView::Saving), seen.insert(p.repo(), release.tag_name))
        } else {
            (p.advanced(), seen)
        },
        (StageView::Saving, EventView::Saved) => (p.advanced(), seen),
        _ => (p, seen),
    }
}

/// What a sequence of events makes of a poll and of the tags seen.
pub open spec fn run(
    p: PollView,
    seen: Map<Seq<char>, Seq<char>>,
    events: Seq<EventView>,
) -> (PollView, Map<Seq<char>, Seq<char>>)
    decreases events.len(),
{
    if events.len() == 0 {
        (p, seen)
    } else {
        let (q, s) = run(p, seen, events.drop_last());
        next(q, s, events.last())
    }
}

impl Poll {
    #[verifier::type_invariant]
    spec fn well_formed(self) -> bool {
        self@.valid()
    }

    /// A poll of the repositories of a configuration.
    pub fn start(cfg: &Config) -> (r: Poll)
        ensures
            r@ == PollView::turn(texts(cfg.repos@), 0),
    {
        let repos = copy_texts(&cfg.repos);
        assert(texts(repos@).len() == repos@.len());
        let stage = if repos.len() > 0 {
            Stage::Fetching
        } else {
            Stage::Finished
        };
        Poll { repos, at: 0, stage }
    }

    /// What is to be done now.
    pub fn action(&self, state: &StateStore) -> (r: Action)
        ensures
            match self@.stage {
                StageView::Fetching => r is Fetch && r->Fetch_0@ == self@.repo(),
                StageView::Mailing(_) => r is Mail && r->Mail_0@ == self@.repo(),
                StageView::Saving => r is Save && r->Save_0.is_save_of(*state),
                StageView::Finished => r == (Action::Finish { rate_limited: false }),
                StageView::RateLimited => r == (Action::Finish { rate_limited: true }),
            },
    {
        proof {
            use_type_invariant(self);
        }
        match &self.stage {
            Stage::Fetching => {
                assert(self@.repos[self.at as int] == self.repos@[self.at as int]@);
                Action::Fetch(self.repos[self.at].clone())
            },
            Stage::Mailing(_) => {
                assert(self@.repos[self.at as int] == self.repos@[self.at as int]@);
                Action::Mail(self.repos[self.at].clone())
            },
            Stage::Saving => Action::Save(state.save()),
            Stage::Finished => Action::Finish { rate_limited: false },
            Stage::RateLimited => Action::Finish { rate_limited: true },
        }
    }

    /// The release that is to be announced.
    pub fn release(&self) -> (r: Option<&Release>)
        ensures
            match r {
                Some(release) => self@.stage == StageView::Mailing(release@),
                None => !(self@.stage is Mailing),
            },
    {
        match &self.stage {
            Stage::Mailing(release) => Some(release),
            _ => None,
        }
    }

    /// Takes in what came of the current action.
    pub fn step(self, event: Event, state: &mut StateStore) -> (r: Poll)
        ensures
            (r@, final(state)@) == next(self@, old(state)@, event@),
            final(state).path() == old(state).path(),
    {
        proof {
            use_type_invariant(&self);
        }
        let ghost before = self@;
        let Poll { repos, at, stage } = self;
        match (stage, event) {
            (Stage::Fetching, Event::Fetched(answer)) => {
                assert(before.repo() == repos@[at as int]@);
                match answer {
                    Ok(None) => Poll::turn_after(repos, at),
                    Ok(Some(release)) => {
                        let known = match state.last_seen(repos[at].as_str()) {
                            Some(tag) => Some(same_text(tag, release.tag_name.as_str())),
                            None => None,
                        };
                        match known {
                            None => {
                                state.set(repos[at].as_str(), release.tag_name.as_str());
                                Poll { repos, at, stage: Stage::Saving }
                            },
                            Some(true) => Poll::turn_after(repos, at),
                            Some(false) => Poll { repos, at, stage: Stage::Mailing(release) },
                        }
                    },
                    Err(GithubError::RateLimited { .. }) => Poll {
                        repos,
                        at,
                        stage: Stage::RateLimited,
                    },
                    Err(_) => Poll::turn_after(repos, at),
                }
            },
            (Stage::Mailing(release), Event::Mailed(sent)) => {
                assert(before.repo() == repos@[at as int]@);
                if sent {
                    state.set(repos[at].as_str(), release.tag_name.as_str());
                    Poll { repos, at, stage: Stage::Saving }
                } else {
                    Poll::turn_after(repos, at)
                }
            },
            (Stage::Saving, Event::Saved) => Poll::turn_after(repos, at),
            (stage, _) => Poll { repos, at, stage },
        }
    }

    /// The turn of the repository behind a position, or the end behind the last.
    fn turn_after(repos: Vec<String>, at: usize) -> (r: Poll)
        requires
            at < repos@.len(),
        ensures
            r@ == PollView::turn(texts(repos@), at + 1),
    {
        let len: usize = repos.len();
        let stage = if at + 1 < len {
            Stage::Fetching
        } else {
            Stage::Finished
        };
        Poll { repos, at: at + 1, stage }
    }
}

/// The last tag seen of a repository.
#[derive(Clone, Debug)]
pub struct RepoStatus {
    pub repo: String,
    pub last_seen: Option<String>,
}

/// What is known after a poll.
#[derive(Clone, Debug)]
pub struct StatusSnapshot {
    pub repos: Vec<RepoStatus>,
    pub last_poll_finished_at: Option<Timestamp>,
    pub next_poll_at: Option<Timestamp>,
}

impl StatusSnapshot {
    /// What is known before the first poll.
    pub fn before_first_poll() -> (r: StatusSnapshot)
        ensures
            r.repos@ == Seq::<RepoStatus>::empty(),
            r.last_poll_finished_at is None,
            r.next_poll_at is None,
    {
        StatusSnapshot { repos: Vec::new(), last_poll_finished_at: None, next_poll_at: None }
    }

    /// The repositories of a configuration, in order, each with its last tag.
    pub open spec fn lists(self, cfg: Config, seen: Map<Seq<char>, Seq<char>>) -> bool {
        &&& self.repos@.len() == cfg.repos@.len()
        &&& forall|i: int|
            0 <= i < cfg.repos@.len() ==> {
                &&& (#[trigger] self.repos@[i]).repo@ == cfg.repos@[i]@
                &&& opt_text(self.repos@[i].last_seen) == seen_tag(seen, cfg.repos@[i]@)
            }
    }
}

/// The last tag seen of a repository, where there is one.
pub open spec fn seen_tag(seen: Map<Seq<char>, Seq<char>>, repo: Seq<char>) -> Option<Seq<char>> {
    if seen.contains_key(repo) {
        Some(seen[repo])
    } else {
        None
    }
}

/// When to poll next: at the next occurrence of the schedule, where there is a
/// schedule, or else one interval from now. Nothing where the schedule has no
/// further occurrence, or where that point lies beyond the calendar's range.
pub open spec fn next_poll(cfg: Config, now: Timestamp) -> Option<Timestamp> {
    match cfg.cron_schedule {
        Some(schedule) => if now.secs < MAX_SECONDS {
            match cron_next(schedule@, now.secs as int) {
                Some(t) => Some(Timestamp { secs: t as i64, nanos: 0 }),
                None => None,
            }
        } else {
            None
        },
        None => if now.secs + cfg.poll_interval_seconds <= MAX_SECONDS {
            Some(
                Timestamp {
                    secs: (now.secs + cfg.poll_interval_seconds) as i64,
                    nanos: now.nanos,
                },
            )
        } else {
            None
        },
    }
}

/// When to poll next.
pub fn next_poll_at(cfg: &Config, now: &Timestamp) -> (r: Option<Timestamp>)
    requires
        now.valid(),
    ensures
        r == next_poll(*cfg, *now),
        r matches Some(t) ==> t.valid(),
        cfg.cron_schedule matches Some(schedule) ==> now.secs < MAX_SECONDS ==> match cron_next(
            schedule.source@,
            now.secs as int,
        ) {
            Some(t) => r is Some && r->0.secs == t && r->0.nanos == 0,
            None => r is None,
        },
        cfg.cron_schedule is None ==> (r is Some <==> now.secs + cfg.poll_interval_seconds
            <= MAX_SECONDS),
        cfg.cron_schedule is Some && r is Some ==> r->0@ > now@,
        cfg.cron_schedule is None && r is Some ==> r->0@ == now@ + cfg.poll_interval_seconds
            * 1_000_000_000,
{
    match &cfg.cron_schedule {
        Some(schedule) => if now.secs < MAX_SECONDS {
            match next_occurrence(schedule.source.as_str(), now.secs) {
                Some(secs) => Some(Timestamp { secs, nanos: 0 }),
                None => None,
            }
        } else {
            None
        },
        None => {
            let left: u64 = (MAX_SECONDS - now.secs) as u64;
            if cfg.poll_interval_seconds <= left {
                Some(now.plus_seconds(cfg.poll_interval_seconds as i64))
            } else {
                None
            }
        },
    }
}

/// How long to wait: until the next poll, not at all where its time has gone
/// by, and one interval where there is no point in time for it.
pub open spec fn wait_length(cfg: Config, now: Timestamp, next: Option<Timestamp>) -> int {
    match next {
        Some(t) => if t@ > now@ {
            t@ - now@
        } else {
            0
        },
        None => cfg.poll_interval_seconds * 1_000_000_000,
    }
}

/// How long to wait for the next poll.
pub fn wait_for(cfg: &Config, now: &Timestamp, next: &Option<Timestamp>) -> (r: Wait)
    requires
        now.valid(),
        next matches Some(t) ==> t.valid(),
    ensures
        r@ == wait_length(*cfg, *now, *next),
        r.nanos < 1_000_000_000,
{
    match next {
        Some(t) => now.until(t),
        None => Wait { secs: cfg.poll_interval_seconds, nanos: 0 },
    }
}

/// The end of a poll: what is known then, and how long to wait.
pub struct TickReport {
    pub snapshot: StatusSnapshot,
    pub wait: Wait,
}

impl TickReport {
    /// The report on a poll that ended at a point in time.
    pub open spec fn is_report(
        self,
        cfg: Config,
        seen: Map<Seq<char>, Seq<char>>,
        now: Timestamp,
    ) -> bool {
        &&& self.snapshot.lists(cfg, seen)
        &&& self.snapshot.last_poll_finished_at == Some(now)
        &&& self.snapshot.next_poll_at == next_poll(cfg, now)
        &&& self.wait@ == wait_length(cfg, now, next_poll(cfg, now))
        &&& self.wait.nanos < 1_000_000_000
    }
}

/// Ends a poll at a given point in time.
pub fn finish_tick_at(cfg: &Config, state: &StateStore, now: &Timestamp) -> (r: TickReport)
    requires
        now.valid(),
    ensures
        r.is_report(*cfg, state@, *now),
{
    let next = next_poll_at(cfg, now);
    let mut repos: Vec<RepoStatus> = Vec::new();
    let mut i: usize = 0;
    while i < cfg.repos.len()
        invariant
            i <= cfg.repos@.len(),
            repos@.len() == i,
            forall|j: int|
                0 <= j < i ==> {
                    &&& (#[trigger] repos@[j]).repo@ == cfg.repos@[j]@
                    &&& opt_text(repos@[j].last_seen) == seen_tag(state@, cfg.repos@[j]@)
                },
        decreases cfg.repos@.len() - i,
    {
        let last_seen = match state.last_seen(cfg.repos[i].as_str()) {
            Some(tag) => Some(tag.to_string()),
            None => None,
        };
        repos.push(RepoStatus { repo: cfg.repos[i].clone(), last_seen });
        i = i + 1;
    }
    let wait = wait_for(cfg, now, &next);
    TickReport {
        snapshot: StatusSnapshot {
            repos,
            last_poll_finished_at: Some(*now),
            next_poll_at: next,
        },
        wait,
    }
}

/// Ends a poll now, by the system clock.
pub fn finish_tick(cfg: &Config, state: &StateStore) -> (r: TickReport)
    ensures
        exists|now: Timestamp| now.valid() && #[trigger] r.is_report(*cfg, state@, now),
{
    let now = utc_now();
    let report = finish_tick_at(cfg, state, &now);
    assert(report.is_report(*cfg, state@, now));
    report
}

/// What ended a wait.
#[derive(Clone, Copy, Debug, PartialEq, Eq, Structural)]
pub enum Wake {
    Elapsed,
    ConfigChanged,
    Shutdown,
}

/// What the poll loop is doing.
#[derive(Clone, Copy, Debug, PartialEq, Eq, Structural)]
pub enum Phase {
    /// A poll is under way.
    Polling,
    /// The next poll is being waited for.
    Waiting,
    /// The loop is over.
    Stopped,
}

/// What happens to the poll loop.
#[derive(Clone, Copy, Debug, PartialEq, Eq, Structural)]
pub enum LoopEvent {
    /// A poll is over.
    Polled,
    /// A wait is over.
    Woke(Wake),
}

/// What an event makes of the poll loop: a poll that is over is followed by a
/// wait, and a wait by another poll, unless a shutdown ended it. What belongs to
/// another phase changes nothing.
pub open spec fn phase_after(phase: Phase, event: LoopEvent) -> Phase {
    match (phase, event) {
        (Phase::Polling, LoopEvent::Polled) => Phase::Waiting,
        (Phase::Waiting, LoopEvent::Woke(Wake::Shutdown)) => Phase::Stopped,
        (Phase::Waiting, LoopEvent::Woke(_)) => Phase::Polling,
        _ => phase,
    }
}

impl Phase {
    /// The phase that the loop starts in: the first poll comes at once.
    pub fn start() -> (r: Phase)
        ensures
            r == Phase::Polling,
    {
        Phase::Polling
    }

    /// The phase after an event.
    pub fn after(self, event: LoopEvent) -> (r: Phase)
        ensures
            r == phase_after(self, event),
    {
        match (self, event) {
            (Phase::Polling, LoopEvent::Polled) => Phase::Waiting,
            (Phase::Waiting, LoopEvent::Woke(Wake::Shutdown)) => Phase::Stopped,
            (Phase::Waiting, LoopEvent::Woke(_)) => Phase::Polling,
            _ => self,
        }
    }
}

} // verus!
