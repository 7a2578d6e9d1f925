//! What holds of the daemon as a whole.

use vstd::prelude::*;

use axum::http::HeaderMap;

use crate::config::{AuthMode, Config, Env};
use crate::github::{answer_of, Answer, GithubFault, GithubReply, ReleaseView};
use crate::ip::is_ip;
use crate::patterns::{email_form, first_without, is_email, is_repo, repo_form};
use crate::scheduler::{
    next, next_poll, phase_after, run, seen_tag, EventView, LoopEvent, Phase, PollView, StageView,
    Wake,
};
use crate::text::{is_space, split_on, stripped, texts, trim_end, trim_start};
use crate::time::Timestamp;
use crate::ui::auth::{
    create_outcome, created, decision, first_session, hex_char, hex_of, is_authorized, is_live,
    is_public, looked_up, noted, session_has_end, AuthDecision,
};
use crate::ui::handlers::report_of;
use crate::ui::headers::header;

verus! {

/// A release is being announced only where another tag was seen of its
/// repository before.
pub open spec fn announces_news(p: PollView, seen: Map<Seq<char>, Seq<char>>) -> bool {
    p.stage matches StageView::Mailing(release) ==> seen.contains_key(p.repo()) && seen[p.repo()]
        != release.tag_name
}

/// Whatever happens during a poll, it stays within its list of repositories, in
/// its order, and announces a release only where another tag was seen of its
/// repository before.
pub proof fn polls_announce_only_news(
    repos: Seq<Seq<char>>,
    seen: Map<Seq<char>, Seq<char>>,
    events: Seq<EventView>,
)
    ensures
        run(PollView::turn(repos, 0), seen, events).0.valid(),
        run(PollView::turn(repos, 0), seen, events).0.repos == repos,
        announces_news(
            run(PollView::turn(repos, 0), seen, events).0,
            run(PollView::turn(repos, 0), seen, events).1,
        ),
    decreases events.len(),
{
    if events.len() > 0 {
        polls_announce_only_news(repos, seen, events.drop_last());
    }
}

/// The first release seen of a repository is noted without an announcement.
pub proof fn first_run_is_silent(
    p: PollView,
    seen: Map<Seq<char>, Seq<char>>,
    release: ReleaseView,
)
    requires
        p.valid(),
        p.stage is Fetching,
        !seen.contains_key(p.repo()),
    ensures
        next(p, seen, EventView::Fetched(Answer::Found(release))) == (
            p.at_stage(StageView::Saving),
            seen.insert(p.repo(), release.tag_name),
        ),
        next(
            next(p, seen, EventView::Fetched(Answer::Found(release))).0,
            next(p, seen, EventView::Fetched(Answer::Found(release))).1,
            EventView::Saved,
        ) == (p.advanced(), seen.insert(p.repo(), release.tag_name)),
{
}

/// The tags seen change in two ways only: the first release of a repository is
/// noted, or one whose announcement was sent. Either way the tag of that
/// repository alone changes.
pub proof fn tags_change_only_with_cause(
    p: PollView,
    seen: Map<Seq<char>, Seq<char>>,
    event: EventView,
)
    ensures
        ({
            let after = next(p, seen, event).1;
            ||| after == seen
            ||| {
                &&& p.stage is Fetching
                &&& !seen.contains_key(p.repo())
                &&& event matches EventView::Fetched(Answer::Found(release))
                &&& after == seen.insert(p.repo(), release.tag_name)
            }
            ||| {
                &&& event == EventView::Mailed(true)
                &&& p.stage matches StageView::Mailing(release)
                &&& after == seen.insert(p.repo(), release.tag_name)
            }
        }),
        forall|repo: Seq<char>|
            repo != p.repo() ==> {
                &&& next(p, seen, event).1.contains_key(repo) == seen.contains_key(repo)
                &&& seen.contains_key(repo) ==> #[trigger] next(p, seen, event).1[repo]
                    == seen[repo]
            },
{
}

/// An announcement that could not be sent leaves the tags seen as they are, and
/// any later poll that finds the same release announces it again.
pub proof fn failed_announcement_is_retried(
    p: PollView,
    seen: Map<Seq<char>, Seq<char>>,
    later: PollView,
    release: ReleaseView,
)
    requires
        p.stage == StageView::Mailing(release),
        announces_news(p, seen),
        later.stage is Fetching,
        later.repo() == p.repo(),
    ensures
        next(p, seen, EventView::Mailed(false)) == (p.advanced(), seen),
        next(later, seen, EventView::Fetched(Answer::Found(release))) == (
            later.at_stage(StageView::Mailing(release)),
            seen,
        ),
{
}

/// A release whose announcement was sent is not announced again: a poll that
/// finds a release with its tag goes on to the next repository.
pub proof fn sent_announcement_is_not_repeated(
    p: PollView,
    seen: Map<Seq<char>, Seq<char>>,
    release: ReleaseView,
    later: PollView,
    seen_later: Map<Seq<char>, Seq<char>>,
    found: ReleaseView,
)
    requires
        p.stage == StageView::Mailing(release),
        later.stage is Fetching,
        later.repo() == p.repo(),
        seen_later.contains_key(p.repo()),
        seen_later[p.repo()] == next(p, seen, EventView::Mailed(true)).1[p.repo()],
        found.tag_name == release.tag_name,
    ensures
        next(later, seen_later, EventView::Fetched(Answer::Found(found))) == (
            later.advanced(),
            seen_later,
        ),
{
}

/// A refusal for too many requests ends the poll: the tags seen stay as they
/// are, and nothing that comes in later changes anything.
pub proof fn rate_limit_ends_poll(
    p: PollView,
    seen: Map<Seq<char>, Seq<char>>,
    repo: Seq<char>,
    body: Seq<char>,
    events: Seq<EventView>,
)
    requires
        p.stage is Fetching,
    ensures
        ({
            let refused = EventView::Fetched(
                Answer::Fault(GithubFault::RateLimited { repo, body }),
            );
            let (q, s) = next(p, seen, refused);
            &&& s == seen
            &&& q == p.at_stage(StageView::RateLimited)
            &&& q.is_over()
            &&& run(q, s, events) == (q, s)
        }),
    decreases events.len(),
{
    if events.len() > 0 {
        rate_limit_ends_poll(p, seen, repo, body, events.drop_last());
    }
}

/// No release, or any other failure to learn of one, costs a repository its
/// turn and nothing more.
pub proof fn other_failures_skip_one_repository(
    p: PollView,
    seen: Map<Seq<char>, Seq<char>>,
    answer: Answer,
)
    requires
        p.stage is Fetching,
        !(answer is Found),
        !(answer matches Answer::Fault(GithubFault::RateLimited { .. })),
    ensures
        next(p, seen, EventView::Fetched(answer)) == (p.advanced(), seen),
{
}

/// How much of a poll is left: at most three steps for each repository.
pub open spec fn steps_left(p: PollView) -> int {
    match p.stage {
        StageView::Fetching => 3 * (p.repos.len() - p.at),
        StageView::Mailing(_) => 3 * (p.repos.len() - p.at) - 1,
        StageView::Saving => 3 * (p.repos.len() - p.at) - 2,
        StageView::Finished => 0,
        StageView::RateLimited => 0,
    }
}

/// Whether an event answers what a poll asks for.
pub open spec fn is_answer(p: PollView, event: EventView) -> bool {
    match p.stage {
        StageView::Fetching => event is Fetched,
        StageView::Mailing(_) => event is Mailed,
        StageView::Saving => event is Saved,
        StageView::Finished => false,
        StageView::RateLimited => false,
    }
}

/// Every answer brings a poll nearer to its end, and moves on by one repository
/// at most; anything else leaves it as it is.
pub proof fn polls_come_to_an_end(
    p: PollView,
    seen: Map<Seq<char>, Seq<char>>,
    event: EventView,
)
    requires
        p.valid(),
    ensures
        next(p, seen, event).0.valid(),
        is_answer(p, event) ==> 0 <= steps_left(next(p, seen, event).0) < steps_left(p),
        is_answer(p, event) ==> p.at <= next(p, seen, event).0.at <= p.at + 1,
        !is_answer(p, event) ==> next(p, seen, event) == (p, seen),
{
}

/// An answer that ends a poll.
pub open spec fn is_limit(answer: Answer) -> bool {
    answer matches Answer::Fault(GithubFault::RateLimited { .. })
}

/// Whether a release is news: another tag was seen of its repository.
pub open spec fn is_news(
    seen: Map<Seq<char>, Seq<char>>,
    repo: Seq<char>,
    release: ReleaseView,
) -> bool {
    seen.contains_key(repo) && seen[repo] != release.tag_name
}

/// What happens in the turn of a repository: what GitHub answers, whether an
/// announcement is sent, and the saves that follow from it.
pub open spec fn turn_events(
    seen: Map<Seq<char>, Seq<char>>,
    repo: Seq<char>,
    answer: Answer,
    sent: bool,
) -> Seq<EventView> {
    match answer {
        Answer::Found(release) => if !seen.contains_key(repo) {
            seq![EventView::Fetched(answer), EventView::Saved]
        } else if !is_news(seen, repo, release) {
            seq![EventView::Fetched(answer)]
        } else if sent {
            seq![EventView::Fetched(answer), EventView::Mailed(true), EventView::Saved]
        } else {
            seq![EventView::Fetched(answer), EventView::Mailed(false)]
        },
        _ => seq![EventView::Fetched(answer)],
    }
}

/// The tags seen after the turn of a repository: its release is noted where it is
/// the first one, or where it is news and its announcement was sent.
pub open spec fn tags_after_turn(
    seen: Map<Seq<char>, Seq<char>>,
    repo: Seq<char>,
    answer: Answer,
    sent: bool,
) -> Map<Seq<char>, Seq<char>> {
    match answer {
        Answer::Found(release) => if !seen.contains_key(repo) || (is_news(seen, repo, release)
            && sent) {
            seen.insert(repo, release.tag_name)
        } else {
            seen
        },
        _ => seen,
    }
}

/// The tags seen after the turns of the first `n` repositories. Each has an
/// answer, and whether an announcement is sent where one is due.
pub open spec fn tags_after(
    repos: Seq<Seq<char>>,
    seen: Map<Seq<char>, Seq<char>>,
    answers: Seq<Answer>,
    sent: Seq<bool>,
    n: nat,
) -> Map<Seq<char>, Seq<char>>
    decreases n,
{
    if n == 0 {
        seen
    } else {
        tags_after_turn(
            tags_after(repos, seen, answers, sent, (n - 1) as nat),
            repos[n - 1],
            answers[n - 1],
            sent[n - 1],
        )
    }
}

/// What happens in the turns of the first `n` repositories.
pub open spec fn tick_events(
    repos: Seq<Seq<char>>,
    seen: Map<Seq<char>, Seq<char>>,
    answers: Seq<Answer>,
    sent: Seq<bool>,
    n: nat,
) -> Seq<EventView>
    decreases n,
{
    if n == 0 {
        Seq::empty()
    } else {
        tick_events(repos, seen, answers, sent, (n - 1) as nat) + turn_events(
            tags_after(repos, seen, answers, sent, (n - 1) as nat),
            repos[n - 1],
            answers[n - 1],
            sent[n - 1],
        )
    }
}

/// Events one after the other make of a poll what they make of it together.
proof fn run_in_parts(
    p: PollView,
    seen: Map<Seq<char>, Seq<char>>,
    first: Seq<EventView>,
    rest: Seq<EventView>,
)
    ensures
        run(p, seen, first + rest) == run(
            run(p, seen, first).0,
            run(p, seen, first).1,
            rest,
        ),
    decreases rest.len(),
{
    if rest.len() == 0 {
        assert(first + rest =~= first);
    } else {
        run_in_parts(p, seen, first, rest.drop_last());
        assert((first + rest).drop_last() =~= first + rest.drop_last());
        assert((first + rest).last() == rest.last());
    }
}

/// One event makes of a poll what it makes of it at once.
proof fn run_one(p: PollView, seen: Map<Seq<char>, Seq<char>>, event: EventView)
    ensures
        run(p, seen, seq![event]) == next(p, seen, event),
{
    assert(seq![event].drop_last() =~= Seq::<EventView>::empty());
    assert(run(p, seen, Seq::<EventView>::empty()) == (p, seen));
}

/// The turn of a repository ends with the turn of the next one.
proof fn turns_end(
    repos: Seq<Seq<char>>,
    at: int,
    seen: Map<Seq<char>, Seq<char>>,
    answer: Answer,
    sent: bool,
)
    requires
        0 <= at < repos.len(),
        !is_limit(answer),
    ensures
        run(PollView::turn(repos, at), seen, turn_events(seen, repos[at], answer, sent)) == (
            PollView::turn(repos, at + 1),
            tags_after_turn(seen, repos[at], answer, sent),
        ),
{
    let p = PollView::turn(repos, at);
    let events = turn_events(seen, repos[at], answer, sent);
    reveal_with_fuel(run, 4);
    assert(events.len() >= 1 && events[0] == EventView::Fetched(answer));
    if events.len() == 1 {
        assert(events.drop_last() =~= Seq::<EventView>::empty());
    } else if events.len() == 2 {
        assert(events.drop_last().drop_last() =~= Seq::<EventView>::empty());
        assert(events.drop_last().last() == events[0]);
    } else {
        assert(events.drop_last().drop_last().drop_last() =~= Seq::<EventView>::empty());
        assert(events.drop_last().drop_last().last() == events[0]);
        assert(events.drop_last().last() == events[1]);
    }
}

/// A whole poll. As long as no request is refused for too many of them, each
/// repository has its turn, in order, and the tags seen change turn by turn; once
/// all have had theirs, the poll is finished. In its turn a release is announced
/// exactly if it is news. A refusal ends the poll then and there, whatever comes
/// in later, and what was noted until then stays noted.
pub proof fn polls_take_turns(
    repos: Seq<Seq<char>>,
    seen: Map<Seq<char>, Seq<char>>,
    answers: Seq<Answer>,
    sent: Seq<bool>,
    n: nat,
    later: Seq<EventView>,
)
    requires
        n <= repos.len(),
        answers.len() == repos.len(),
        sent.len() == repos.len(),
        forall|i: int| 0 <= i < n ==> !is_limit(#[trigger] answers[i]),
    ensures
        ({
            let start = PollView::turn(repos, 0);
            let events = tick_events(repos, seen, answers, sent, n);
            let tags = tags_after(repos, seen, answers, sent, n);
            let end = run(start, seen, events);
            &&& end == (PollView::turn(repos, n as int), tags)
            &&& n == repos.len() ==> end.0.stage is Finished
            &&& n < repos.len() ==> {
                let asked = run(start, seen, events + seq![EventView::Fetched(answers[n as int])]);
                &&& asked.0.stage is Mailing <==> answers[n as int] is Found && is_news(
                    tags,
                    repos[n as int],
                    answers[n as int]->Found_0,
                )
                &&& asked.0.stage is Mailing ==> asked.0.stage == StageView::Mailing(
                    answers[n as int]->Found_0,
                )
            }
            &&& n < repos.len() && is_limit(answers[n as int]) ==> run(
                start,
                seen,
                events + seq![EventView::Fetched(answers[n as int])] + later,
            ) == (end.0.at_stage(StageView::RateLimited), tags)
        }),
    decreases n,
{
    let start = PollView::turn(repos, 0);
    let events = tick_events(repos, seen, answers, sent, n);
    let tags = tags_after(repos, seen, answers, sent, n);
    if n > 0 {
        let m = (n - 1) as nat;
        let tags_before = tags_after(repos, seen, answers, sent, m);
        let turn = turn_events(tags_before, repos[m as int], answers[m as int], sent[m as int]);
        polls_take_turns(repos, seen, answers, sent, m, later);
        run_in_parts(start, seen, tick_events(repos, seen, answers, sent, m), turn);
        turns_end(repos, m as int, tags_before, answers[m as int], sent[m as int]);
    }
    if n < repos.len() {
        let p = PollView::turn(repos, n as int);
        let asked = seq![EventView::Fetched(answers[n as int])];
        run_in_parts(start, seen, events, asked);
        run_one(p, tags, EventView::Fetched(answers[n as int]));
        if is_limit(answers[n as int]) {
            let fault = answers[n as int]->Fault_0;
            let repo = fault->RateLimited_repo;
            let body = fault->RateLimited_body;
            run_in_parts(start, seen, events + asked, later);
            rate_limit_ends_poll(p, tags, repo, body, later);
        }
    }
}

/// Each repository is independent of the others: what is noted of one after a
/// poll, and whether its release is news in its turn, depends on what was seen of
/// it before and on its own answer, not on the other repositories.
pub proof fn repositories_are_independent(
    repos: Seq<Seq<char>>,
    seen: Map<Seq<char>, Seq<char>>,
    answers: Seq<Answer>,
    sent: Seq<bool>,
    n: nat,
    i: int,
    release: ReleaseView,
)
    requires
        n <= repos.len(),
        answers.len() == repos.len(),
        sent.len() == repos.len(),
        0 <= i < repos.len(),
        forall|j: int| 0 <= j < repos.len() && j != i ==> #[trigger] repos[j] != repos[i],
    ensures
        ({
            let tags = tags_after(repos, seen, answers, sent, n);
            let alone = tags_after_turn(seen, repos[i], answers[i], sent[i]);
            &&& i < n ==> seen_tag(tags, repos[i]) == seen_tag(alone, repos[i])
            &&& n <= i ==> seen_tag(tags, repos[i]) == seen_tag(seen, repos[i])
            &&& n <= i ==> is_news(tags, repos[i], release) == is_news(seen, repos[i], release)
        }),
    decreases n,
{
    if n > 0 {
        let m = (n - 1) as nat;
        repositories_are_independent(repos, seen, answers, sent, m, i, release);
        if m != i {
            assert(repos[m as int] != repos[i]);
        }
    }
}

/// What the poll loop is doing after a number of events.
pub open spec fn phase_of(events: Seq<LoopEvent>) -> Phase
    decreases events.len(),
{
    if events.len() == 0 {
        Phase::Polling
    } else {
        phase_after(phase_of(events.drop_last()), events.last())
    }
}

/// A shutdown that ends a wait.
pub open spec fn shuts_down(events: Seq<LoopEvent>, i: int) -> bool {
    &&& 0 <= i < events.len()
    &&& events[i] == LoopEvent::Woke(Wake::Shutdown)
    &&& phase_of(events.take(i)) == Phase::Waiting
}

/// The poll loop ends exactly with the first shutdown that comes while it waits.
/// Nothing else ends it: not what a poll came to, and no shutdown that comes
/// during a poll.
pub proof fn only_a_shutdown_ends_the_loop(events: Seq<LoopEvent>)
    ensures
        phase_of(events) == Phase::Stopped <==> exists|i: int| #[trigger] shuts_down(events, i),
    decreases events.len(),
{
    if events.len() > 0 {
        let init = events.drop_last();
        let n = events.len() - 1;
        only_a_shutdown_ends_the_loop(init);
        assert(events.take(n) =~= init);
        assert forall|i: int| 0 <= i < n implies #[trigger] shuts_down(events, i) == shuts_down(
            init,
            i,
        ) by {
            assert(events.take(i) =~= init.take(i));
        }
        if phase_of(init) == Phase::Stopped {
            let i = choose|i: int| shuts_down(init, i);
            assert(shuts_down(events, i));
        } else if phase_of(events) == Phase::Stopped {
            assert(shuts_down(events, n));
        } else {
            assert forall|i: int| !#[trigger] shuts_down(events, i) by {
                if shuts_down(events, i) && i < n {
                    assert(shuts_down(init, i));
                }
            }
        }
    } else {
        assert forall|i: int| !#[trigger] shuts_down(events, i) by {}
    }
}

/// One full poll comes before the first wait, and so before the loop can end.
pub proof fn a_poll_comes_first(events: Seq<LoopEvent>)
    requires
        phase_of(events) != Phase::Polling,
    ensures
        exists|i: int|
            0 <= i < events.len() && #[trigger] events[i] == LoopEvent::Polled && phase_of(
                events.take(i),
            ) == Phase::Polling,
    decreases events.len(),
{
    let init = events.drop_last();
    let n = events.len() - 1;
    assert(events.take(n) =~= init);
    if phase_of(init) != Phase::Polling {
        a_poll_comes_first(init);
        let i = choose|i: int|
            0 <= i < init.len() && #[trigger] init[i] == LoopEvent::Polled && phase_of(
                init.take(i),
            ) == Phase::Polling;
        assert(events[i] == init[i]);
        assert(events.take(i) =~= init.take(i));
    } else {
        assert(events[n] == LoopEvent::Polled);
    }
}

/// A schedule takes precedence over the interval: where there is one, the
/// interval has no part in when to poll next.
pub proof fn schedule_takes_precedence(cfg: Config, other: Config, now: Timestamp)
    requires
        cfg.cron_schedule is Some,
        other.cron_schedule == cfg.cron_schedule,
    ensures
        next_poll(cfg, now) == next_poll(other, now),
{
}

proof fn all_have_form(v: Seq<Seq<char>>, form: spec_fn(Seq<char>) -> bool)
    requires
        first_without(v, form) is None,
    ensures
        forall|i: int| 0 <= i < v.len() ==> form(#[trigger] v[i]),
    decreases v.len(),
{
    if v.len() > 0 {
        all_have_form(v.drop_first(), form);
        assert forall|i: int| 0 <= i < v.len() implies form(#[trigger] v[i]) by {
            if i > 0 {
                assert(v[i] == v.drop_first()[i - 1]);
            }
        }
    }
}

/// A configuration without fault meets every rule.
pub proof fn valid_configuration_meets_every_rule(cfg: Config, env: Env)
    requires
        cfg.fault(env) is None,
    ensures
        cfg.poll_interval_seconds >= 60,
        cfg.repos@.len() > 0,
        forall|i: int| 0 <= i < cfg.repos@.len() ==> is_repo((#[trigger] cfg.repos@[i])@),
        cfg.recipients@.len() > 0,
        forall|i: int|
            0 <= i < cfg.recipients@.len() ==> is_email((#[trigger] cfg.recipients@[i])@),
        is_email(cfg.sender@),
        cfg.smtp.host@.len() > 0,
        cfg.smtp.port > 0,
        cfg.smtp.username@.len() > 0 ==> cfg.resolved_password(env).len() > 0,
        cfg.ui.port > 0,
        is_ip(cfg.ui.bind_addr@),
{
    all_have_form(texts(cfg.repos@), repo_form());
    all_have_form(texts(cfg.recipients@), email_form());
    assert forall|i: int| 0 <= i < cfg.repos@.len() implies is_repo((#[trigger] cfg.repos@[i])@) by {
        assert(repo_form()(texts(cfg.repos@)[i]));
    }
    assert forall|i: int| 0 <= i < cfg.recipients@.len() implies is_email(
        (#[trigger] cfg.recipients@[i])@,
    ) by {
        assert(email_form()(texts(cfg.recipients@)[i]));
    }
}

/// A configuration without fault asks for one kind of credentials at most: there
/// is a token, or a proxy is trusted, or the web interface is open.
pub proof fn auth_modes_exclude_each_other(cfg: Config, env: Env)
    requires
        cfg.fault(env) is None,
    ensures
        !(cfg.resolved_admin_token(env).len() > 0 && cfg.ui.trust_proxy_auth),
        cfg.auth_mode(env) == AuthMode::Token <==> cfg.resolved_admin_token(env).len() > 0,
        cfg.auth_mode(env) == AuthMode::Proxy <==> cfg.ui.trust_proxy_auth,
{
}

/// What validation makes of a configuration is valid again.
pub proof fn validation_is_stable(before: Config, after: Config, env: Env)
    requires
        before.fault(env) is None,
        after.validated_from(before),
    ensures
        after.fault(env) is None,
        after.cron_expression is Some ==> after.validated_from(after),
{
}

/// Another state path makes no configuration invalid.
pub proof fn state_path_is_not_judged(cfg: Config, other: Config, env: Env)
    requires
        other == (Config { state_path: other.state_path, ..cfg }),
    ensures
        other.fault(env) == cfg.fault(env),
{
}

/// Only an answer with a status of success tells of a release; a repository
/// without releases is no error.
pub proof fn releases_come_with_success(repo: Seq<char>, reply: GithubReply)
    ensures
        answer_of(repo, Ok::<GithubReply, String>(reply)) is Found ==> 200 <= reply.status <= 299,
        reply.status == 404 ==> answer_of(repo, Ok::<GithubReply, String>(reply)) is Nothing,
        answer_of(repo, Ok::<GithubReply, String>(reply)) matches Answer::Fault(
            GithubFault::RateLimited { .. },
        ) <==> reply.status == 403,
{
}

/// Every request to a path that is not public needs authorization.
pub proof fn only_public_paths_pass_unauthorized(
    path: Seq<char>,
    is_get: bool,
    headers: HeaderMap,
    cfg: Config,
    env: Env,
    sessions: Map<Seq<char>, Timestamp>,
    now: Timestamp,
)
    requires
        !is_authorized(headers, cfg, env, sessions, now),
    ensures
        decision(path, is_get, headers, cfg, env, sessions, now) == AuthDecision::Pass
            <==> is_public(path),
        !is_public(path) ==> decision(path, is_get, headers, cfg, env, sessions, now)
            == AuthDecision::Unauthorized,
{
}

/// Without a token and without a trusted proxy, every request is authorized.
pub proof fn open_mode_authorizes_everything(
    headers: HeaderMap,
    cfg: Config,
    env: Env,
    sessions: Map<Seq<char>, Timestamp>,
    now: Timestamp,
)
    requires
        cfg.auth_mode(env) == AuthMode::Open,
    ensures
        is_authorized(headers, cfg, env, sessions, now),
{
}

/// A session is open from when it is made until its time is over, and from then
/// on it is not.
pub proof fn sessions_last_their_time(
    sessions: Map<Seq<char>, Timestamp>,
    id: Seq<char>,
    made: Timestamp,
    later: Timestamp,
)
    requires
        session_has_end(made),
        later.valid(),
    ensures
        is_live(created(sessions, id, made), id, later) <==> later@ < made@ + 12 * 3600
            * 1_000_000_000,
{
}

/// Making a session, or looking one up, ends no other that is still open.
pub proof fn sessions_do_not_disturb_each_other(
    sessions: Map<Seq<char>, Timestamp>,
    id: Seq<char>,
    other: Seq<char>,
    now: Timestamp,
)
    requires
        other != id,
        is_live(sessions, other, now),
    ensures
        created(sessions, id, now).contains_key(other),
        created(sessions, id, now)[other] == sessions[other],
        looked_up(sessions, id, now).contains_key(other),
        looked_up(sessions, id, now)[other] == sessions[other],
{
}

/// A session that has ended, or was never made, is not open.
pub proof fn ended_sessions_stay_closed(
    sessions: Map<Seq<char>, Timestamp>,
    id: Seq<char>,
    now: Timestamp,
)
    ensures
        !is_live(sessions.remove(id), id, now),
{
}

/// A call on the sessions, and when it is made.
pub enum SessionCall {
    /// A session is to be made, from random bytes where there are any.
    Create { entropy: Option<Seq<u8>>, at: Timestamp },
    Validate { id: Seq<char>, at: Timestamp },
    Destroy { id: Seq<char>, at: Timestamp },
}

impl SessionCall {
    pub open spec fn at(self) -> Timestamp {
        match self {
            SessionCall::Create { at, .. } => at,
            SessionCall::Validate { at, .. } => at,
            SessionCall::Destroy { at, .. } => at,
        }
    }

    /// Whether the call makes a session with the given name.
    pub open spec fn makes(self, id: Seq<char>) -> bool {
        self matches SessionCall::Create { entropy: Some(bytes), at } && hex_of(bytes) == id
            && session_has_end(at)
    }

    pub open spec fn ends(self, id: Seq<char>) -> bool {
        self matches SessionCall::Destroy { id: ended, .. } && ended == id
    }
}

/// The sessions after calls, of which there are none at first.
pub open spec fn sessions_after(calls: Seq<SessionCall>) -> Map<Seq<char>, Timestamp>
    decreases calls.len(),
{
    if calls.len() == 0 {
        Map::empty()
    } else {
        let sessions = sessions_after(calls.drop_last());
        match calls.last() {
            SessionCall::Create { entropy, at } => create_outcome(sessions, entropy, at).1,
            SessionCall::Validate { id, at } => looked_up(sessions, id, at),
            SessionCall::Destroy { id, .. } => sessions.remove(id),
        }
    }
}

/// When a session was made last, where it was not ended since.
pub open spec fn made_at(calls: Seq<SessionCall>, id: Seq<char>) -> Option<Timestamp>
    decreases calls.len(),
{
    if calls.len() == 0 {
        None
    } else if calls.last().makes(id) {
        Some(calls.last().at())
    } else if calls.last().ends(id) {
        None
    } else {
        made_at(calls.drop_last(), id)
    }
}

/// Calls one after the other, all of them before a point in time or at it.
pub open spec fn in_time_order(calls: Seq<SessionCall>, now: Timestamp) -> bool {
    &&& forall|i: int| 0 <= i < calls.len() ==> (#[trigger] calls[i]).at().valid()
    &&& forall|i: int, j: int|
        0 <= i <= j < calls.len() ==> (#[trigger] calls[i]).at()@ <= (#[trigger] calls[j]).at()@
    &&& forall|i: int| 0 <= i < calls.len() ==> (#[trigger] calls[i]).at()@ <= now@
}

/// What is kept of a session over any calls: when it ends, until that time has
/// come.
proof fn sessions_are_kept(calls: Seq<SessionCall>, id: Seq<char>, now: Timestamp)
    requires
        in_time_order(calls, now),
    ensures
        match made_at(calls, id) {
            None => !sessions_after(calls).contains_key(id),
            Some(made) => {
                &&& session_has_end(made)
                &&& sessions_after(calls).contains_key(id) ==> sessions_after(calls)[id]@ == made@
                    + 12 * 3600 * 1_000_000_000
                &&& !sessions_after(calls).contains_key(id) ==> made@ + 12 * 3600 * 1_000_000_000
                    <= now@
            },
        },
    decreases calls.len(),
{
    if calls.len() > 0 {
        let init = calls.drop_last();
        let call = calls.last();
        assert(call == calls[calls.len() - 1]);
        assert forall|i: int| 0 <= i < init.len() implies (#[trigger] init[i]).at().valid()
            && init[i].at()@ <= call.at()@ by {
            assert(init[i] == calls[i]);
        }
        assert forall|i: int, j: int| 0 <= i <= j < init.len() implies (#[trigger] init[i]).at()@
            <= (#[trigger] init[j]).at()@ by {
            assert(init[i] == calls[i] && init[j] == calls[j]);
        }
        sessions_are_kept(init, id, call.at());
    }
}

/// The life of a session, over any calls: it is open exactly if it was made less
/// than twelve hours ago and not ended since. Looking it up does not make it last
/// longer, and what becomes of other sessions does not matter to it.
pub proof fn sessions_live_for_their_time(calls: Seq<SessionCall>, id: Seq<char>, now: Timestamp)
    requires
        now.valid(),
        in_time_order(calls, now),
    ensures
        is_live(sessions_after(calls), id, now) <==> made_at(calls, id) is Some && now@ < made_at(
            calls,
            id,
        )->0@ + 12 * 3600 * 1_000_000_000,
{
    sessions_are_kept(calls, id, now);
}

/// A session was made last by a call that makes it, behind which no call ends it
/// or makes it again.
pub proof fn sessions_are_made_by_calls(calls: Seq<SessionCall>, id: Seq<char>, made: Timestamp)
    ensures
        made_at(calls, id) == Some(made) <==> exists|i: int|
            0 <= i < calls.len() && (#[trigger] calls[i]).makes(id) && calls[i].at() == made && (
            forall|j: int|
                i < j < calls.len() ==> !(#[trigger] calls[j]).makes(id) && !calls[j].ends(id)),
    decreases calls.len(),
{
    if calls.len() > 0 {
        let init = calls.drop_last();
        let n = calls.len() - 1;
        let call = calls[n];
        assert(call == calls.last());
        sessions_are_made_by_calls(init, id, made);
        assert(forall|j: int| 0 <= j < n ==> init[j] == #[trigger] calls[j]);
        if made_at(calls, id) == Some(made) {
            if call.makes(id) {
                assert(calls[n].makes(id) && calls[n].at() == made);
            } else {
                let i = choose|i: int|
                    0 <= i < init.len() && (#[trigger] init[i]).makes(id) && init[i].at() == made
                        && (forall|j: int|
                        i < j < init.len() ==> !(#[trigger] init[j]).makes(id) && !init[j].ends(
                            id,
                        ));
                assert(calls[i].makes(id) && calls[i].at() == made);
                assert forall|j: int| i < j < calls.len() implies !(#[trigger] calls[j]).makes(id)
                    && !calls[j].ends(id) by {
                    if j < n {
                        assert(init[j] == calls[j]);
                    }
                }
            }
        }
        if exists|i: int|
            0 <= i < calls.len() && (#[trigger] calls[i]).makes(id) && calls[i].at() == made && (
            forall|j: int|
                i < j < calls.len() ==> !(#[trigger] calls[j]).makes(id) && !calls[j].ends(id)) {
            let i = choose|i: int|
                0 <= i < calls.len() && (#[trigger] calls[i]).makes(id) && calls[i].at() == made
                    && (forall|j: int|
                    i < j < calls.len() ==> !(#[trigger] calls[j]).makes(id) && !calls[j].ends(
                        id,
                    ));
            if i < n {
                assert(!calls[n].makes(id) && !calls[n].ends(id));
                assert(init[i].makes(id) && init[i].at() == made);
                assert forall|j: int| i < j < init.len() implies !(#[trigger] init[j]).makes(id)
                    && !init[j].ends(id) by {
                    assert(init[j] == calls[j]);
                }
            }
        }
    }
}

/// The name of a session is made of two hexadecimal digits for each random byte.
pub proof fn session_names_are_hexadecimal(bytes: Seq<u8>)
    ensures
        hex_of(bytes).len() == 2 * bytes.len(),
        forall|i: int|
            0 <= i < hex_of(bytes).len() ==> '0' <= #[trigger] hex_of(bytes)[i] <= '9' || 'a'
                <= hex_of(bytes)[i] <= 'f',
    decreases bytes.len(),
{
    if bytes.len() > 0 {
        session_names_are_hexadecimal(bytes.drop_last());
    }
}

/// Different random bytes give different names.
pub proof fn session_names_are_distinct(a: Seq<u8>, b: Seq<u8>)
    requires
        hex_of(a) == hex_of(b),
    ensures
        a == b,
    decreases a.len(),
{
    session_names_are_hexadecimal(a);
    session_names_are_hexadecimal(b);
    if a.len() > 0 {
        let n = hex_of(a).len();
        assert(hex_of(a).drop_last().drop_last() =~= hex_of(a.drop_last()));
        assert(hex_of(b).drop_last().drop_last() =~= hex_of(b.drop_last()));
        session_names_are_distinct(a.drop_last(), b.drop_last());
        assert(hex_of(a)[n - 1] == hex_char(a.last() as nat % 16));
        assert(hex_of(b)[n - 1] == hex_char(b.last() as nat % 16));
        assert(hex_of(a)[n - 2] == hex_char(a.last() as nat / 16));
        assert(hex_of(b)[n - 2] == hex_char(b.last() as nat / 16));
        assert(a.last() == b.last());
        assert(a =~= a.drop_last().push(a.last()));
        assert(b =~= b.drop_last().push(b.last()));
    } else {
        assert(a =~= b);
    }
}

/// What is noted of the attempts from an address after a number of them.
pub open spec fn after_attempts(
    attempts: Map<Seq<char>, (u32, Timestamp)>,
    ip: Seq<char>,
    times: Seq<Timestamp>,
) -> Map<Seq<char>, (u32, Timestamp)>
    decreases times.len(),
{
    if times.len() == 0 {
        attempts
    } else {
        let before = after_attempts(attempts, ip, times.drop_last());
        before.insert(ip, noted(before, ip, times.last()))
    }
}

/// Of the attempts from an address within a minute of its first one, the first
/// five are allowed and no other.
pub proof fn five_attempts_in_a_minute(
    attempts: Map<Seq<char>, (u32, Timestamp)>,
    ip: Seq<char>,
    times: Seq<Timestamp>,
    now: Timestamp,
)
    requires
        !attempts.contains_key(ip),
        times.len() < u32::MAX,
        times.len() > 0 ==> now@ - times[0]@ <= 60 * 1_000_000_000,
        forall|i: int|
            0 <= i < times.len() ==> (#[trigger] times[i])@ - times[0]@ <= 60 * 1_000_000_000,
    ensures
        noted(after_attempts(attempts, ip, times), ip, now).0 == times.len() + 1,
        noted(after_attempts(attempts, ip, times), ip, now).0 <= 5 <==> times.len() < 5,
        times.len() > 0 ==> after_attempts(attempts, ip, times).contains_key(ip)
            && after_attempts(attempts, ip, times)[ip] == (times.len() as u32, times[0]),
    decreases times.len(),
{
    if times.len() > 0 {
        let init = times.drop_last();
        assert forall|i: int| 0 <= i < init.len() implies (#[trigger] init[i])@ - init[0]@ <= 60
            * 1_000_000_000 by {
            assert(init[i] == times[i]);
        }
        assert(times.last() == times[times.len() - 1]);
        five_attempts_in_a_minute(attempts, ip, init, times.last());
    }
}

/// More than a minute after the first attempt that is counted, the next one is
/// allowed; and an address that was reset starts anew.
pub proof fn attempts_are_forgiven(
    attempts: Map<Seq<char>, (u32, Timestamp)>,
    ip: Seq<char>,
    now: Timestamp,
)
    ensures
        attempts.contains_key(ip) && now@ - attempts[ip].1@ > 60 * 1_000_000_000 ==> noted(
            attempts,
            ip,
            now,
        ).0 == 1,
        noted(attempts.remove(ip), ip, now).0 == 1,
{
}

/// Two environments and configurations that differ in secrets alone: in which
/// password and which tokens are set, but not in whether they are.
pub open spec fn differ_in_secrets(cfg: Config, env: Env, other: Config, other_env: Env) -> bool {
    &&& other == (Config {
        smtp: crate::config::SmtpConfig { password: other.smtp.password, ..cfg.smtp },
        ui: crate::config::UiConfig { admin_token: other.ui.admin_token, ..cfg.ui },
        ..cfg
    })
    &&& env.smtp_password is Some == other_env.smtp_password is Some
    &&& (env.github_token is Some && env.github_token->0@.len() > 0) == (
    other_env.github_token is Some && other_env.github_token->0@.len() > 0)
    &&& (cfg.resolved_admin_token(env).len() > 0) == (other.resolved_admin_token(other_env).len()
        > 0)
}

/// No secret shows in the report on a configuration: it is the same whatever
/// the secrets are.
pub proof fn reports_hold_no_secret(
    cfg: Config,
    env: Env,
    other: Config,
    other_env: Env,
    config_writable: bool,
)
    requires
        differ_in_secrets(cfg, env, other, other_env),
    ensures
        report_of(cfg, env, config_writable) == report_of(other, other_env, config_writable),
{
}

proof fn one_piece(s: Seq<char>, sep: char)
    requires
        forall|i: int| 0 <= i < s.len() ==> #[trigger] s[i] != sep,
    ensures
        split_on(s, sep) == seq![s],
    decreases s.len(),
{
    if s.len() > 0 {
        let init = s.drop_last();
        assert forall|i: int| 0 <= i < init.len() implies #[trigger] init[i] != sep by {
            assert(init[i] == s[i]);
        }
        one_piece(init, sep);
        assert(s.last() == s[s.len() - 1]);
        assert(init.push(s.last()) =~= s);
        assert(split_on(s, sep) =~= seq![s]);
    } else {
        assert(s =~= Seq::empty());
    }
}

/// A cookie list that holds nothing but the name of a session, as login hands it
/// out, names that session.
pub proof fn session_cookie_names_its_session(bytes: Seq<u8>)
    ensures
        first_session(split_on("grn_session="@ + hex_of(bytes), ';')) == Some(hex_of(bytes)),
{
    reveal_strlit("grn_session=");
    session_names_are_hexadecimal(bytes);
    let id = hex_of(bytes);
    let prefix = "grn_session="@;
    let raw = prefix + id;
    assert(prefix.len() == 12);
    assert forall|i: int| 0 <= i < raw.len() implies #[trigger] raw[i] != ';' && !is_space(raw[i]) by {
        if i >= 12 {
            assert(raw[i] == id[i - 12]);
        } else {
            assert(raw[i] == prefix[i]);
        }
    }
    one_piece(raw, ';');
    assert(trim_start(raw) == raw);
    assert(!is_space(raw[raw.len() - 1]));
    assert(trim_end(raw) == raw);
    assert(prefix.is_prefix_of(raw));
    assert(raw.skip(12) =~= id);
    assert(stripped(raw, prefix) == Some(id));
}

/// Who has logged in is authorized for the time of a session: a request whose
/// cookie is the one that login handed out needs no token.
pub proof fn login_opens_the_interface(
    bytes: Seq<u8>,
    sessions: Map<Seq<char>, Timestamp>,
    made: Timestamp,
    headers: HeaderMap,
    cfg: Config,
    env: Env,
    now: Timestamp,
)
    requires
        !cfg.ui.trust_proxy_auth,
        session_has_end(made),
        now.valid(),
        now@ < made@ + 12 * 3600 * 1_000_000_000,
        header(headers, "cookie"@) == Some("grn_session="@ + hex_of(bytes)),
    ensures
        is_authorized(headers, cfg, env, created(sessions, hex_of(bytes), made), now),
{
    session_cookie_names_its_session(bytes);
    sessions_last_their_time(sessions, hex_of(bytes), made, now);
}

} // verus!
