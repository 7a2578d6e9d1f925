//! What each part of the daemon does, from what goes into it: the configuration,
//! the schedule, the replies of GitHub, the announcement and the store.

use vstd::prelude::*;

use crate::config::{
    encryption_fault, encryption_text, AuthMode, Config, ConfigError, ConfigFault, Encryption, Env,
    UiConfig,
};
use crate::config_writeback::{
    contents, contents_have_keys, edited_from, entries_in, fault_response, fault_status, io_fault,
    is_flat, is_written, kept_entries, misused_name, new_keys_come_last, order_survives,
    overwritten, signed_seconds, stays_in, with_changes, Change, ChangeView, ConfigEdit, IoFailure,
    IoKind, SaveError, SaveFault,
};
use crate::document::{
    are_tables, content, has_data, has_key, key_at, names_where, without_keeps, without_lacks,
    TomlData, TomlDocument, TomlEntry, TomlTable, TomlValue,
};
use crate::github::{
    answer_of, answer_view, http_status_line, status_message, status_text, Answer, GithubError,
    GithubFault, GithubReply, Release, ReleaseView,
};
use crate::ip::is_ip;
use crate::notify::{
    address_fault, body_text, first_recipient_fault, mail_fault, mailbox_fault, mailbox_faults,
    message_fault, opt_texts, subject_text, MailError, MailFault, Mailer, PLAIN_TEXT,
};
use crate::patterns::{email_form, first_without, is_email, is_repo, repo_form};
use crate::schedule::{cron_fault, cron_next, with_seconds};
use crate::scheduler::{
    next_poll, phase_after, seen_tag, wait_length, Event, EventView, LoopEvent, Phase, TickReport,
    Wake,
};
use crate::state::{json_string_map, loaded, text_map};
use crate::string_map::map_of;
use crate::text::{decimal_of, texts, word_count};
use crate::text_laws::the_first_without_a_form_is_found;
use crate::time::{Timestamp, Wait, MINUTE_PATTERN};

verus! {

/// A point in time counts nanoseconds, and so does a wait. The calendar reaches
/// from the first to the last second that it has a date for.
pub proof fn time_counts_nanoseconds(t: Timestamp, wait: Wait)
    ensures
        t@ == t.secs * 1_000_000_000 + t.nanos,
        wait@ == wait.secs * 1_000_000_000 + wait.nanos,
        t.valid() <==> -8_334_601_228_800 <= t.secs <= 8_210_266_876_799 && t.nanos
            < 1_000_000_000,
        MINUTE_PATTERN@ == "%Y-%m-%d %H:%M UTC"@,
        PLAIN_TEXT@ == "text/plain; charset=utf-8"@,
{
}

/// Where the file says nothing of the web interface, it listens on this host
/// alone, on port 8080, without a token, and trusts no proxy.
pub proof fn the_web_interface_is_private_by_default(ui: UiConfig)
    ensures
        ui.is_default() <==> ui.bind_addr@ == "127.0.0.1"@ && ui.port == 8080 && ui.admin_token@
            == ""@ && !ui.trust_proxy_auth,
{
}

/// What happens during a poll is taken for what it is.
pub proof fn events_are_taken_for_what_they_are(
    sent: bool,
    found: Result<Option<Release>, GithubError>,
)
    ensures
        Event::Mailed(sent)@ == EventView::Mailed(sent),
        Event::Saved@ == EventView::Saved,
        Event::Fetched(found)@ == EventView::Fetched(answer_view(found)),
{
}

/// Each kind of protection has its word in the file, and a text that is none of
/// the words is told with them.

pub proof fn protection_has_its_word(e: Encryption, text: Seq<char>)
    ensures
        encryption_fault(text) == "unknown variant `"@ + text
            + "`, expected one of `starttls`, `tls`, `none`"@,
        e == Encryption::StartTls ==> encryption_text(e) == "starttls"@,
        e == Encryption::Tls ==> encryption_text(e) == "tls"@,
        e == Encryption::Plain ==> encryption_text(e) == "none"@,
{
}

/// Where the environment sets the password, that is the one, even an empty one;
/// otherwise it is the configuration's. Of the token for the web interface an
/// empty one in the environment does not count.
pub proof fn the_environment_takes_precedence(cfg: Config, env: Env)
    ensures
        env.smtp_password is Some ==> cfg.resolved_password(env) == env.smtp_password->0@,
        env.smtp_password is None ==> cfg.resolved_password(env) == cfg.smtp.password@,
        env.admin_token is Some && env.admin_token->0@.len() > 0 ==> cfg.resolved_admin_token(env)
            == env.admin_token->0@,
        env.admin_token is None || env.admin_token->0@.len() == 0 ==> cfg.resolved_admin_token(env)
            == cfg.ui.admin_token@,
{
}

/// The token that a request has to present, where there is one.
pub open spec fn token_in_use(cfg: Config, env: Env) -> Seq<char> {
    if env.admin_token is Some && env.admin_token->0@.len() > 0 {
        env.admin_token->0@
    } else {
        cfg.ui.admin_token@
    }
}

/// With a token requests are let in by token, without one by a trusted proxy, and
/// with neither all of them.
pub proof fn requests_are_let_in_one_way(cfg: Config, env: Env)
    ensures
        token_in_use(cfg, env) == cfg.resolved_admin_token(env),
        cfg.auth_mode(env) == AuthMode::Token <==> token_in_use(cfg, env).len() > 0,
        cfg.auth_mode(env) == AuthMode::Proxy <==> token_in_use(cfg, env).len() == 0
            && cfg.ui.trust_proxy_auth,
        cfg.auth_mode(env) == AuthMode::Open <==> token_in_use(cfg, env).len() == 0
            && !cfg.ui.trust_proxy_auth,
{
}

/// Shorthands and expressions of six fields are read as they are, one of five
/// fields with second zero in front of it, and nothing else is read.
pub proof fn expressions_get_a_second(expr: Seq<char>)
    ensures
        expr.len() > 0 && expr[0] == '@' ==> with_seconds(expr) == Some(expr),
        !(expr.len() > 0 && expr[0] == '@') && word_count(expr) == 5 ==> with_seconds(expr) == Some(
            "0 "@ + expr,
        ),
        !(expr.len() > 0 && expr[0] == '@') && word_count(expr) == 6 ==> with_seconds(expr) == Some(
            expr,
        ),
        !(expr.len() > 0 && expr[0] == '@') && word_count(expr) != 5 && word_count(expr) != 6
            ==> with_seconds(expr) is None,
{
}

/// A cron expression that can be read: a shorthand or six fields as they are, or
/// five with second zero in front.
pub open spec fn is_readable(expr: Seq<char>) -> bool {
    if expr.len() > 0 && expr[0] == '@' {
        cron_fault(expr) is None
    } else {
        ||| word_count(expr) == 6 && cron_fault(expr) is None
        ||| word_count(expr) == 5 && cron_fault("0 "@ + expr) is None
    }
}

/// Whether a configuration gives a password, from the environment or itself.
pub open spec fn gives_password(cfg: Config, env: Env) -> bool {
    if env.smtp_password is Some {
        env.smtp_password->0@.len() > 0
    } else {
        cfg.smtp.password@.len() > 0
    }
}

proof fn lists_have_their_form(v: Seq<String>)
    ensures
        first_without(texts(v), repo_form()) is None <==> forall|i: int|
            0 <= i < v.len() ==> is_repo((#[trigger] v[i])@),
        first_without(texts(v), email_form()) is None <==> forall|i: int|
            0 <= i < v.len() ==> is_email((#[trigger] v[i])@),
{
    let t = texts(v);
    the_first_without_a_form_is_found(t, repo_form());
    the_first_without_a_form_is_found(t, email_form());
    if forall|i: int| 0 <= i < v.len() ==> is_repo((#[trigger] v[i])@) {
        assert forall|i: int| 0 <= i < t.len() implies repo_form()(#[trigger] t[i]) by {
            assert(is_repo(v[i]@));
        }
    }
    if forall|i: int| 0 <= i < t.len() ==> repo_form()(#[trigger] t[i]) {
        assert forall|i: int| 0 <= i < v.len() implies is_repo((#[trigger] v[i])@) by {
            assert(repo_form()(t[i]));
        }
    }
    if forall|i: int| 0 <= i < v.len() ==> is_email((#[trigger] v[i])@) {
        assert forall|i: int| 0 <= i < t.len() implies email_form()(#[trigger] t[i]) by {
            assert(is_email(v[i]@));
        }
    }
    if forall|i: int| 0 <= i < t.len() ==> email_form()(#[trigger] t[i]) {
        assert forall|i: int| 0 <= i < v.len() implies is_email((#[trigger] v[i])@) by {
            assert(email_form()(t[i]));
        }
    }
}

/// A configuration is without fault exactly if it meets every rule. A password is
/// needed only where there is a user name, and a schedule need not be there.
pub proof fn a_configuration_is_valid_exactly_if_it_meets_every_rule(cfg: Config, env: Env)
    ensures
        cfg.fault(env) is None <==> {
            &&& cfg.poll_interval_seconds >= 60
            &&& cfg.repos@.len() > 0
            &&& forall|i: int| 0 <= i < cfg.repos@.len() ==> is_repo((#[trigger] cfg.repos@[i])@)
            &&& cfg.recipients@.len() > 0
            &&& forall|i: int|
                0 <= i < cfg.recipients@.len() ==> is_email((#[trigger] cfg.recipients@[i])@)
            &&& is_email(cfg.sender@)
            &&& cfg.smtp.host@.len() > 0
            &&& cfg.smtp.port > 0
            &&& cfg.smtp.username@.len() > 0 ==> gives_password(cfg, env)
            &&& cfg.cron_expression is Some ==> is_readable(cfg.cron_expression->0@)
            &&& cfg.ui.port > 0
            &&& is_ip(cfg.ui.bind_addr@)
            &&& !(token_in_use(cfg, env).len() > 0 && cfg.ui.trust_proxy_auth)
        },
{
    lists_have_their_form(cfg.repos@);
    lists_have_their_form(cfg.recipients@);
}

/// The first text of a list that has not a form.
pub open spec fn is_first_bad(v: Seq<String>, i: int, form: spec_fn(Seq<char>) -> bool) -> bool {
    &&& 0 <= i < v.len()
    &&& !form(v[i]@)
    &&& forall|j: int| 0 <= j < i ==> form((#[trigger] v[j])@)
}

proof fn the_first_bad_is_named(v: Seq<String>, form: spec_fn(Seq<char>) -> bool)
    ensures
        first_without(texts(v), form) matches Some(t) ==> exists|i: int| #[trigger]
            is_first_bad(v, i, form) && v[i]@ == t,
{
    the_first_without_a_form_is_found(texts(v), form);
    if let Some(t) = first_without(texts(v), form) {
        let i = choose|i: int|
            0 <= i < texts(v).len() && #[trigger] texts(v)[i] == t && !form(t) && forall|j: int|
                0 <= j < i ==> form(#[trigger] texts(v)[j]);
        assert forall|j: int| 0 <= j < i implies form((#[trigger] v[j])@) by {
            assert(form(texts(v)[j]));
        }
        assert(is_first_bad(v, i, form));
    }
}

/// Of several rules that a configuration breaks the first one is named, in this
/// order: the interval, the repositories, the recipients, the sender, each
/// recipient, the mail server, its password, the schedule, the web interface.
pub proof fn the_first_broken_rule_is_named(cfg: Config, env: Env)
    ensures
        ({
            let repos_good = forall|i: int|
                0 <= i < cfg.repos@.len() ==> is_repo((#[trigger] cfg.repos@[i])@);
            let recipients_good = forall|i: int|
                0 <= i < cfg.recipients@.len() ==> is_email((#[trigger] cfg.recipients@[i])@);
            let r1 = cfg.poll_interval_seconds >= 60;
            let r2 = r1 && cfg.repos@.len() > 0;
            let r3 = r2 && repos_good;
            let r4 = r3 && cfg.recipients@.len() > 0;
            let r5 = r4 && is_email(cfg.sender@);
            let r6 = r5 && recipients_good;
            let r7 = r6 && cfg.smtp.host@.len() > 0;
            let r8 = r7 && cfg.smtp.port > 0;
            let r9 = r8 && (cfg.smtp.username@.len() > 0 ==> gives_password(cfg, env));
            let r10 = r9 && (cfg.cron_expression is Some ==> is_readable(cfg.cron_expression->0@));
            let r11 = r10 && cfg.ui.port > 0;
            let r12 = r11 && is_ip(cfg.ui.bind_addr@);
            let fault = cfg.fault(env);
            &&& !r1 ==> fault == Some(ConfigFault::PollInterval)
            &&& r1 && !r2 ==> fault == Some(ConfigFault::NoRepos)
            &&& r2 && !r3 ==> exists|i: int| #[trigger]
                is_first_bad(cfg.repos@, i, repo_form()) && fault == Some(
                    ConfigFault::InvalidRepo(cfg.repos@[i]@),
                )
            &&& r3 && !r4 ==> fault == Some(ConfigFault::NoRecipients)
            &&& r4 && !r5 ==> fault == Some(ConfigFault::InvalidSender(cfg.sender@))
            &&& r5 && !r6 ==> exists|i: int| #[trigger]
                is_first_bad(cfg.recipients@, i, email_form()) && fault == Some(
                    ConfigFault::InvalidRecipient(cfg.recipients@[i]@),
                )
            &&& r6 && !r7 ==> fault == Some(ConfigFault::NoSmtpHost)
            &&& r7 && !r8 ==> fault == Some(ConfigFault::SmtpPort)
            &&& r8 && !r9 ==> fault == Some(ConfigFault::NoSmtpPassword)
            &&& r9 && !r10 ==> {
                let expr = cfg.cron_expression->0@;
                let source = if word_count(expr) == 5 && !(expr.len() > 0 && expr[0] == '@') {
                    "0 "@ + expr
                } else {
                    expr
                };
                if expr.len() > 0 && expr[0] == '@' || word_count(expr) == 5 || word_count(expr)
                    == 6 {
                    fault == Some(
                        ConfigFault::InvalidCron { expr, reason: cron_fault(source)->0 },
                    )
                } else {
                    fault == Some(ConfigFault::CronFields(word_count(expr)))
                }
            }
            &&& r10 && !r11 ==> fault == Some(ConfigFault::UiPort)
            &&& r11 && !r12 ==> fault == Some(ConfigFault::UiBindAddr(cfg.ui.bind_addr@))
            &&& r12 && token_in_use(cfg, env).len() > 0 && cfg.ui.trust_proxy_auth ==> fault
                == Some(ConfigFault::AuthModes)
        }),
        forall|t: Seq<char>| #[trigger] repo_form()(t) == is_repo(t),
        forall|t: Seq<char>| #[trigger] email_form()(t) == is_email(t),
{
    lists_have_their_form(cfg.repos@);
    lists_have_their_form(cfg.recipients@);
    the_first_bad_is_named(cfg.repos@, repo_form());
    the_first_bad_is_named(cfg.recipients@, email_form());
}

/// A refusal says which rule is broken, and by what.
pub proof fn refusals_say_what_is_wrong(a: Seq<char>, b: Seq<char>, n: nat)
    ensures
        (ConfigFault::Unreadable { path: a, reason: b }).message() == "failed to read config file "@
            + a + ": "@ + b,
        (ConfigFault::Unparseable { path: a, reason: b }).message() == "failed to parse config file "@
            + a + ": "@ + b,
        ConfigFault::PollInterval.message() == "poll_interval_seconds must be >= 60"@,
        ConfigFault::NoRepos.message() == "repos must not be empty"@,
        ConfigFault::InvalidRepo(a).message() == "invalid repo '"@ + a
            + "', expected 'owner/repo'"@,
        ConfigFault::NoRecipients.message() == "recipients must not be empty"@,
        ConfigFault::InvalidSender(a).message() == "sender '"@ + a + "' is not a valid email"@,
        ConfigFault::InvalidRecipient(a).message() == "recipient '"@ + a
            + "' is not a valid email"@,
        ConfigFault::NoSmtpHost.message() == "smtp.host must not be empty"@,
        ConfigFault::SmtpPort.message() == "smtp.port must be > 0"@,
        ConfigFault::NoSmtpPassword.message()
            == "smtp.username is set but no password provided (set [smtp].password or SMTP_PASSWORD env)"@,
        ConfigFault::CronFields(n).message() == "cron_expression must have 5 or 6 fields, got "@
            + decimal_of(n),
        (ConfigFault::InvalidCron { expr: a, reason: b }).message() == "invalid cron_expression '"@
            + a + "': "@ + b,
        ConfigFault::UiPort.message() == "ui.port must be > 0"@,
        ConfigFault::UiBindAddr(a).message() == "ui.bind_addr '"@ + a
            + "' is not a valid IP address"@,
        ConfigFault::AuthModes.message()
            == "ui.admin_token and ui.trust_proxy_auth are mutually exclusive; configure exactly one auth mode"@,
        ConfigFault::EmptyStatePath.message() == "state path must not be empty"@,
{
}

/// Validation changes the schedule alone: it is that of the expression, where
/// there is one, and otherwise the one that was there.
pub proof fn validation_sets_the_schedule_alone(before: Config, after: Config)
    ensures
        after.validated_from(before) ==> {
            &&& after.poll_interval_seconds == before.poll_interval_seconds
            &&& after.state_path == before.state_path
            &&& after.sender == before.sender
            &&& after.repos == before.repos
            &&& after.recipients == before.recipients
            &&& after.smtp == before.smtp
            &&& after.cron_expression == before.cron_expression
            &&& after.config_path == before.config_path
            &&& after.ui == before.ui
            &&& before.cron_expression is None ==> after.cron_schedule == before.cron_schedule
            &&& before.cron_expression matches Some(expr) ==> {
                &&& after.cron_schedule is Some
                &&& after.cron_schedule->0.source@ == if word_count(expr@) == 5 && !(expr@.len() > 0
                    && expr@[0] == '@') {
                    "0 "@ + expr@
                } else {
                    expr@
                }
            }
        },
{
}

/// With a schedule the next poll is at its first occurrence behind now, to the
/// second, and there is none exactly if the schedule has none.
pub proof fn schedules_set_the_next_poll(cfg: Config, now: Timestamp)
    requires
        cfg.cron_schedule is Some,
        now.valid(),
    ensures
        now.secs < 8_210_266_876_799 ==> {
            let first = cron_next(cfg.cron_schedule->0.source@, now.secs as int);
            &&& next_poll(cfg, now) is Some <==> first is Some
            &&& first matches Some(t) ==> i64::MIN <= t <= i64::MAX ==> next_poll(cfg, now)->0.secs
                == t && next_poll(cfg, now)->0.nanos == 0
        },
        now.secs >= 8_210_266_876_799 ==> next_poll(cfg, now) is None,
{
}

/// Without a schedule the next poll is one interval from now, to the nanosecond;
/// there is no point in time for it exactly if it lies beyond the calendar.
pub proof fn intervals_set_the_next_poll(cfg: Config, now: Timestamp)
    requires
        cfg.cron_schedule is None,
        now.valid(),
    ensures
        next_poll(cfg, now) is Some <==> now.secs + cfg.poll_interval_seconds <= 8_210_266_876_799,
        next_poll(cfg, now) matches Some(t) ==> t@ - now@ == cfg.poll_interval_seconds
            * 1_000_000_000 && t.nanos == now.nanos,
{
}

/// A wait ends at the next poll, or at once where its time has gone by; without a
/// point in time for it the wait is one interval.
pub proof fn waits_end_with_the_next_poll(cfg: Config, now: Timestamp, next: Option<Timestamp>)
    ensures
        next matches Some(t) ==> {
            &&& t@ >= now@ ==> now@ + wait_length(cfg, now, next) == t@
            &&& t@ <= now@ ==> wait_length(cfg, now, next) == 0
        },
        next is None ==> wait_length(cfg, now, next) == cfg.poll_interval_seconds * 1_000_000_000,
{
}

/// The report on a poll lists every repository of the configuration, in order,
/// each with the last tag seen of it, where there is one, and says when the poll
/// ended, when the next one is, and how long to wait for it.
pub proof fn reports_tell_of_every_repository(
    report: TickReport,
    cfg: Config,
    seen: Map<Seq<char>, Seq<char>>,
    now: Timestamp,
)
    requires
        report.is_report(cfg, seen, now),
    ensures
        report.snapshot.repos@.len() == cfg.repos@.len(),
        forall|i: int|
            0 <= i < cfg.repos@.len() ==> {
                let status = #[trigger] report.snapshot.repos@[i];
                &&& status.repo@ == cfg.repos@[i]@
                &&& status.last_seen is Some <==> seen.contains_key(cfg.repos@[i]@)
                &&& status.last_seen is Some ==> status.last_seen->0@ == seen[cfg.repos@[i]@]
            },
        report.snapshot.last_poll_finished_at == Some(now),
        report.snapshot.next_poll_at == next_poll(cfg, now),
        report.wait.secs * 1_000_000_000 + report.wait.nanos == wait_length(
            cfg,
            now,
            next_poll(cfg, now),
        ),
        report.wait.nanos < 1_000_000_000,
{
}

/// A wait is followed by a poll, also where a change of the configuration ended
/// it, unless a shutdown did; a poll is followed by a wait. A loop that is over
/// stays over.
pub proof fn polls_and_waits_take_turns(wake: Wake)
    ensures
        phase_after(Phase::Polling, LoopEvent::Polled) == Phase::Waiting,
        phase_after(Phase::Polling, LoopEvent::Woke(wake)) == Phase::Polling,
        phase_after(Phase::Waiting, LoopEvent::Polled) == Phase::Waiting,
        wake != Wake::Shutdown ==> phase_after(Phase::Waiting, LoopEvent::Woke(wake))
            == Phase::Polling,
        wake == Wake::Shutdown ==> phase_after(Phase::Waiting, LoopEvent::Woke(wake))
            == Phase::Stopped,
        phase_after(Phase::Stopped, LoopEvent::Woke(wake)) == Phase::Stopped,
        phase_after(Phase::Stopped, LoopEvent::Polled) == Phase::Stopped,
{
}

/// The last tag seen of a repository is the one noted for it.
pub proof fn tags_are_looked_up_by_repository(seen: Map<Seq<char>, Seq<char>>, repo: Seq<char>)
    ensures
        seen_tag(seen, repo) is Some <==> seen.contains_key(repo),
        seen.contains_key(repo) ==> seen_tag(seen, repo)->0 == seen[repo],
{
}

/// What each reply of GitHub comes to. A release comes back as it came; the text
/// of a refusal is told whole, and that of another failure up to two hundred
/// characters.
pub proof fn replies_mean_what_their_status_says(repo: Seq<char>, reply: GithubReply, why: String)
    ensures
        answer_of(repo, Err::<GithubReply, String>(why)) == Answer::Fault(
            GithubFault::Request(why@),
        ),
        ({
            let answer = answer_of(repo, Ok::<GithubReply, String>(reply));
            let success = 200 <= reply.status && reply.status < 300;
            &&& reply.status == 404 ==> answer == Answer::Nothing
            &&& reply.status == 403 ==> answer == Answer::Fault(
                GithubFault::RateLimited { repo, body: reply.text@ },
            )
            &&& success && reply.release is Ok ==> {
                let release = reply.release->Ok_0;
                &&& answer is Found
                &&& answer->Found_0.tag_name == release.tag_name@
                &&& answer->Found_0.name == release.name@
                &&& answer->Found_0.html_url == release.html_url@
                &&& answer->Found_0.body == release.body@
                &&& answer->Found_0.published_at == release.published_at
            }
            &&& success && reply.release is Err ==> answer == Answer::Fault(
                GithubFault::Request(reply.release->Err_0@),
            )
            &&& !success && reply.status != 404 && reply.status != 403 ==> {
                &&& answer matches Answer::Fault(GithubFault::Status { repo: r, status, body })
                &&& r == repo
                &&& status == reply.status
                &&& body == if reply.text@.len() <= 200 {
                    reply.text@
                } else {
                    reply.text@.subrange(0, 200)
                }
            }
        }),
{
}

/// A result on a release tells the same as an answer on it.
pub proof fn results_tell_what_answers_tell(release: Release, error: GithubError)
    ensures
        answer_view(Ok::<Option<Release>, GithubError>(None)) == Answer::Nothing,
        answer_view(Ok::<Option<Release>, GithubError>(Some(release))) == Answer::Found(
            ReleaseView {
                tag_name: release.tag_name@,
                name: release.name@,
                html_url: release.html_url@,
                body: release.body@,
                published_at: release.published_at,
            },
        ),
        answer_view(Err::<Option<Release>, GithubError>(error)) == Answer::Fault(error@),
        error matches GithubError::RateLimited { repo, body } ==> error@
            == (GithubFault::RateLimited { repo: repo@, body: body@ }),
        error matches GithubError::Status { repo, status, body } ==> error@
            == (GithubFault::Status { repo: repo@, status, body: body@ }),
        error matches GithubError::Request(m) ==> error@ == GithubFault::Request(m@),
{
}

/// A failure is told with the repository, the line of the status, or its number
/// where it has none, and the text of the reply.
pub proof fn failures_are_told(repo: Seq<char>, status: u16, line: Seq<char>, body: Seq<char>)
    ensures
        status_message(repo, line, body) == "github request for "@ + repo + " failed: status "@
            + line + ", body: "@ + body,
        http_status_line(status as int) is Some ==> status_text(status) == http_status_line(
            status as int,
        )->0,
        http_status_line(status as int) is None ==> status_text(status) == decimal_of(
            status as nat,
        ),
{
}

/// An announcement holds the repository, the tag, the name, the date and the
/// address, each whole on its line, and behind them the whole release notes.
pub proof fn announcements_hold_everything(
    release: ReleaseView,
    repo: Seq<char>,
    published: Seq<char>,
)
    ensures
        body_text(release, repo, published) == "A new stable release of "@ + repo
            + " is available.\n\nTag: "@ + release.tag_name + "\nName: "@ + release.name
            + "\nPublished: "@ + published + "\nURL: "@ + release.html_url
            + "\n\nRelease notes:\n"@ + release.body + "\n"@,
        exists|front: Seq<char>|
            body_text(release, repo, published) == #[trigger] (front + "\n\nRelease notes:\n"@
                + release.body + "\n"@),
        body_text(release, repo, published).len() == "A new stable release of "@.len()
            + " is available.\n\nTag: "@.len() + "\nName: "@.len() + "\nPublished: "@.len()
            + "\nURL: "@.len() + "\n\nRelease notes:\n"@.len() + "\n"@.len() + repo.len()
            + release.tag_name.len() + release.name.len() + published.len() + release.html_url.len()
            + release.body.len(),
{
    let front = "A new stable release of "@ + repo + " is available.\n\nTag: "@ + release.tag_name
        + "\nName: "@ + release.name + "\nPublished: "@ + published + "\nURL: "@
        + release.html_url;
    assert(body_text(release, repo, published) == front + "\n\nRelease notes:\n"@ + release.body
        + "\n"@);
}

/// Releases that differ in one thing alone have different announcements, whatever
/// it is: the repository, the tag, the name, the date, the address or the notes.
pub proof fn announcements_tell_releases_apart(
    a: ReleaseView,
    b: ReleaseView,
    repo: Seq<char>,
    other: Seq<char>,
    published: Seq<char>,
    later: Seq<char>,
)
    ensures
        body_text(a, repo, published) == body_text(
            ReleaseView { body: b.body, ..a },
            repo,
            published,
        ) ==> a.body == b.body,
        body_text(a, repo, published) == body_text(
            ReleaseView { html_url: b.html_url, ..a },
            repo,
            published,
        ) ==> a.html_url == b.html_url,
        body_text(a, repo, published) == body_text(
            ReleaseView { name: b.name, ..a },
            repo,
            published,
        ) ==> a.name == b.name,
        body_text(a, repo, published) == body_text(
            ReleaseView { tag_name: b.tag_name, ..a },
            repo,
            published,
        ) ==> a.tag_name == b.tag_name,
        body_text(a, repo, published) == body_text(a, repo, later) ==> published == later,
        body_text(a, repo, published) == body_text(a, other, published) ==> repo == other,
{
    announcement_parts(a, repo, published);
    announcement_parts(ReleaseView { body: b.body, ..a }, repo, published);
    announcement_parts(ReleaseView { html_url: b.html_url, ..a }, repo, published);
    announcement_parts(ReleaseView { name: b.name, ..a }, repo, published);
    announcement_parts(ReleaseView { tag_name: b.tag_name, ..a }, repo, published);
    announcement_parts(a, repo, later);
    announcement_parts(a, other, published);
    let front = text_in_front(a, repo, published);
    let behind = text_behind(a, published);
    middles_are_told_apart(front[5], a.body, b.body, behind[5]);
    middles_are_told_apart(front[4], a.html_url, b.html_url, behind[4]);
    middles_are_told_apart(front[3], published, later, behind[3]);
    middles_are_told_apart(front[2], a.name, b.name, behind[2]);
    middles_are_told_apart(front[1], a.tag_name, b.tag_name, behind[1]);
    middles_are_told_apart(front[0], repo, other, behind[0]);
}

/// What stands in front of the repository, the tag, the name, the date, the
/// address and the notes of an announcement.
spec fn text_in_front(release: ReleaseView, repo: Seq<char>, published: Seq<char>) -> Seq<
    Seq<char>,
> {
    let q0 = "A new stable release of "@;
    let q1 = q0 + repo + " is available.\n\nTag: "@;
    let q2 = q1 + release.tag_name + "\nName: "@;
    let q3 = q2 + release.name + "\nPublished: "@;
    let q4 = q3 + published + "\nURL: "@;
    let q5 = q4 + release.html_url + "\n\nRelease notes:\n"@;
    seq![q0, q1, q2, q3, q4, q5]
}

/// What stands behind each of them.
spec fn text_behind(release: ReleaseView, published: Seq<char>) -> Seq<Seq<char>> {
    let e5 = "\n"@;
    let e4 = "\n\nRelease notes:\n"@ + (release.body + e5);
    let e3 = "\nURL: "@ + (release.html_url + e4);
    let e2 = "\nPublished: "@ + (published + e3);
    let e1 = "\nName: "@ + (release.name + e2);
    let e0 = " is available.\n\nTag: "@ + (release.tag_name + e1);
    seq![e0, e1, e2, e3, e4, e5]
}

proof fn pieces_regroup(a: Seq<char>, b: Seq<char>, c: Seq<char>, d: Seq<char>)
    ensures
        (a + b + c) + d == a + b + (c + d),
        a + (b + c) == a + b + c,
{
    assert((a + b + c) + d =~= a + b + (c + d));
    assert(a + (b + c) =~= a + b + c);
}

/// An announcement, cut at each of the things that it holds.
proof fn announcement_parts(release: ReleaseView, repo: Seq<char>, published: Seq<char>)
    ensures
        ({
            let text = body_text(release, repo, published);
            let front = text_in_front(release, repo, published);
            let behind = text_behind(release, published);
            &&& text == front[0] + repo + behind[0]
            &&& text == front[1] + release.tag_name + behind[1]
            &&& text == front[2] + release.name + behind[2]
            &&& text == front[3] + published + behind[3]
            &&& text == front[4] + release.html_url + behind[4]
            &&& text == front[5] + release.body + behind[5]
        }),
{
    let front = text_in_front(release, repo, published);
    let behind = text_behind(release, published);
    pieces_regroup(
        front[4],
        release.html_url,
        "\n\nRelease notes:\n"@,
        release.body + behind[5],
    );
    pieces_regroup(front[5], release.body, behind[5], Seq::empty());
    pieces_regroup(front[3], published, "\nURL: "@, release.html_url + behind[4]);
    pieces_regroup(front[4], release.html_url, behind[4], Seq::empty());
    pieces_regroup(front[2], release.name, "\nPublished: "@, published + behind[3]);
    pieces_regroup(front[3], published, behind[3], Seq::empty());
    pieces_regroup(front[1], release.tag_name, "\nName: "@, release.name + behind[2]);
    pieces_regroup(front[2], release.name, behind[2], Seq::empty());
    pieces_regroup(front[0], repo, " is available.\n\nTag: "@, release.tag_name + behind[1]);
    pieces_regroup(front[1], release.tag_name, behind[1], Seq::empty());
}

proof fn middles_are_told_apart(front: Seq<char>, a: Seq<char>, b: Seq<char>, back: Seq<char>)
    ensures
        front + a + back == front + b + back ==> a == b,
{
    if front + a + back == front + b + back {
        let (x, y) = (front + a + back, front + b + back);
        assert(x.len() == y.len());
        assert forall|i: int| 0 <= i < a.len() implies a[i] == b[i] by {
            assert(x[front.len() + i] == a[i]);
            assert(y[front.len() + i] == b[i]);
        }
        assert(a =~= b);
    }
}

/// The subject names the daemon, the repository and the tag.
pub proof fn subjects_name_repository_and_tag(repo: Seq<char>, tag: Seq<char>)
    ensures
        subject_text(repo, tag) == "[gh-release-notify] "@ + repo + " "@ + tag + " released"@,
{
}

/// The recipient that is refused is the first one with a fault, and it is told
/// with that fault; there is none exactly if no recipient has a fault.
pub proof fn the_first_bad_recipient_is_named(
    recipients: Seq<Seq<char>>,
    faults: Seq<Option<Seq<char>>>,
)
    requires
        recipients.len() == faults.len(),
    ensures
        first_recipient_fault(recipients, faults) is None <==> forall|i: int|
            0 <= i < faults.len() ==> #[trigger] faults[i] is None,
        first_recipient_fault(recipients, faults) matches Some(fault) ==> exists|i: int|
            {
                &&& 0 <= i < faults.len()
                &&& #[trigger] faults[i] is Some
                &&& fault == (MailFault::InvalidRecipient {
                    recipient: recipients[i],
                    reason: faults[i]->0,
                })
                &&& forall|j: int| 0 <= j < i ==> #[trigger] faults[j] is None
            },
    decreases recipients.len(),
{
    if recipients.len() > 0 {
        let rest = faults.drop_first();
        the_first_bad_recipient_is_named(recipients.drop_first(), rest);
        if faults[0] is None {
            let found = first_recipient_fault(recipients.drop_first(), rest);
            if found is None {
                assert forall|i: int| 0 <= i < faults.len() implies #[trigger] faults[i] is None by {
                    if i > 0 {
                        assert(rest[i - 1] is None);
                    }
                }
            } else {
                let i = choose|i: int|
                    {
                        &&& 0 <= i < rest.len()
                        &&& #[trigger] rest[i] is Some
                        &&& found->0 == (MailFault::InvalidRecipient {
                            recipient: recipients.drop_first()[i],
                            reason: rest[i]->0,
                        })
                        &&& forall|j: int| 0 <= j < i ==> #[trigger] rest[j] is None
                    };
                assert(faults[i + 1] is Some);
                assert forall|j: int| 0 <= j < i + 1 implies #[trigger] faults[j] is None by {
                    if j > 0 {
                        assert(rest[j - 1] is None);
                    }
                }
            }
        }
    }
}

/// An announcement can be sent exactly if `lettre` reads the sender and every
/// recipient and builds a message from them. The sender is told of first, then
/// the first recipient that is not read, then the message.
pub proof fn announcements_need_readable_addresses(mailer: Mailer, recipients: Seq<Seq<char>>)
    ensures
        mailer.fault(recipients) is None <==> {
            &&& mailbox_fault(mailer.sender@) is None
            &&& forall|i: int|
                0 <= i < recipients.len() ==> mailbox_fault(#[trigger] recipients[i]) is None
            &&& message_fault(mailer.sender@, recipients) is None
        },
        mailbox_fault(mailer.sender@) matches Some(reason) ==> mailer.fault(recipients) == Some(
            MailFault::InvalidSender { sender: mailer.sender@, reason },
        ),
        mailer.fault(recipients) matches Some(
            MailFault::InvalidRecipient { recipient, reason },
        ) ==> exists|i: int|
            {
                &&& 0 <= i < recipients.len()
                &&& #[trigger] recipients[i] == recipient
                &&& mailbox_fault(recipient) == Some(reason)
                &&& forall|j: int| 0 <= j < i ==> mailbox_fault(#[trigger] recipients[j]) is None
            },
        mailbox_fault(mailer.sender@) is None && (exists|i: int|
            0 <= i < recipients.len() && mailbox_fault(#[trigger] recipients[i]) is Some)
            ==> mailer.fault(recipients) matches Some(MailFault::InvalidRecipient { .. }),
        mailbox_fault(mailer.sender@) is None && (forall|i: int|
            0 <= i < recipients.len() ==> mailbox_fault(#[trigger] recipients[i]) is None)
            && message_fault(mailer.sender@, recipients) is Some ==> mailer.fault(recipients)
            == Some(
            MailFault::NoMessage { reason: message_fault(mailer.sender@, recipients)->0 },
        ),
{
    let faults = mailbox_faults(recipients);
    the_first_bad_recipient_is_named(recipients, faults);
    assert forall|i: int| 0 <= i < recipients.len() implies #[trigger] faults[i] == mailbox_fault(
        recipients[i],
    ) by {}
    if forall|i: int| 0 <= i < faults.len() ==> #[trigger] faults[i] is None {
        assert forall|i: int| 0 <= i < recipients.len() implies mailbox_fault(
            #[trigger] recipients[i],
        ) is None by {
            assert(faults[i] is None);
        }
    } else {
        let found = first_recipient_fault(recipients, faults)->0;
        let i = choose|i: int|
            {
                &&& 0 <= i < faults.len()
                &&& #[trigger] faults[i] is Some
                &&& found == (MailFault::InvalidRecipient {
                    recipient: recipients[i],
                    reason: faults[i]->0,
                })
                &&& forall|j: int| 0 <= j < i ==> #[trigger] faults[j] is None
            };
        assert(mailbox_fault(recipients[i]) is Some);
        assert forall|j: int| 0 <= j < i implies mailbox_fault(#[trigger] recipients[j]) is None by {
            assert(faults[j] is None);
        }
    }
}

/// Of the faults that are found, the sender's is told first, then that of a
/// recipient, then that of the message.
pub proof fn faults_are_told_in_order(
    sender: Seq<char>,
    sender_fault: Option<Seq<char>>,
    recipients: Seq<Seq<char>>,
    faults: Seq<Option<Seq<char>>>,
    whole: Option<Seq<char>>,
)
    ensures
        ({
            let told = mail_fault(sender, sender_fault, recipients, faults, whole);
            let first = first_recipient_fault(recipients, faults);
            &&& sender_fault matches Some(reason) ==> told == Some(
                MailFault::InvalidSender { sender, reason },
            ) && address_fault(sender, sender_fault, recipients, faults) == told
            &&& sender_fault is None ==> address_fault(sender, sender_fault, recipients, faults)
                == first
            &&& sender_fault is None && first is Some ==> told == first
            &&& sender_fault is None && first is None && whole is Some ==> told == Some(
                MailFault::NoMessage { reason: whole->0 },
            )
            &&& sender_fault is None && first is None && whole is None ==> told is None
        }),
{
}

/// A store holds what its file holds, and nothing where that is missing or no
/// map.
pub proof fn stores_hold_what_their_file_holds(text: Seq<char>, repo: Seq<char>)
    ensures
        loaded(None) == Map::<Seq<char>, Seq<char>>::empty(),
        json_string_map(text) is None ==> loaded(Some(text)) == Map::<
            Seq<char>,
            Seq<char>,
        >::empty(),
        json_string_map(text) matches Some(m) ==> loaded(Some(text)) == m,
{
}

/// Of several entries with the same key the last one counts, and there is nothing
/// behind other keys.
pub proof fn later_entries_count(entries: Seq<(String, String)>, key: Seq<char>)
    ensures
        map_of(entries).contains_key(key) <==> exists|i: int|
            0 <= i < entries.len() && (#[trigger] entries[i]).0@ == key,
        map_of(entries).contains_key(key) ==> exists|i: int|
            {
                &&& 0 <= i < entries.len()
                &&& (#[trigger] entries[i]).0@ == key
                &&& map_of(entries)[key] == entries[i].1
                &&& text_map(map_of(entries))[key] == entries[i].1@
                &&& forall|j: int| i < j < entries.len() ==> (#[trigger] entries[j]).0@ != key
            },
        text_map(map_of(entries)).contains_key(key) == map_of(entries).contains_key(key),
    decreases entries.len(),
{
    if entries.len() > 0 {
        let init = entries.drop_last();
        let n = entries.len() - 1;
        later_entries_count(init, key);
        assert(entries[n] == entries.last());
        assert(forall|i: int| 0 <= i < n ==> init[i] == #[trigger] entries[i]);
        if entries[n].0@ != key && map_of(init).contains_key(key) {
            let i = choose|i: int|
                {
                    &&& 0 <= i < init.len()
                    &&& (#[trigger] init[i]).0@ == key
                    &&& map_of(init)[key] == init[i].1
                    &&& text_map(map_of(init))[key] == init[i].1@
                    &&& forall|j: int| i < j < init.len() ==> (#[trigger] init[j]).0@ != key
                };
            assert(entries[i].0@ == key);
            assert forall|j: int| i < j < entries.len() implies (#[trigger] entries[j]).0@ != key by {
                if j < n {
                    assert(init[j] == entries[j]);
                }
            }
        }
        if exists|i: int| 0 <= i < entries.len() && (#[trigger] entries[i]).0@ == key {
            let i = choose|i: int| 0 <= i < entries.len() && (#[trigger] entries[i]).0@ == key;
            if i < n {
                assert(init[i].0@ == key);
            }
        }
    }
}

/// After an edit each field stands in the document with the value that the edit
/// gives it: lists whole, numbers and texts as they are. The schedule is there
/// exactly if the edit has one.
pub proof fn fields_stand_as_the_edit_gives_them(
    before: Map<Option<Seq<char>>, TomlTable>,
    after: Map<Option<Seq<char>>, TomlTable>,
    edit: ConfigEdit,
)
    requires
        edited_from(before, after, edit),
    ensures
        after.contains_key(None),
        edit.poll_interval_seconds <= 0x7fff_ffff_ffff_ffff ==> has_data(
            after[None].entries,
            "poll_interval_seconds"@,
            TomlData::Integer(edit.poll_interval_seconds as int),
        ),
        edit.poll_interval_seconds > 0x7fff_ffff_ffff_ffff ==> has_data(
            after[None].entries,
            "poll_interval_seconds"@,
            TomlData::Integer(edit.poll_interval_seconds - 0x1_0000_0000_0000_0000),
        ),
        has_data(after[None].entries, "sender"@, TomlData::Text(edit.sender@)),
        has_data(
            after[None].entries,
            "recipients"@,
            TomlData::Texts(edit.recipients@.map_values(|t: String| t@)),
        ),
        has_data(
            after[None].entries,
            "repos"@,
            TomlData::Texts(edit.repos@.map_values(|t: String| t@)),
        ),
        edit.cron_expression matches Some(expr) ==> has_data(
            after[None].entries,
            "cron_expression"@,
            TomlData::Text(expr@),
        ),
        edit.cron_expression is None ==> !has_key(after[None].entries, "cron_expression"@)
            && !after.contains_key(Some("cron_expression"@)),
        after.contains_key(Some("smtp"@)),
        has_data(after[Some("smtp"@)].entries, "host"@, TomlData::Text(edit.smtp_host@)),
        has_data(after[Some("smtp"@)].entries, "port"@, TomlData::Integer(edit.smtp_port as int)),
        has_data(
            after[Some("smtp"@)].entries,
            "encryption"@,
            TomlData::Text(
                match edit.smtp_encryption {
                    Encryption::StartTls => "starttls"@,
                    Encryption::Tls => "tls"@,
                    Encryption::Plain => "none"@,
                },
            ),
        ),
        has_data(after[Some("smtp"@)].entries, "username"@, TomlData::Text(edit.smtp_username@)),
        edit.smtp_password matches Some(password) ==> password@.len() > 0 ==> has_data(
            after[Some("smtp"@)].entries,
            "password"@,
            TomlData::Text(password@),
        ),
        edit.admin_token matches Some(token) ==> after.contains_key(Some("ui"@)) && has_data(
            after[Some("ui"@)].entries,
            "admin_token"@,
            TomlData::Text(token@),
        ),
{
    let all = edit.changes();
    let fixed = edit.fixed_changes();
    let cron = edit.cron_change();
    let password = edit.password_change();
    let token = edit.token_change();
    assert(all[0] == fixed[0] && all[1] == fixed[1] && all[2] == fixed[2] && all[3] == fixed[3]);
    assert(all[4] == fixed[4] && all[5] == fixed[5] && all[6] == fixed[6] && all[7] == fixed[7]);
    if edit.cron_expression is Some {
        assert(all[8] == cron[0]);
    }
    if edit.sets_password() {
        assert(all[8 + cron.len() as int] == password[0]);
    }
    if edit.admin_token is Some {
        assert(all[8 + cron.len() + password.len() as int] == token[0]);
    }
}

/// The keys that an edit sets: four at the top of the document and four of the
/// mail server always, and the schedule, the password and the token where the
/// edit has them, an empty password not counted. The schedule is touched in any
/// case, and no other key is.
pub proof fn edits_touch_these_keys_alone(
    edit: ConfigEdit,
    table: Option<Seq<char>>,
    key: Seq<char>,
)
    ensures
        edit.sets(table, key) <==> {
            ||| table is None && (key == "poll_interval_seconds"@ || key == "sender"@ || key
                == "recipients"@ || key == "repos"@)
            ||| table == Some("smtp"@) && (key == "host"@ || key == "port"@ || key
                == "encryption"@ || key == "username"@)
            ||| table is None && key == "cron_expression"@ && edit.cron_expression is Some
            ||| table == Some("smtp"@) && key == "password"@ && edit.smtp_password is Some
                && edit.smtp_password->0@.len() > 0
            ||| table == Some("ui"@) && key == "admin_token"@ && edit.admin_token is Some
        },
        edit.touches(table, key) <==> edit.sets(table, key) || (table is None && key
            == "cron_expression"@),
        overwritten(edit, table) <==> table is Some && edit.touches(None, table->0),
        is_written(edit, table) <==> table == Some("smtp"@) || (table == Some("ui"@)
            && edit.admin_token is Some),
{
    let all = edit.changes();
    let fixed = edit.fixed_changes();
    let cron = edit.cron_change();
    let password = edit.password_change();
    let token = edit.token_change();
    let n = 8 + cron.len() + password.len();
    assert(all.len() == n + token.len());
    assert(forall|i: int| 0 <= i < 8 ==> #[trigger] all[i] == fixed[i]);
    assert(all[0] == fixed[0] && all[1] == fixed[1] && all[2] == fixed[2] && all[3] == fixed[3]);
    assert(all[4] == fixed[4] && all[5] == fixed[5] && all[6] == fixed[6] && all[7] == fixed[7]);
    if edit.cron_expression is Some {
        assert(all[8] == cron[0]);
    }
    if edit.sets_password() {
        assert(all[8 + cron.len() as int] == password[0]);
    }
    if edit.admin_token is Some {
        assert(all[n as int] == token[0]);
    }
    if edit.sets(table, key) {
        let i = choose|i: int|
            0 <= i < all.len() && (#[trigger] all[i]).table == table && all[i].key == key;
        if i < 8 {
            assert(i == 0 || i == 1 || i == 2 || i == 3 || i == 4 || i == 5 || i == 6 || i == 7);
        }
    }
}

/// A table comes about in an edit only where the edit writes to it: that of the
/// mail server, and that of the web interface where the edit has a token. Then it
/// has no comments, and holds nothing but what the edit sets. Every table that
/// was there is there, unless a value takes its place.
pub proof fn tables_come_about_where_needed(
    before: Map<Option<Seq<char>>, TomlTable>,
    after: Map<Option<Seq<char>>, TomlTable>,
    edit: ConfigEdit,
    table: Option<Seq<char>>,
    i: int,
)
    requires
        edited_from(before, after, edit),
        are_tables(after),
    ensures
        after.contains_key(table) && !before.contains_key(table) ==> {
            &&& table == Some("smtp"@) || (table == Some("ui"@) && edit.admin_token is Some)
            &&& after[table].before.len() == 0
            &&& after[table].after.len() == 0
            &&& 0 <= i < after[table].entries.len() ==> edit.sets(table, after[table].entries[i].key)
                && after[table].entries[i].before.len() == 0 && after[table].entries[i].after.len()
                == 0
        },
        before.contains_key(table) && !(table is Some && edit.touches(None, table->0))
            ==> after.contains_key(table),
{
    if after.contains_key(table) && !before.contains_key(table) && 0 <= i
        < after[table].entries.len() {
        assert(is_flat(before, edit, table));
        new_keys_come_last(before, after, edit, table, i);
        assert(kept_entries(before, edit, table) =~= Seq::<TomlEntry>::empty());
        new_entries_are_bare(kept_entries(before, edit, table), edit.changes(), table);
        let e = after[table].entries[i];
        assert(contents(after[table].entries)[i] == content(e));
    }
}

proof fn new_entries_are_bare(
    entries: Seq<TomlEntry>,
    changes: Seq<ChangeView>,
    table: Option<Seq<char>>,
)
    ensures
        with_changes(entries, changes, table).len() >= entries.len(),
        forall|i: int|
            entries.len() <= i < with_changes(entries, changes, table).len() ==> {
                let e = #[trigger] with_changes(entries, changes, table)[i];
                e.before.len() == 0 && e.after.len() == 0
            },
    decreases changes.len(),
{
    if changes.len() > 0 {
        new_entries_are_bare(entries, changes.drop_last(), table);
        let init = with_changes(entries, changes.drop_last(), table);
        let c = changes.last();
        if has_key(init, c.key) {
            let at = choose|at: int| key_at(init, c.key, at);
            assert(init.update(at, TomlEntry { data: c.data, ..init[at] })[at].before
                == init[at].before);
        }
    }
}

/// New keys come without comments, behind those that were there, where the table
/// holds values only and, at the top of the document, no table has the name of a
/// key that the edit touches.
pub proof fn new_keys_have_no_comments(
    before: Map<Option<Seq<char>>, TomlTable>,
    after: Map<Option<Seq<char>>, TomlTable>,
    edit: ConfigEdit,
    table: Option<Seq<char>>,
    i: int,
)
    requires
        edited_from(before, after, edit),
        after.contains_key(table),
        forall|j: int|
            0 <= j < entries_in(before, table).len() ==> (#[trigger] entries_in(
                before,
                table,
            )[j]).data.is_value(),
        table is None ==> forall|name: Seq<char>| #[trigger]
            before.contains_key(Some(name)) ==> !edit.touches(None, name),
        kept_entries(before, edit, table).len() <= i < after[table].entries.len(),
    ensures
        edit.sets(table, after[table].entries[i].key),
        !has_key(kept_entries(before, edit, table), after[table].entries[i].key),
        after[table].entries[i].before.len() == 0,
        after[table].entries[i].after.len() == 0,
{
    assert(is_flat(before, edit, table));
    new_keys_come_last(before, after, edit, table, i);
    new_entries_are_bare(kept_entries(before, edit, table), edit.changes(), table);
    let e = after[table].entries[i];
    assert(contents(after[table].entries)[i] == content(e));
}

/// The entries that an edit starts from are those of the table, in their order;
/// at the top of the document the schedule is left out where the edit has none.
pub proof fn edits_start_from_what_is_there(
    tables: Map<Option<Seq<char>>, TomlTable>,
    edit: ConfigEdit,
    table: Option<Seq<char>>,
    key: Seq<char>,
)
    ensures
        tables.contains_key(table) ==> entries_in(tables, table) == tables[table].entries,
        !tables.contains_key(table) ==> entries_in(tables, table).len() == 0,
        !(table is None && edit.cron_expression is None) ==> {
            &&& kept_entries(tables, edit, table).len() == entries_in(tables, table).len()
            &&& forall|i: int|
                0 <= i < entries_in(tables, table).len() ==> {
                    let e = #[trigger] kept_entries(tables, edit, table)[i];
                    let old_entry = entries_in(tables, table)[i];
                    &&& e.key == old_entry.key
                    &&& e.data == old_entry.data
                    &&& e.before == old_entry.before
                    &&& e.after == old_entry.after
                }
        },
        table is None && edit.cron_expression is None ==> {
            &&& key != "cron_expression"@ ==> has_key(kept_entries(tables, edit, table), key)
                == has_key(entries_in(tables, table), key)
            &&& !has_key(kept_entries(tables, edit, table), "cron_expression"@)
        },
{
    let held = contents(entries_in(tables, table));
    without_lacks(held, "cron_expression"@);
    if key != "cron_expression"@ {
        without_keeps(held, "cron_expression"@, key);
    }
    contents_have_keys(entries_in(tables, table), key);
}

/// A key is among entries, or holds data there, exactly if one of them has it.
pub proof fn keys_are_found_among_entries(
    entries: Seq<TomlEntry>,
    key: Seq<char>,
    data: TomlData,
)
    ensures
        has_key(entries, key) <==> exists|i: int|
            0 <= i < entries.len() && (#[trigger] entries[i]).key == key,
        has_data(entries, key, data) <==> exists|i: int|
            0 <= i < entries.len() && (#[trigger] entries[i]).key == key && entries[i].data == data,
{
    if exists|i: int| 0 <= i < entries.len() && (#[trigger] entries[i]).key == key {
        let i = choose|i: int| 0 <= i < entries.len() && (#[trigger] entries[i]).key == key;
        assert(key_at(entries, key, i));
    }
    if has_key(entries, key) {
        let i = choose|i: int| key_at(entries, key, i);
        assert(entries[i].key == key);
    }
    if exists|i: int|
        0 <= i < entries.len() && (#[trigger] entries[i]).key == key && entries[i].data == data {
        let i = choose|i: int|
            0 <= i < entries.len() && (#[trigger] entries[i]).key == key && entries[i].data == data;
        assert(key_at(entries, key, i) && entries[i].data == data);
    }
}

/// A poll interval is written as it is, as far as the numbers of the file reach.
pub proof fn intervals_are_written_as_they_are(interval: u64)
    ensures
        interval <= 0x7fff_ffff_ffff_ffff ==> signed_seconds(interval) == interval,
        interval > 0x7fff_ffff_ffff_ffff ==> signed_seconds(interval) < 0,
{
}

/// An edit with any of the fields that are not for editing is refused, and the
/// first of them is named; one without them is not.
pub proof fn read_only_fields_are_named(edit: ConfigEdit)
    ensures
        edit.read_only_field() is None <==> edit.state_path is None && edit.ui_bind_addr is None
            && edit.ui_port is None && edit.trust_proxy_auth is None,
        edit.state_path is Some ==> edit.read_only_field() == Some("state_path"@),
        edit.state_path is None && edit.ui_bind_addr is Some ==> edit.read_only_field() == Some(
            "ui.bind_addr"@,
        ),
        edit.state_path is None && edit.ui_bind_addr is None && edit.ui_port is Some
            ==> edit.read_only_field() == Some("ui.port"@),
        edit.state_path is None && edit.ui_bind_addr is None && edit.ui_port is None
            && edit.trust_proxy_auth is Some ==> edit.read_only_field() == Some(
            "ui.trust_proxy_auth"@,
        ),
{
}

/// A file that may not be written is told apart from other failures, and either
/// is told with what was tried and why it failed. Each has its status.
pub proof fn failed_saves_are_told(failure: IoFailure, context: Seq<char>, m: Seq<char>)
    ensures
        failure.kind == IoKind::PermissionDenied || failure.kind == IoKind::ReadOnlyFilesystem
            ==> io_fault(failure, context) == SaveFault::Unwritable(
            context + ": "@ + failure.reason@,
        ),
        failure.kind == IoKind::Other ==> io_fault(failure, context) == SaveFault::Io(
            context + ": "@ + failure.reason@,
        ),
        fault_status(SaveFault::Unwritable(m)) == 409,
        fault_status(SaveFault::Invalid(m)) == 400,
        fault_status(SaveFault::Io(m)) == 500,
        fault_response(SaveFault::Unwritable(m)) == "config file is not writable: "@ + m,
        fault_response(SaveFault::Invalid(m)) == m,
        fault_response(SaveFault::Io(m)) == m,
{
}

/// A document cannot be edited exactly if something other than a table stands
/// under the name of a table that the edit writes to: `smtp`, and `ui` where the
/// edit has a token.
pub proof fn names_of_tables_are_for_tables(
    tables: Map<Option<Seq<char>>, TomlTable>,
    edit: ConfigEdit,
)
    ensures
        ({
            let smtp = has_key(tables[None].entries, "smtp"@) && !tables.contains_key(
                Some("smtp"@),
            );
            let ui = edit.admin_token is Some && has_key(tables[None].entries, "ui"@)
                && !tables.contains_key(Some("ui"@));
            &&& misused_name(tables, edit) is None <==> !smtp && !ui
            &&& smtp ==> misused_name(tables, edit) == Some("smtp"@)
            &&& !smtp && ui ==> misused_name(tables, edit) == Some("ui"@)
        }),
{
}

/// Two names, one in front of the other.
pub open spec fn comes_before(names: Seq<Seq<char>>, a: Seq<char>, b: Seq<char>) -> bool {
    exists|i: int, j: int| 0 <= i < j < names.len() && #[trigger] names[i] == a && #[trigger] names[j] == b
}

proof fn kept_names_are_there(names: Seq<Seq<char>>, kept: spec_fn(Seq<char>) -> bool, a: Seq<char>)
    requires
        kept(a),
    ensures
        names_where(names, kept).contains(a) == names.contains(a),
    decreases names.len(),
{
    if names.len() > 0 {
        let init = names.drop_last();
        kept_names_are_there(init, kept, a);
        let shown = names_where(names, kept);
        let shown_init = names_where(init, kept);
        if names.contains(a) {
            let i = choose|i: int| 0 <= i < names.len() && names[i] == a;
            if i < init.len() {
                assert(init[i] == a);
                let j = choose|j: int| 0 <= j < shown_init.len() && shown_init[j] == a;
                assert(shown[j] == a);
            } else {
                assert(shown[shown.len() - 1] == a);
            }
        }
        if shown.contains(a) {
            let j = choose|j: int| 0 <= j < shown.len() && shown[j] == a;
            if j < shown_init.len() {
                assert(shown_init[j] == a);
                let i = choose|i: int| 0 <= i < init.len() && init[i] == a;
                assert(names[i] == a);
            } else {
                assert(names[names.len() - 1] == a);
            }
        }
    }
}

proof fn kept_names_come_in_order(
    names: Seq<Seq<char>>,
    kept: spec_fn(Seq<char>) -> bool,
    a: Seq<char>,
    b: Seq<char>,
)
    requires
        kept(a),
        kept(b),
    ensures
        comes_before(names_where(names, kept), a, b) == comes_before(names, a, b),
    decreases names.len(),
{
    if names.len() > 0 {
        let init = names.drop_last();
        let n = names.len() - 1;
        kept_names_come_in_order(init, kept, a, b);
        kept_names_are_there(init, kept, a);
        let shown = names_where(names, kept);
        let shown_init = names_where(init, kept);
        if comes_before(names, a, b) {
            let (i, j) = choose|i: int, j: int|
                0 <= i < j < names.len() && #[trigger] names[i] == a && #[trigger] names[j] == b;
            if j < n {
                assert(init[i] == a && init[j] == b);
                let (x, y) = choose|x: int, y: int|
                    0 <= x < y < shown_init.len() && #[trigger] shown_init[x] == a
                        && #[trigger] shown_init[y] == b;
                assert(shown[x] == a && shown[y] == b);
            } else {
                assert(init[i] == a);
                let x = choose|x: int| 0 <= x < shown_init.len() && shown_init[x] == a;
                assert(shown[x] == a && shown[shown.len() - 1] == b);
            }
        }
        if comes_before(shown, a, b) {
            let (x, y) = choose|x: int, y: int|
                0 <= x < y < shown.len() && #[trigger] shown[x] == a && #[trigger] shown[y] == b;
            if y < shown_init.len() {
                assert(shown_init[x] == a && shown_init[y] == b);
                let (i, j) = choose|i: int, j: int|
                    0 <= i < j < init.len() && #[trigger] init[i] == a && #[trigger] init[j] == b;
                assert(names[i] == a && names[j] == b);
            } else {
                assert(shown_init[x] == a);
                let i = choose|i: int| 0 <= i < init.len() && init[i] == a;
                assert(names[i] == a && names[n] == b);
            }
        }
    }
}

/// Of two tables that an edit leaves, the one that came first before it comes
/// first after it, where the tables that the edit writes to hold values only.
pub proof fn tables_keep_their_order(
    before: TomlDocument,
    after: TomlDocument,
    edit: ConfigEdit,
    a: Seq<char>,
    b: Seq<char>,
)
    requires
        order_survives(before, after, edit),
        forall|i: int|
            0 <= i < entries_in(before.tables, Some("smtp"@)).len() ==> (#[trigger] entries_in(
                before.tables,
                Some("smtp"@),
            )[i]).data.is_value(),
        edit.admin_token is Some ==> forall|i: int|
            0 <= i < entries_in(before.tables, Some("ui"@)).len() ==> (#[trigger] entries_in(
                before.tables,
                Some("ui"@),
            )[i]).data.is_value(),
        before.tables.contains_key(Some(a)) && !edit.touches(None, a),
        before.tables.contains_key(Some(b)) && !edit.touches(None, b),
    ensures
        comes_before(after.order, a, b) == comes_before(before.order, a, b),
{
    let kept = stays_in(before.tables, edit);
    assert(is_flat(before.tables, edit, Some("smtp"@)));
    kept_names_come_in_order(before.order, kept, a, b);
    kept_names_come_in_order(after.order, kept, a, b);
}

/// An error stands for the fault with its texts, whatever it is.
pub proof fn errors_stand_for_their_faults(a: String, b: String, n: usize)
    ensures
        (ConfigError::Unreadable { path: a, reason: b })@ == (ConfigFault::Unreadable {
            path: a@,
            reason: b@,
        }),
        (ConfigError::Unparseable { path: a, reason: b })@ == (ConfigFault::Unparseable {
            path: a@,
            reason: b@,
        }),
        ConfigError::PollInterval@ == ConfigFault::PollInterval,
        ConfigError::NoRepos@ == ConfigFault::NoRepos,
        ConfigError::InvalidRepo(a)@ == ConfigFault::InvalidRepo(a@),
        ConfigError::NoRecipients@ == ConfigFault::NoRecipients,
        ConfigError::InvalidSender(a)@ == ConfigFault::InvalidSender(a@),
        ConfigError::InvalidRecipient(a)@ == ConfigFault::InvalidRecipient(a@),
        ConfigError::NoSmtpHost@ == ConfigFault::NoSmtpHost,
        ConfigError::SmtpPort@ == ConfigFault::SmtpPort,
        ConfigError::NoSmtpPassword@ == ConfigFault::NoSmtpPassword,
        ConfigError::CronFields(n)@ == ConfigFault::CronFields(n as nat),
        (ConfigError::InvalidCron { expr: a, reason: b })@ == (ConfigFault::InvalidCron {
            expr: a@,
            reason: b@,
        }),
        ConfigError::UiPort@ == ConfigFault::UiPort,
        ConfigError::UiBindAddr(a)@ == ConfigFault::UiBindAddr(a@),
        ConfigError::AuthModes@ == ConfigFault::AuthModes,
        ConfigError::EmptyStatePath@ == ConfigFault::EmptyStatePath,
        (MailError::InvalidSender { sender: a, reason: b })@ == (MailFault::InvalidSender {
            sender: a@,
            reason: b@,
        }),
        (MailError::InvalidRecipient { recipient: a, reason: b })@ == (
        MailFault::InvalidRecipient { recipient: a@, reason: b@ }),
        (MailError::NoMessage { reason: a })@ == (MailFault::NoMessage { reason: a@ }),
        SaveError::Unwritable(a)@ == SaveFault::Unwritable(a@),
        SaveError::Invalid(a)@ == SaveFault::Invalid(a@),
        SaveError::Io(a)@ == SaveFault::Io(a@),
{
}

/// Faults that are found one by one are those of the list, in its order.
pub proof fn faults_keep_their_places(v: Seq<Option<String>>, t: Seq<Seq<char>>)
    ensures
        opt_texts(v).len() == v.len(),
        forall|i: int| 0 <= i < v.len() ==> (#[trigger] opt_texts(v)[i] is Some <==> v[i] is Some),
        forall|i: int|
            0 <= i < v.len() && v[i] is Some ==> (#[trigger] opt_texts(v)[i])->0 == v[i]->0@,
        mailbox_faults(t).len() == t.len(),
        forall|i: int| 0 <= i < t.len() ==> #[trigger] mailbox_faults(t)[i] == mailbox_fault(t[i]),
{
}

/// A value to be written stands for its data, and a change for the table, the key
/// and the data: a path of one key leads to the top of the document, one of two
/// to a table in it.
pub proof fn changes_stand_for_their_data(change: Change, n: i64, t: String, ts: Vec<String>)
    ensures
        TomlValue::Integer(n)@ == TomlData::Integer(n as int),
        TomlValue::Text(t)@ == TomlData::Text(t@),
        TomlValue::Texts(ts)@ == TomlData::Texts(ts@.map_values(|t: String| t@)),
        change@.data == change.value@,
        change.path@.len() == 1 ==> change@.table is None && change@.key == change.path@[0]@,
        change.path@.len() == 2 ==> change@.table == Some(change.path@[0]@) && change@.key
            == change.path@[1]@,
{
}

} // verus!
