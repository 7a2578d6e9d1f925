//! What the web interface does, from what goes into it: requests, sessions,
//! logins and reports.

use vstd::prelude::*;

use axum::http::HeaderMap;

use crate::config::{AuthMode, Config, Env};
use crate::daemon_laws::token_in_use;
use crate::text::{decimal_of, split_on, stripped, trimmed};
use crate::text_laws::prefixes_are_taken_off;
use crate::time::Timestamp;
use crate::ui::auth::{
    create_outcome, decision, first_session, hex_char, hex_of, is_authorized, is_live, is_public,
    live, looked_up, noted, opt_bytes, session_cookie, session_cookie_text, session_has_end, sessions_after,
    AuthDecision, PUBLIC_ROUTES,
};
use crate::ui::handlers::{
    client_address, is_token, login_outcome, report_of, ConfigReport, LoginReply,
};
use crate::ui::headers::{header, header_values};

verus! {

/// The text of a header is that of its first value, where it is visible ASCII or
/// a tabulator throughout.
pub proof fn headers_are_read_from_their_first_value(headers: HeaderMap, name: Seq<char>)
    ensures
        ({
            let values = header_values(headers);
            let readable = values.contains_key(name) && values[name].len() > 0 && forall|i: int|
                0 <= i < values[name][0].len() ==> 32 <= #[trigger] values[name][0][i] <= 126
                    || values[name][0][i] == 9;
            &&& header(headers, name) is Some <==> readable
            &&& readable ==> {
                let text = header(headers, name)->0;
                &&& text.len() == values[name][0].len()
                &&& forall|i: int| 0 <= i < text.len() ==> #[trigger] text[i] == values[name][0][i] as char
            }
        }),
{
}

/// Five paths need no authorization: the page, its two files, the login and the
/// health check.
pub proof fn five_paths_are_public(path: Seq<char>)
    ensures
        is_public(path) <==> path == "/"@ || path == "/app.js"@ || path == "/pico.css"@ || path
            == "/login"@ || path == "/healthz"@,
{
    let routes = PUBLIC_ROUTES;
    assert(routes@[0]@ == "/"@);
    assert(routes@[1]@ == "/app.js"@);
    assert(routes@[2]@ == "/pico.css"@);
    assert(routes@[3]@ == "/login"@);
    assert(routes@[4]@ == "/healthz"@);
    if is_public(path) {
        let i = choose|i: int| 0 <= i < 5 && (#[trigger] PUBLIC_ROUTES@[i])@ == path;
        assert(i == 0 || i == 1 || i == 2 || i == 3 || i == 4);
    }
}

/// Whether a request is let in: behind a trusted proxy by the user that the proxy
/// names, and otherwise by an open session or the token, or without either where
/// there is no token.
pub open spec fn is_let_in(
    headers: HeaderMap,
    cfg: Config,
    env: Env,
    sessions: Map<Seq<char>, Timestamp>,
    now: Timestamp,
) -> bool {
    if cfg.ui.trust_proxy_auth {
        header(headers, "remote-user"@) is Some && header(headers, "remote-user"@)->0.len() > 0
    } else {
        ||| token_in_use(cfg, env).len() == 0
        ||| header(headers, "authorization"@) == Some("Bearer "@ + token_in_use(cfg, env))
        ||| {
            &&& session_cookie(headers) is Some
            &&& sessions.contains_key(session_cookie(headers)->0)
            &&& sessions[session_cookie(headers)->0]@ > now@
        }
    }
}

/// A request is authorized exactly if it is let in by proxy, session or token, or
/// there is nothing to ask for.
pub proof fn requests_are_let_in(
    headers: HeaderMap,
    cfg: Config,
    env: Env,
    sessions: Map<Seq<char>, Timestamp>,
    now: Timestamp,
)
    ensures
        is_authorized(headers, cfg, env, sessions, now) <==> is_let_in(
            headers,
            cfg,
            env,
            sessions,
            now,
        ),
{
    if header(headers, "authorization"@) is Some {
        prefixes_are_taken_off(
            header(headers, "authorization"@)->0,
            "Bearer "@,
            token_in_use(cfg, env),
        );
    }
}

/// What becomes of a request. To a public path it goes on. Otherwise it has to be
/// let in; and then it goes on exactly if it is a GET or carries the header
/// `X-Requested-With: gh-release-notify`, in whatever way it was let in.
pub proof fn requests_are_decided_on(
    path: Seq<char>,
    is_get: bool,
    headers: HeaderMap,
    cfg: Config,
    env: Env,
    sessions: Map<Seq<char>, Timestamp>,
    now: Timestamp,
)
    ensures
        ({
            let made = decision(path, is_get, headers, cfg, env, sessions, now);
            let public = path == "/"@ || path == "/app.js"@ || path == "/pico.css"@ || path
                == "/login"@ || path == "/healthz"@;
            let let_in = is_let_in(headers, cfg, env, sessions, now);
            let asked = header(headers, "x-requested-with"@) == Some("gh-release-notify"@);
            &&& public ==> made == AuthDecision::Pass
            &&& !public && !let_in ==> made == AuthDecision::Unauthorized
            &&& !public && let_in && (is_get || asked) ==> made == AuthDecision::Pass
            &&& !public && let_in && !is_get && !asked ==> made == AuthDecision::MissingHeader
        }),
{
    five_paths_are_public(path);
    requests_are_let_in(headers, cfg, env, sessions, now);
}

/// A request leaves the sessions as they are, but for the one that it names: that
/// is dropped exactly if it has expired and was looked up, which it is where the
/// path is not public, no proxy is trusted and there is a token.
pub proof fn requests_drop_expired_sessions_alone(
    path: Seq<char>,
    headers: HeaderMap,
    cfg: Config,
    env: Env,
    sessions: Map<Seq<char>, Timestamp>,
    now: Timestamp,
)
    ensures
        ({
            let after = sessions_after(path, headers, cfg, env, sessions, now);
            let public = path == "/"@ || path == "/app.js"@ || path == "/pico.css"@ || path
                == "/login"@ || path == "/healthz"@;
            let asked = !public && !cfg.ui.trust_proxy_auth && token_in_use(cfg, env).len() > 0;
            let id = session_cookie(headers);
            &&& asked && id is Some && sessions.contains_key(id->0) && sessions[id->0]@ <= now@
                ==> after == sessions.remove(id->0)
            &&& !(asked && id is Some && sessions.contains_key(id->0) && sessions[id->0]@ <= now@)
                ==> after == sessions
        }),
{
    five_paths_are_public(path);
    let after = sessions_after(path, headers, cfg, env, sessions, now);
    if let Some(id) = session_cookie(headers) {
        if !sessions.contains_key(id) {
            assert(sessions.remove(id) =~= sessions);
        }
    }
}

/// The session that a list of cookies names is what stands behind `grn_session=`
/// in the first of them that starts with it, white space around it aside; where
/// none does, there is none.
pub proof fn the_first_session_cookie_counts(parts: Seq<Seq<char>>)
    ensures
        first_session(parts) matches Some(id) ==> exists|i: int|
            {
                &&& 0 <= i < parts.len()
                &&& trimmed(#[trigger] parts[i]) == "grn_session="@ + id
                &&& forall|j: int, other: Seq<char>|
                    0 <= j < i ==> trimmed(#[trigger] parts[j]) != #[trigger] ("grn_session="@
                        + other)
            },
        first_session(parts) is None <==> forall|i: int, other: Seq<char>|
            0 <= i < parts.len() ==> trimmed(#[trigger] parts[i]) != #[trigger] ("grn_session="@
                + other),
    decreases parts.len(),
{
    if parts.len() > 0 {
        let rest = parts.drop_first();
        let first = trimmed(parts[0]);
        the_first_session_cookie_counts(rest);
        assert forall|other: Seq<char>|
            stripped(first, "grn_session="@) is None implies first != #[trigger] ("grn_session="@
            + other) by {
            prefixes_are_taken_off(first, "grn_session="@, other);
        }
        if stripped(first, "grn_session="@) is Some {
            let id = stripped(first, "grn_session="@)->0;
            prefixes_are_taken_off(first, "grn_session="@, id);
            assert(trimmed(parts[0]) == "grn_session="@ + id);
        } else if first_session(rest) is Some {
            let id = first_session(rest)->0;
            let i = choose|i: int|
                {
                    &&& 0 <= i < rest.len()
                    &&& trimmed(#[trigger] rest[i]) == "grn_session="@ + id
                    &&& forall|j: int, other: Seq<char>|
                        0 <= j < i ==> trimmed(#[trigger] rest[j]) != #[trigger] ("grn_session="@
                            + other)
                };
            assert(parts[i + 1] == rest[i]);
            assert forall|j: int, other: Seq<char>| 0 <= j < i + 1 implies trimmed(
                #[trigger] parts[j],
            ) != #[trigger] ("grn_session="@ + other) by {
                if j > 0 {
                    assert(parts[j] == rest[j - 1]);
                }
            }
            assert(trimmed(parts[i + 1]) == "grn_session="@ + id);
        } else {
            assert forall|i: int, other: Seq<char>| 0 <= i < parts.len() implies trimmed(
                #[trigger] parts[i],
            ) != #[trigger] ("grn_session="@ + other) by {
                if i > 0 {
                    assert(parts[i] == rest[i - 1]);
                }
            }
        }
    }
}

/// A request names a session in its cookies, which semicolons separate.
pub proof fn sessions_are_named_in_cookies(headers: HeaderMap)
    ensures
        header(headers, "cookie"@) is None ==> session_cookie(headers) is None,
        header(headers, "cookie"@) matches Some(raw) ==> session_cookie(headers) == first_session(
            split_on(raw, ';'),
        ),
{
}

/// A cookie names its session, is kept from scripts and other sites, holds for
/// the whole interface and for twelve hours, and for HTTPS alone where that is
/// asked.
pub proof fn cookies_are_guarded(session: Seq<char>)
    ensures
        session_cookie_text(session, false) == "grn_session="@ + session
            + "; HttpOnly; SameSite=Strict; Path=/; Max-Age="@ + "43200"@,
        session_cookie_text(session, true) == "grn_session="@ + session
            + "; HttpOnly; SameSite=Strict; Path=/; Max-Age="@ + "43200"@ + "; Secure"@,
{
    reveal_strlit("43200");
    reveal_with_fuel(decimal_of, 6);
    assert(decimal_of(43200) =~= "43200"@);
}

/// Two hexadecimal digits stand for each byte, the higher one in front.
pub proof fn bytes_have_two_digits_each(bytes: Seq<u8>, i: int)
    requires
        0 <= i < bytes.len(),
    ensures
        hex_of(bytes).len() == 2 * bytes.len(),
        hex_of(bytes)[2 * i] == digit_of(bytes[i] as nat / 16),
        hex_of(bytes)[2 * i + 1] == digit_of(bytes[i] as nat % 16),
    decreases bytes.len(),
{
    let init = bytes.drop_last();
    hex_len(init);
    if i < init.len() {
        bytes_have_two_digits_each(init, i);
        assert(init[i] == bytes[i]);
    } else {
        assert(bytes[i] == bytes.last());
    }
    digits_are_hexadecimal(bytes[i] as nat / 16);
    digits_are_hexadecimal(bytes[i] as nat % 16);
}

/// The digits from zero to nine and from a to f.
pub open spec fn digit_of(d: nat) -> char {
    "0123456789abcdef"@[d as int]
}

/// A hexadecimal digit is the character at its place among the sixteen.
pub proof fn digits_are_hexadecimal(d: nat)
    requires
        d < 16,
    ensures
        hex_char(d) == digit_of(d),
{
    reveal_strlit("0123456789abcdef");
    assert(d == 0 || d == 1 || d == 2 || d == 3 || d == 4 || d == 5 || d == 6 || d == 7 || d == 8 || d
        == 9 || d == 10 || d == 11 || d == 12 || d == 13 || d == 14 || d == 15);
}

proof fn hex_len(bytes: Seq<u8>)
    ensures
        hex_of(bytes).len() == 2 * bytes.len(),
    decreases bytes.len(),
{
    if bytes.len() > 0 {
        hex_len(bytes.drop_last());
    }
}

/// Random bytes make a session, unless it would outlast the calendar: its name is
/// theirs, it is open at once and for twelve hours to the nanosecond, and those
/// that are open stay as they are while the expired ones go. Without random bytes
/// no session is made, and nothing changes.
pub proof fn sessions_are_made_of_random_bytes(
    sessions: Map<Seq<char>, Timestamp>,
    bytes: Seq<u8>,
    now: Timestamp,
    other: Seq<char>,
)
    requires
        now.valid(),
    ensures
        create_outcome(sessions, None, now) == (Seq::<char>::empty(), sessions),
        now.secs > 8_210_266_876_799 - 43_200 ==> create_outcome(sessions, Some(bytes), now) == (
            Seq::<char>::empty(),
            sessions,
        ),
        now.secs <= 8_210_266_876_799 - 43_200 ==> {
            let (id, after) = create_outcome(sessions, Some(bytes), now);
            &&& id == hex_of(bytes)
            &&& after.contains_key(id)
            &&& after[id]@ == now@ + 43_200 * 1_000_000_000
            &&& after[id].valid()
            &&& after[id]@ > now@
            &&& other != id ==> {
                &&& after.contains_key(other) <==> sessions.contains_key(other)
                    && sessions[other]@ > now@
                &&& after.contains_key(other) ==> after[other] == sessions[other]
            }
        },
        session_has_end(now) <==> now.secs <= 8_210_266_876_799 - 43_200,
{
}

/// A session is open as long as its end has not come. Looking it up changes
/// nothing then; otherwise it is gone, and the others are as they were.
pub proof fn sessions_are_looked_up(
    sessions: Map<Seq<char>, Timestamp>,
    id: Seq<char>,
    now: Timestamp,
)
    ensures
        is_live(sessions, id, now) <==> sessions.contains_key(id) && now@ < sessions[id]@,
        is_live(sessions, id, now) ==> looked_up(sessions, id, now) == sessions,
        !is_live(sessions, id, now) ==> looked_up(sessions, id, now) == sessions.remove(id),
        forall|other: Seq<char>| #[trigger]
            live(sessions, now).contains_key(other) <==> is_live(sessions, other, now),
        forall|other: Seq<char>| #[trigger]
            live(sessions, now).contains_key(other) ==> live(sessions, now)[other]
                == sessions[other],
{
}

/// An attempt to log in counts one more than those before it, as long as the
/// first of them was no more than a minute ago; otherwise the count starts anew.
pub proof fn attempts_are_counted(
    attempts: Map<Seq<char>, (u32, Timestamp)>,
    ip: Seq<char>,
    now: Timestamp,
)
    ensures
        !attempts.contains_key(ip) ==> noted(attempts, ip, now) == (1u32, now),
        attempts.contains_key(ip) && now@ > attempts[ip].1@ + 60 * 1_000_000_000 ==> noted(
            attempts,
            ip,
            now,
        ) == (1u32, now),
        attempts.contains_key(ip) && now@ <= attempts[ip].1@ + 60 * 1_000_000_000 ==> {
            &&& noted(attempts, ip, now).1 == attempts[ip].1
            &&& attempts[ip].0 < 0xffff_ffff ==> noted(attempts, ip, now).0 == attempts[ip].0 + 1
            &&& attempts[ip].0 == 0xffff_ffff ==> noted(attempts, ip, now).0 == attempts[ip].0
        },
{
}

/// A login comes from the first address that the proxies name, white space around
/// it aside, or from an unknown one.
pub proof fn logins_come_from_the_first_address(headers: HeaderMap)
    ensures
        header(headers, "x-forwarded-for"@) is None ==> client_address(headers) == "unknown"@,
        header(headers, "x-forwarded-for"@) matches Some(list) ==> client_address(headers)
            == trimmed(split_on(list, ',')[0]),
{
}

/// The right token is the one in use; without one none is right.
pub proof fn only_the_token_in_use_is_right(cfg: Config, env: Env, presented: Seq<char>)
    ensures
        is_token(cfg, env, presented) <==> presented == token_in_use(cfg, env) && presented.len()
            > 0,
{
}

/// What a login comes to. The sixth attempt from an address within a minute, and
/// any later one, is refused for that, whatever the token is; before that a wrong
/// token is refused, and the right one opens a session, whose cookie is handed
/// out, and has the attempts forgotten. A refused login makes no session and is
/// counted; other addresses are not concerned.
pub proof fn logins_are_answered(
    headers: HeaderMap,
    right: bool,
    attempts: Map<Seq<char>, (u32, Timestamp)>,
    sessions: Map<Seq<char>, Timestamp>,
    attempts_after: Map<Seq<char>, (u32, Timestamp)>,
    sessions_then: Map<Seq<char>, Timestamp>,
    entropy: Option<Seq<u8>>,
    now: Timestamp,
    reply: LoginReply,
    other: Seq<char>,
)
    requires
        now.valid(),
        login_outcome(
            headers,
            right,
            (attempts, sessions),
            (attempts_after, sessions_then),
            entropy,
            now,
            reply,
        ),
    ensures
        ({
            let ip = client_address(headers);
            let counted = attempts.contains_key(ip) && now@ <= attempts[ip].1@ + 60 * 1_000_000_000;
            let too_many = counted && attempts[ip].0 >= 5;
            let secure = header(headers, "x-forwarded-proto"@) == Some("https"@);
            &&& reply is TooManyAttempts <==> too_many
            &&& reply is Unauthorized <==> !too_many && !right
            &&& reply is LoggedIn <==> !too_many && right
            &&& !(reply is LoggedIn) ==> {
                &&& sessions_then == sessions
                &&& attempts_after.contains_key(ip)
                &&& !counted ==> attempts_after[ip] == (1u32, now)
                &&& counted ==> attempts_after[ip].1 == attempts[ip].1 && attempts_after[ip].0
                    >= attempts[ip].0
                &&& counted && attempts[ip].0 < 0xffff_ffff ==> attempts_after[ip].0
                    == attempts[ip].0 + 1
            }
            &&& reply is LoggedIn ==> {
                &&& !attempts_after.contains_key(ip)
                &&& sessions_then == create_outcome(sessions, entropy, now).1
                &&& reply->LoggedIn_0@ == "grn_session="@ + create_outcome(
                    sessions,
                    entropy,
                    now,
                ).0 + "; HttpOnly; SameSite=Strict; Path=/; Max-Age="@ + "43200"@ + if secure {
                    "; Secure"@
                } else {
                    Seq::empty()
                }
            }
            &&& other != ip ==> {
                &&& attempts_after.contains_key(other) <==> attempts.contains_key(other)
                &&& attempts.contains_key(other) ==> attempts_after[other] == attempts[other]
            }
        }),
{
    let made = create_outcome(sessions, entropy, now).0;
    cookies_are_guarded(made);
    if reply is LoggedIn {
        let plain = session_cookie_text(made, false);
        assert(plain + Seq::<char>::empty() =~= plain);
    }
}

/// Who presents the right token before the sixth attempt is let in from then on:
/// the session is open, and the cookie names it.
pub proof fn logins_open_a_session(
    headers: HeaderMap,
    attempts: Map<Seq<char>, (u32, Timestamp)>,
    sessions: Map<Seq<char>, Timestamp>,
    attempts_after: Map<Seq<char>, (u32, Timestamp)>,
    sessions_then: Map<Seq<char>, Timestamp>,
    bytes: Seq<u8>,
    now: Timestamp,
    reply: LoginReply,
    later: Timestamp,
)
    requires
        now.valid(),
        now.secs <= 8_210_266_876_799 - 43_200,
        login_outcome(
            headers,
            true,
            (attempts, sessions),
            (attempts_after, sessions_then),
            Some(bytes),
            now,
            reply,
        ),
        !attempts.contains_key(client_address(headers)),
    ensures
        reply is LoggedIn,
        ("grn_session="@ + hex_of(bytes)).is_prefix_of(reply->LoggedIn_0@),
        is_live(sessions_then, hex_of(bytes), later) <==> later@ < now@ + 43_200 * 1_000_000_000,
{
    let start = "grn_session="@ + hex_of(bytes);
    let cookie = reply->LoggedIn_0@;
    assert(start =~= cookie.subrange(0, start.len() as int));
}

/// The report on a configuration shows every setting as it is, and of each secret
/// only whether it is set, or set by the environment.
pub proof fn reports_show_the_configuration(cfg: Config, env: Env, writable: bool)
    ensures
        ({
            let r = report_of(cfg, env, writable);
            &&& r.poll_interval_seconds == cfg.poll_interval_seconds
            &&& r.cron_expression is Some <==> cfg.cron_expression is Some
            &&& cfg.cron_expression is Some ==> r.cron_expression->0 == cfg.cron_expression->0@
            &&& r.sender == cfg.sender@
            &&& r.repos == cfg.repos@.map_values(|t: String| t@)
            &&& r.recipients == cfg.recipients@.map_values(|t: String| t@)
            &&& r.smtp_host == cfg.smtp.host@
            &&& r.smtp_port == cfg.smtp.port
            &&& r.smtp_encryption == cfg.smtp.encryption
            &&& r.smtp_username == cfg.smtp.username@
            &&& r.ui_bind_addr == cfg.ui.bind_addr@
            &&& r.ui_port == cfg.ui.port
            &&& r.admin_token_set <==> token_in_use(cfg, env).len() > 0
            &&& r.trust_proxy_auth == cfg.ui.trust_proxy_auth
            &&& r.state_path == cfg.state_path@
            &&& r.smtp_password_from_env <==> env.smtp_password is Some
            &&& r.github_token_from_env <==> env.github_token is Some
                && env.github_token->0@.len() > 0
            &&& r.config_writable == writable
            &&& r.auth_mode == AuthMode::Token <==> token_in_use(cfg, env).len() > 0
            &&& r.auth_mode == AuthMode::Proxy <==> token_in_use(cfg, env).len() == 0
                && cfg.ui.trust_proxy_auth
            &&& r.auth_mode == AuthMode::Open <==> token_in_use(cfg, env).len() == 0
                && !cfg.ui.trust_proxy_auth
        }),
{
}

/// What a report shows is what its fields hold.
pub proof fn reports_show_their_fields(r: ConfigReport)
    ensures
        r@.poll_interval_seconds == r.poll_interval_seconds,
        r@.cron_expression is Some <==> r.cron_expression is Some,
        r.cron_expression is Some ==> r@.cron_expression->0 == r.cron_expression->0@,
        r@.sender == r.sender@,
        r@.repos == r.repos@.map_values(|t: String| t@),
        r@.recipients == r.recipients@.map_values(|t: String| t@),
        r@.smtp_host == r.smtp_host@,
        r@.smtp_port == r.smtp_port,
        r@.smtp_encryption == r.smtp_encryption,
        r@.smtp_username == r.smtp_username@,
        r@.ui_bind_addr == r.ui_bind_addr@,
        r@.ui_port == r.ui_port,
        r@.admin_token_set == r.admin_token_set,
        r@.trust_proxy_auth == r.trust_proxy_auth,
        r@.state_path == r.state_path@,
        r@.smtp_password_from_env == r.smtp_password_from_env,
        r@.github_token_from_env == r.github_token_from_env,
        r@.config_writable == r.config_writable,
        r@.auth_mode == r.auth_mode,
{
}

/// Random bytes are those that came, where any came.
pub proof fn random_bytes_are_those_that_came(entropy: Option<Vec<u8>>)
    ensures
        opt_bytes(entropy) is Some <==> entropy is Some,
        entropy is Some ==> opt_bytes(entropy)->0 == entropy->0@,
{
}

} // verus!
