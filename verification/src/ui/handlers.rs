//! The answers of the web interface: login, logout, and the report on the
//! configuration.

use vstd::prelude::*;

use axum::http::HeaderMap;

use crate::config::{AuthMode, Config, Encryption, Env};
use crate::config_writeback::{fault_response, fault_status, SaveError};
use crate::state::json_string_map;
use crate::text::{
    copy_texts, opt_text, split, split_is_nonempty, split_on, texts, trim, trimmed,
};
use crate::time::{utc_now, Timestamp};
use crate::ui::auth::{
    clear_cookie_header, constant_time_eq, cookie_header, create_outcome, is_https, noted,
    opt_bytes, random_bytes, session_cookie, session_cookie_from_headers, session_cookie_text,
    LoginLimiter, Sessions,
};
use crate::ui::headers::{header, header_text};

verus! {

/// The address that a login comes from: the first one that the proxies in front
/// of the daemon name.
pub open spec fn client_address(headers: HeaderMap) -> Seq<char> {
    match header(headers, "x-forwarded-for"@) {
        Some(list) => trimmed(split_on(list, ',')[0]),
        None => "unknown"@,
    }
}

/// The address that a login comes from.
pub fn client_ip(headers: &HeaderMap) -> (r: String)
    ensures
        r@ == client_address(*headers),
{
    proof {
        reveal_strlit("x-forwarded-for");
    }
    match header_text(headers, "x-forwarded-for") {
        Some(list) => {
            let parts = split(list.as_str(), ',');
            assert(texts(parts@)[0] == parts@[0]@ && parts@.len() > 0) by {
                split_is_nonempty(list@, ',');
            }
            trim(parts[0].as_str()).to_string()
        },
        None => "unknown".to_string(),
    }
}

/// The answer to a login.
pub enum LoginReply {
    /// There were too many attempts from the address.
    TooManyAttempts,
    /// The token is not the right one, or there is none.
    Unauthorized,
    /// The cookie that names the new session.
    LoggedIn(String),
}

impl LoginReply {
    /// The HTTP status of the answer.
    pub fn status(&self) -> (r: u16)
        ensures
            r == (match *self {
                LoginReply::TooManyAttempts => 429u16,
                LoginReply::Unauthorized => 401u16,
                LoginReply::LoggedIn(_) => 200u16,
            }),
    {
        match self {
            LoginReply::TooManyAttempts => 429,
            LoginReply::Unauthorized => 401,
            LoginReply::LoggedIn(_) => 200,
        }
    }

    /// What an answer without a session says.
    pub fn error(&self) -> (r: Option<&'static str>)
        ensures
            match *self {
                LoginReply::TooManyAttempts => r is Some && r->0@ == "too many attempts"@,
                LoginReply::Unauthorized => r is Some && r->0@ == "unauthorized"@,
                LoginReply::LoggedIn(_) => r is None,
            },
    {
        match self {
            LoginReply::TooManyAttempts => Some("too many attempts"),
            LoginReply::Unauthorized => Some("unauthorized"),
            LoginReply::LoggedIn(_) => None,
        }
    }

    /// The body of the answer: a JSON object with what the answer says.
    pub fn body(&self) -> (r: &'static str)
        ensures
            r@ == (match *self {
                LoginReply::TooManyAttempts => "{\"error\":\"too many attempts\"}"@,
                LoginReply::Unauthorized => "{\"error\":\"unauthorized\"}"@,
                LoginReply::LoggedIn(_) => "{\"ok\":true}"@,
            }),
    {
        match self {
            LoginReply::TooManyAttempts => "{\"error\":\"too many attempts\"}",
            LoginReply::Unauthorized => "{\"error\":\"unauthorized\"}",
            LoginReply::LoggedIn(_) => "{\"ok\":true}",
        }
    }
}

/// Whether a token opens the web interface: there is one, and it is this.
pub open spec fn is_token(cfg: Config, env: Env, presented: Seq<char>) -> bool {
    cfg.resolved_admin_token(env).len() > 0 && presented == cfg.resolved_admin_token(env)
}

/// What a login at a point in time comes to, with the given random bytes for a
/// session.
pub open spec fn login_outcome(
    headers: HeaderMap,
    right: bool,
    before: (Map<Seq<char>, (u32, Timestamp)>, Map<Seq<char>, Timestamp>),
    after: (Map<Seq<char>, (u32, Timestamp)>, Map<Seq<char>, Timestamp>),
    entropy: Option<Seq<u8>>,
    now: Timestamp,
    reply: LoginReply,
) -> bool {
    let ip = client_address(headers);
    let attempt = noted(before.0, ip, now);
    let secure = header(headers, "x-forwarded-proto"@) == Some("https"@);
    let made = create_outcome(before.1, entropy, now);
    if attempt.0 > 5 {
        &&& reply is TooManyAttempts
        &&& after.0 == before.0.insert(ip, attempt)
        &&& after.1 == before.1
    } else if !right {
        &&& reply is Unauthorized
        &&& after.0 == before.0.insert(ip, attempt)
        &&& after.1 == before.1
    } else {
        &&& reply is LoggedIn
        &&& reply->LoggedIn_0@ == session_cookie_text(made.0, secure)
        &&& after.0 == before.0.remove(ip)
        &&& after.1 == made.1
    }
}

/// Answers a login at a given point in time, with the given random bytes for a
/// session.
pub fn login_at(
    headers: &HeaderMap,
    presented: &str,
    cfg: &Config,
    env: &Env,
    limiter: &mut LoginLimiter,
    sessions: &mut Sessions,
    entropy: Option<Vec<u8>>,
    now: &Timestamp,
) -> (r: LoginReply)
    requires
        now.valid(),
    ensures
        login_outcome(
            *headers,
            is_token(*cfg, *env, presented@),
            (old(limiter)@, old(sessions)@),
            (final(limiter)@, final(sessions)@),
            opt_bytes(entropy),
            *now,
            r,
        ),
{
    let ip = client_ip(headers);
    if !limiter.allow_at(ip.as_str(), now) {
        return LoginReply::TooManyAttempts;
    }
    let expected = cfg.admin_token(env);
    if expected.as_str().is_empty() || !constant_time_eq(presented, expected.as_str()) {
        return LoginReply::Unauthorized;
    }
    limiter.reset(ip.as_str());
    assert(limiter@ =~= old(limiter)@.remove(ip@));
    let session = sessions.create_at(entropy, now);
    LoginReply::LoggedIn(cookie_header(session.as_str(), is_https(headers)))
}

/// Answers a login now, by the system clock, with the system's random bytes.
pub fn login(
    headers: &HeaderMap,
    presented: &str,
    cfg: &Config,
    env: &Env,
    limiter: &mut LoginLimiter,
    sessions: &mut Sessions,
) -> (r: LoginReply)
    ensures
        exists|entropy: Option<Seq<u8>>, now: Timestamp|
            {
                &&& now.valid()
                &&& entropy is Some ==> entropy->0.len() == 32
                &&& #[trigger] login_outcome(
                    *headers,
                    is_token(*cfg, *env, presented@),
                    (old(limiter)@, old(sessions)@),
                    (final(limiter)@, final(sessions)@),
                    entropy,
                    now,
                    r,
                )
            },
{
    let now = utc_now();
    let entropy = random_bytes(32);
    let ghost bytes = opt_bytes(entropy);
    let reply = login_at(headers, presented, cfg, env, limiter, sessions, entropy, &now);
    assert(login_outcome(
        *headers,
        is_token(*cfg, *env, presented@),
        (old(limiter)@, old(sessions)@),
        (limiter@, sessions@),
        bytes,
        now,
        reply,
    ));
    reply
}

/// Answers a logout: ends the session that the request names, and gives the
/// cookie that takes its name back.
pub fn logout(headers: &HeaderMap, sessions: &mut Sessions) -> (r: String)
    ensures
        final(sessions)@ == (match session_cookie(*headers) {
            Some(id) => old(sessions)@.remove(id),
            None => old(sessions)@,
        }),
        r@ == "grn_session=; HttpOnly; SameSite=Strict; Path=/; Max-Age=0"@,
{
    if let Some(id) = session_cookie_from_headers(headers) {
        sessions.destroy(id.as_str());
    }
    clear_cookie_header()
}

/// Writes a JSON object with one text member: a `serde_json::Value` from a pair,
/// and its `to_string`, which does not fail. Reading the result back gives a map
/// with that member alone.
#[verifier::external_body]
fn print_member(key: &str, text: &str) -> (r: String)
    ensures
        json_string_map(r@) == Some(Map::<Seq<char>, Seq<char>>::empty().insert(key@, text@)),
{
    serde_json::Value::from_iter([(key, text)]).to_string()
}

/// The body of an answer that tells of an error: a JSON object with its message.
pub fn error_body(message: &str) -> (r: String)
    ensures
        json_string_map(r@) == Some(
            Map::<Seq<char>, Seq<char>>::empty().insert("error"@, message@),
        ),
{
    print_member("error", message)
}

/// The answer to a request to save an edit: its HTTP status and its body.
pub fn answer_save(outcome: &Result<Config, SaveError>) -> (r: (u16, String))
    ensures
        match *outcome {
            Ok(_) => r.0 == 200 && r.1@ == "{\"ok\":true}"@,
            Err(e) => r.0 == fault_status(e@) && json_string_map(r.1@) == Some(
                Map::<Seq<char>, Seq<char>>::empty().insert("error"@, fault_response(e@)),
            ),
        },
{
    match outcome {
        Ok(_) => (200, "{\"ok\":true}".to_string()),
        Err(e) => (e.status(), error_body(e.response().as_str())),
    }
}

/// What the web interface shows of the configuration. Of a secret it shows
/// whether it is set, or set by the environment.
pub struct ConfigReport {
    pub poll_interval_seconds: u64,
    pub cron_expression: Option<String>,
    pub sender: String,
    pub repos: Vec<String>,
    pub recipients: Vec<String>,
    pub smtp_host: String,
    pub smtp_port: u16,
    pub smtp_encryption: Encryption,
    pub smtp_username: String,
    pub ui_bind_addr: String,
    pub ui_port: u16,
    pub admin_token_set: bool,
    pub trust_proxy_auth: bool,
    pub state_path: String,
    pub smtp_password_from_env: bool,
    pub github_token_from_env: bool,
    pub config_writable: bool,
    pub auth_mode: AuthMode,
}

/// The report on a configuration, over texts.
#[verifier::ext_equal]
pub struct ConfigReportView {
    pub poll_interval_seconds: u64,
    pub cron_expression: Option<Seq<char>>,
    pub sender: Seq<char>,
    pub repos: Seq<Seq<char>>,
    pub recipients: Seq<Seq<char>>,
    pub smtp_host: Seq<char>,
    pub smtp_port: u16,
    pub smtp_encryption: Encryption,
    pub smtp_username: Seq<char>,
    pub ui_bind_addr: Seq<char>,
    pub ui_port: u16,
    pub admin_token_set: bool,
    pub trust_proxy_auth: bool,
    pub state_path: Seq<char>,
    pub smtp_password_from_env: bool,
    pub github_token_from_env: bool,
    pub config_writable: bool,
    pub auth_mode: AuthMode,
}

impl View for ConfigReport {
    type V = ConfigReportView;

    open spec fn view(&self) -> ConfigReportView {
        ConfigReportView {
            poll_interval_seconds: self.poll_interval_seconds,
            cron_expression: opt_text(self.cron_expression),
            sender: self.sender@,
            repos: texts(self.repos@),
            recipients: texts(self.recipients@),
            smtp_host: self.smtp_host@,
            smtp_port: self.smtp_port,
            smtp_encryption: self.smtp_encryption,
            smtp_username: self.smtp_username@,
            ui_bind_addr: self.ui_bind_addr@,
            ui_port: self.ui_port,
            admin_token_set: self.admin_token_set,
            trust_proxy_auth: self.trust_proxy_auth,
            state_path: self.state_path@,
            smtp_password_from_env: self.smtp_password_from_env,
            github_token_from_env: self.github_token_from_env,
            config_writable: self.config_writable,
            auth_mode: self.auth_mode,
        }
    }
}

/// What is to be shown of a configuration.
pub open spec fn report_of(cfg: Config, env: Env, config_writable: bool) -> ConfigReportView {
    ConfigReportView {
        poll_interval_seconds: cfg.poll_interval_seconds,
        cron_expression: opt_text(cfg.cron_expression),
        sender: cfg.sender@,
        repos: texts(cfg.repos@),
        recipients: texts(cfg.recipients@),
        smtp_host: cfg.smtp.host@,
        smtp_port: cfg.smtp.port,
        smtp_encryption: cfg.smtp.encryption,
        smtp_username: cfg.smtp.username@,
        ui_bind_addr: cfg.ui.bind_addr@,
        ui_port: cfg.ui.port,
        admin_token_set: cfg.resolved_admin_token(env).len() > 0,
        trust_proxy_auth: cfg.ui.trust_proxy_auth,
        state_path: cfg.state_path@,
        smtp_password_from_env: env.smtp_password is Some,
        github_token_from_env: env.github_token is Some && env.github_token->0@.len() > 0,
        config_writable,
        auth_mode: cfg.auth_mode(env),
    }
}

/// Reports on a configuration.
pub fn report_config(cfg: &Config, env: &Env, config_writable: bool) -> (r: ConfigReport)
    ensures
        r@ == report_of(*cfg, *env, config_writable),
{
    ConfigReport {
        poll_interval_seconds: cfg.poll_interval_seconds,
        cron_expression: match &cfg.cron_expression {
            Some(expr) => Some(expr.clone()),
            None => None,
        },
        sender: cfg.sender.clone(),
        repos: copy_texts(&cfg.repos),
        recipients: copy_texts(&cfg.recipients),
        smtp_host: cfg.smtp.host.clone(),
        smtp_port: cfg.smtp.port,
        smtp_encryption: cfg.smtp.encryption,
        smtp_username: cfg.smtp.username.clone(),
        ui_bind_addr: cfg.ui.bind_addr.clone(),
        ui_port: cfg.ui.port,
        admin_token_set: !cfg.admin_token(env).as_str().is_empty(),
        trust_proxy_auth: cfg.ui.trust_proxy_auth,
        state_path: cfg.state_path.clone(),
        smtp_password_from_env: env.smtp_password.is_some(),
        github_token_from_env: cfg.github_token(env).is_some(),
        config_writable,
        auth_mode: cfg.ui_auth_mode(env),
    }
}

} // verus!
