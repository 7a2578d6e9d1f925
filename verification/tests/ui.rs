use axum::http::{HeaderMap, HeaderName, HeaderValue};
use gh_release_notify::config::{AuthMode, Config, Encryption, Env, SmtpConfig, UiConfig};
use gh_release_notify::time::{Timestamp, MAX_SECONDS};
use gh_release_notify::ui::auth::{
    clear_cookie_header, constant_time_eq, cookie_header, hex, is_https, is_public_route,
    require_auth, require_auth_at, session_cookie_from_headers, session_in, AuthDecision,
    AuthRequest, LoginLimiter, Sessions, CSRF_HEADER, CSRF_VALUE,
};
use gh_release_notify::config_writeback::SaveError;
use gh_release_notify::ui::handlers::{
    answer_save, client_ip, error_body, login, login_at, logout, report_config, LoginReply,
};

const NOW: Timestamp = Timestamp { secs: 1_782_484_140, nanos: 0 };

fn at(secs: i64) -> Timestamp {
    Timestamp { secs: NOW.secs + secs, nanos: 0 }
}

fn test_config(token: &str, proxy: bool) -> Config {
    Config {
        poll_interval_seconds: 3600,
        state_path: "./state.json".to_string(),
        sender: "bot@homelab.local".to_string(),
        repos: vec!["fosrl/pangolin".to_string()],
        recipients: vec!["you@example.com".to_string()],
        smtp: SmtpConfig {
            host: "smtp.example.com".to_string(),
            port: 587,
            encryption: Encryption::StartTls,
            username: "postmaster".to_string(),
            password: "secret".to_string(),
        },
        cron_expression: None,
        cron_schedule: None,
        config_path: "unused".to_string(),
        ui: UiConfig {
            bind_addr: "127.0.0.1".to_string(),
            port: 8080,
            admin_token: token.to_string(),
            trust_proxy_auth: proxy,
        },
    }
}

fn no_env() -> Env {
    Env { smtp_password: None, github_token: None, admin_token: None }
}

fn headers(list: &[(&'static str, &str)]) -> HeaderMap {
    let mut h = HeaderMap::new();
    for (name, value) in list {
        h.append(HeaderName::from_static(name), HeaderValue::from_str(value).unwrap());
    }
    h
}

fn status(cfg: &Config, path: &str, is_get: bool, h: &HeaderMap) -> Option<u16> {
    let req = AuthRequest { path, is_get, headers: h };
    require_auth_at(&req, cfg, &no_env(), &mut Sessions::default(), &NOW).status()
}

#[test]
fn unauthenticated_request_is_rejected() {
    let cfg = test_config("secret", false);
    assert_eq!(status(&cfg, "/api/config", true, &headers(&[])), Some(401));
}

#[test]
fn wrong_token_is_rejected() {
    let cfg = test_config("secret", false);
    let h = headers(&[("authorization", "Bearer nope")]);
    assert_eq!(status(&cfg, "/api/config", true, &h), Some(401));
    let h = headers(&[("authorization", "secret")]);
    assert_eq!(status(&cfg, "/api/config", true, &h), Some(401));
}

#[test]
fn valid_bearer_token_passes_the_auth_layer() {
    let cfg = test_config("secret", false);
    let h = headers(&[("authorization", "Bearer secret")]);
    assert_ne!(status(&cfg, "/api/config", true, &h), Some(401));
    assert_eq!(status(&cfg, "/api/config", true, &h), None);
}

#[test]
fn public_routes_need_no_auth() {
    let cfg = test_config("secret", false);
    for uri in ["/", "/app.js", "/pico.css", "/healthz"] {
        assert_ne!(status(&cfg, uri, true, &headers(&[])), Some(401), "{uri} must be public");
    }
    let h = headers(&[("content-type", "application/json")]);
    assert_ne!(status(&cfg, "/login", false, &h), Some(401), "/login must be public");
    for uri in ["/login/", "", "/api", "/APP.JS"] {
        assert!(!is_public_route(uri), "{uri}");
    }
}

#[test]
fn open_mode_allows_everything() {
    let cfg = test_config("", false);
    assert_ne!(status(&cfg, "/api/config", true, &headers(&[])), Some(401));
    assert_eq!(status(&cfg, "/api/config", true, &headers(&[])), None);
}

#[test]
fn mutation_without_custom_header_is_rejected() {
    let cfg = test_config("secret", false);
    let h = headers(&[("authorization", "Bearer secret"), ("content-type", "application/json")]);
    assert_eq!(status(&cfg, "/api/config", false, &h), Some(400));
    let h = headers(&[("authorization", "Bearer secret"), (CSRF_HEADER, CSRF_VALUE)]);
    assert_eq!(status(&cfg, "/api/config", false, &h), None);
    let open = test_config("", false);
    assert_eq!(status(&open, "/api/config", false, &headers(&[(CSRF_HEADER, "other")])), Some(400));
}

#[test]
fn proxy_mode_rejects_absent_remote_user() {
    let cfg = test_config("", true);
    assert_eq!(status(&cfg, "/api/config", true, &headers(&[])), Some(401));
    assert_eq!(status(&cfg, "/api/config", true, &headers(&[("remote-user", "")])), Some(401));
}

#[test]
fn proxy_mode_accepts_remote_user() {
    let cfg = test_config("", true);
    assert_eq!(status(&cfg, "/api/config", true, &headers(&[("remote-user", "me")])), None);
    let mut odd = HeaderMap::new();
    odd.insert("remote-user", HeaderValue::from_bytes(&[0xff]).unwrap());
    assert_eq!(status(&cfg, "/api/config", true, &odd), Some(401));
}

#[test]
fn refusals_say_why() {
    assert_eq!(AuthDecision::Unauthorized.message(), "unauthorized");
    assert_eq!(AuthDecision::MissingHeader.message(), "missing X-Requested-With header");
    assert_eq!(AuthDecision::Pass.message(), "");
    assert_eq!(AuthDecision::Pass.status(), None);
    assert_eq!(AuthDecision::Unauthorized.body(), "{\"error\":\"unauthorized\"}");
    assert_eq!(
        AuthDecision::MissingHeader.body(),
        "{\"error\":\"missing X-Requested-With header\"}"
    );
    assert_eq!(AuthDecision::Pass.body(), "");
    for decision in [AuthDecision::Unauthorized, AuthDecision::MissingHeader] {
        let read: serde_json::Value = serde_json::from_str(decision.body()).unwrap();
        assert_eq!(read["error"], decision.message());
    }
}

#[test]
fn a_request_without_credentials_is_answered_with_an_object() {
    let cfg = test_config("secret", false);
    let h = headers(&[]);
    let req = AuthRequest { path: "/api/config", is_get: true, headers: &h };
    let decision = require_auth_at(&req, &cfg, &no_env(), &mut Sessions::default(), &NOW);
    assert_eq!(decision.status(), Some(401));
    assert_eq!(decision.body(), "{\"error\":\"unauthorized\"}");
}

#[test]
fn errors_are_told_in_an_object() {
    assert_eq!(error_body("a \"b\"\n\\"), "{\"error\":\"a \\\"b\\\"\\n\\\\\"}");
    let refused = Err(SaveError::Invalid("why".to_string()));
    assert_eq!(answer_save(&refused), (400, "{\"error\":\"why\"}".to_string()));
    let unwritable = Err(SaveError::Unwritable("ro".to_string()));
    let body = "{\"error\":\"config file is not writable: ro\"}";
    assert_eq!(answer_save(&unwritable), (409, body.to_string()));
    let failed = Err(SaveError::Io("disk".to_string()));
    assert_eq!(answer_save(&failed), (500, "{\"error\":\"disk\"}".to_string()));
    let saved = Ok(test_config("", false));
    assert_eq!(answer_save(&saved), (200, "{\"ok\":true}".to_string()));
}

#[test]
fn valid_session_cookie_is_accepted() {
    let cfg = test_config("secret", false);
    let mut sessions = Sessions::default();
    let id = sessions.create_at(Some(vec![0xab; 32]), &NOW);
    assert_eq!(id, "ab".repeat(32));
    let cookie = format!("theme=dark; grn_session={id}");
    let h = headers(&[("cookie", cookie.as_str())]);
    let req = AuthRequest { path: "/api/config", is_get: true, headers: &h };
    let decide = |sessions: &mut Sessions, now: &Timestamp| {
        require_auth_at(&req, &cfg, &no_env(), sessions, now)
    };
    assert_eq!(decide(&mut sessions, &NOW), AuthDecision::Pass);
    assert_eq!(decide(&mut sessions, &at(12 * 3600 - 1)), AuthDecision::Pass);
    assert_eq!(decide(&mut sessions, &at(12 * 3600)), AuthDecision::Unauthorized);
    assert_eq!(decide(&mut sessions, &NOW), AuthDecision::Unauthorized);
}

#[test]
fn sessions_expire_and_end() {
    let mut sessions = Sessions::default();
    let first = sessions.create_at(Some(vec![1, 2, 255]), &NOW);
    assert_eq!(first, "0102ff");
    let second = sessions.create_at(Some(vec![4]), &at(3600));
    assert!(sessions.validate_at(&first, &at(3600)));
    assert!(sessions.validate_at(&second, &at(12 * 3600)));
    assert!(!sessions.validate_at(&first, &at(12 * 3600)));
    assert!(!sessions.validate_at(&first, &NOW));
    sessions.destroy(&second);
    assert!(!sessions.validate_at(&second, &at(3600)));
    assert!(!sessions.validate_at("never", &NOW));
    assert_eq!(sessions.create_at(None, &NOW), "");
    assert!(!sessions.validate_at("", &NOW));
}

#[test]
fn a_session_lives_for_its_time_whatever_else_is_called() {
    let mut sessions = Sessions::default();
    let id = sessions.create_at(Some(vec![1]), &NOW);
    sessions.create_at(Some(vec![2]), &at(60));
    sessions.create_at(None, &at(61));
    assert!(sessions.validate_at(&id, &at(3600)));
    assert!(!sessions.validate_at("other", &at(3600)));
    sessions.destroy("02");
    assert!(sessions.validate_at(&id, &at(12 * 3600 - 1)));
    assert!(!sessions.validate_at("02", &at(12 * 3600 - 1)));
    assert!(!sessions.validate_at(&id, &at(12 * 3600)));
    assert_eq!(sessions.create_at(Some(vec![1]), &at(12 * 3600)), id);
    assert!(sessions.validate_at(&id, &at(24 * 3600 - 1)));
    sessions.destroy(&id);
    assert!(!sessions.validate_at(&id, &at(24 * 3600 - 1)));
}

#[test]
fn no_session_is_made_that_would_outlast_the_calendar() {
    let mut sessions = Sessions::default();
    let last = Timestamp { secs: MAX_SECONDS - 12 * 3600, nanos: 3 };
    assert_eq!(sessions.create_at(Some(vec![1]), &last), "01");
    assert!(sessions.validate_at("01", &last));
    let beyond = Timestamp { secs: MAX_SECONDS - 12 * 3600 + 1, nanos: 0 };
    assert_eq!(sessions.create_at(Some(vec![2]), &beyond), "");
    assert!(!sessions.validate_at("02", &beyond));
    assert!(!sessions.validate_at("", &beyond));
    assert!(sessions.validate_at("01", &beyond));
    let cfg = test_config("secret", false);
    let mut limiter = LoginLimiter::default();
    let entropy = Some(vec![7; 32]);
    let reply = login_at(
        &headers(&[]), "secret", &cfg, &no_env(), &mut limiter, &mut sessions, entropy, &beyond,
    );
    assert_eq!(reply.status(), 200);
    assert!(!sessions.validate_at(&"07".repeat(32), &beyond));
}

#[test]
fn sessions_are_made_from_the_systems_clock_and_entropy() {
    let mut sessions = Sessions::default();
    let a = sessions.create();
    let b = sessions.create();
    assert_eq!(a.len(), 64);
    assert!(a.chars().all(|c| c.is_ascii_hexdigit() && !c.is_ascii_uppercase()));
    assert_ne!(a, b);
    assert!(sessions.validate(&a) && sessions.validate(&b));
    sessions.destroy(&a);
    assert!(!sessions.validate(&a) && sessions.validate(&b));
    let h = headers(&[("cookie", format!("grn_session={b}").as_str())]);
    let req = AuthRequest { path: "/api/config", is_get: true, headers: &h };
    let cfg = test_config("secret", false);
    assert_eq!(require_auth(&req, &cfg, &no_env(), &mut sessions), AuthDecision::Pass);
}

#[test]
fn five_logins_a_minute_are_allowed() {
    let mut limiter = LoginLimiter::default();
    for i in 0..5 {
        assert!(limiter.allow_at("ip", &at(i * 15)), "{i}");
    }
    assert!(!limiter.allow_at("ip", &at(60)));
    assert!(limiter.allow_at("other", &at(60)));
    assert!(limiter.allow_at("ip", &at(61)));
    for _ in 0..4 {
        assert!(limiter.allow_at("ip", &at(61)));
    }
    assert!(!limiter.allow_at("ip", &at(61)));
    limiter.reset("ip");
    assert!(limiter.allow_at("ip", &at(61)));
    assert!(limiter.allow("now"));
}

#[test]
fn texts_are_compared_whole() {
    assert!(constant_time_eq("", ""));
    assert!(constant_time_eq("geheim-ä", "geheim-ä"));
    assert!(!constant_time_eq("secret", "secre"));
    assert!(!constant_time_eq("secret", "Secret"));
}

#[test]
fn session_is_found_among_the_cookies() {
    let h = headers(&[("cookie", "a=b;  grn_session=abc ; grn_session=def")]);
    assert_eq!(session_cookie_from_headers(&h).as_deref(), Some("abc"));
    assert_eq!(session_cookie_from_headers(&headers(&[("cookie", "a=b")])), None);
    assert_eq!(session_cookie_from_headers(&headers(&[])), None);
    assert_eq!(session_in("grn_session=").as_deref(), Some(""));
    let two = headers(&[("cookie", "x=1"), ("cookie", "grn_session=abc")]);
    assert_eq!(session_cookie_from_headers(&two), None);
}

#[test]
fn cookies_are_written_with_their_attributes() {
    assert_eq!(
        cookie_header("abc", false),
        "grn_session=abc; HttpOnly; SameSite=Strict; Path=/; Max-Age=43200"
    );
    assert_eq!(
        cookie_header("abc", true),
        "grn_session=abc; HttpOnly; SameSite=Strict; Path=/; Max-Age=43200; Secure"
    );
    assert_eq!(
        clear_cookie_header(),
        "grn_session=; HttpOnly; SameSite=Strict; Path=/; Max-Age=0"
    );
    assert_eq!(hex(&vec![0, 0x1f, 0xa0]), "001fa0");
}

#[test]
fn https_is_told_by_the_proxy() {
    assert!(is_https(&headers(&[("x-forwarded-proto", "https")])));
    assert!(!is_https(&headers(&[("x-forwarded-proto", "HTTPS")])));
    assert!(!is_https(&headers(&[])));
}

#[test]
fn client_is_the_first_forwarded_address() {
    assert_eq!(client_ip(&headers(&[("x-forwarded-for", " 1.2.3.4 , 5.6.7.8")])), "1.2.3.4");
    assert_eq!(client_ip(&headers(&[("x-forwarded-for", "")])), "");
    assert_eq!(client_ip(&headers(&[])), "unknown");
}

fn try_login(
    cfg: &Config,
    token: &str,
    limiter: &mut LoginLimiter,
    sessions: &mut Sessions,
) -> LoginReply {
    let h = headers(&[("x-forwarded-proto", "https")]);
    login_at(&h, token, cfg, &no_env(), limiter, sessions, Some(vec![7; 32]), &NOW)
}

#[test]
fn login_exchanges_the_token_for_a_session() {
    let cfg = test_config("secret", false);
    let (mut limiter, mut sessions) = (LoginLimiter::default(), Sessions::default());
    let wrong = try_login(&cfg, "nope", &mut limiter, &mut sessions);
    assert_eq!(wrong.status(), 401);
    assert_eq!(wrong.error(), Some("unauthorized"));
    assert_eq!(wrong.body(), "{\"error\":\"unauthorized\"}");
    let right = try_login(&cfg, "secret", &mut limiter, &mut sessions);
    assert_eq!(right.status(), 200);
    assert_eq!(right.error(), None);
    assert_eq!(right.body(), "{\"ok\":true}");
    let id = "07".repeat(32);
    match right {
        LoginReply::LoggedIn(cookie) => assert_eq!(cookie, cookie_header(&id, true)),
        _ => panic!("no session"),
    }
    assert!(sessions.validate_at(&id, &NOW));
    let h = headers(&[("cookie", format!("grn_session={id}").as_str())]);
    let req = AuthRequest { path: "/api/config", is_get: true, headers: &h };
    let decision = require_auth_at(&req, &cfg, &no_env(), &mut sessions, &at(3600));
    assert_eq!(decision, AuthDecision::Pass);
}

#[test]
fn login_is_limited_and_reset_on_success() {
    let cfg = test_config("secret", false);
    let (mut limiter, mut sessions) = (LoginLimiter::default(), Sessions::default());
    for _ in 0..4 {
        assert_eq!(try_login(&cfg, "nope", &mut limiter, &mut sessions).status(), 401);
    }
    assert_eq!(try_login(&cfg, "secret", &mut limiter, &mut sessions).status(), 200);
    for _ in 0..5 {
        assert_eq!(try_login(&cfg, "nope", &mut limiter, &mut sessions).status(), 401);
    }
    let limited = try_login(&cfg, "secret", &mut limiter, &mut sessions);
    assert_eq!(limited.status(), 429);
    assert_eq!(limited.error(), Some("too many attempts"));
    assert_eq!(limited.body(), "{\"error\":\"too many attempts\"}");
}

#[test]
fn login_without_a_token_is_refused() {
    let cfg = test_config("", false);
    let (mut limiter, mut sessions) = (LoginLimiter::default(), Sessions::default());
    assert_eq!(try_login(&cfg, "", &mut limiter, &mut sessions).status(), 401);
    let cfg = test_config("secret", false);
    let h = headers(&[]);
    let reply = login(&h, "secret", &cfg, &no_env(), &mut limiter, &mut sessions);
    match reply {
        LoginReply::LoggedIn(cookie) => assert!(!cookie.contains("Secure")),
        _ => panic!("no session"),
    }
}

#[test]
fn logout_ends_the_session() {
    let mut sessions = Sessions::default();
    let id = sessions.create_at(Some(vec![9; 32]), &NOW);
    let h = headers(&[("cookie", format!("grn_session={id}").as_str())]);
    assert_eq!(logout(&headers(&[]), &mut sessions), clear_cookie_header());
    assert!(sessions.validate_at(&id, &NOW));
    assert_eq!(logout(&h, &mut sessions), clear_cookie_header());
    assert!(!sessions.validate_at(&id, &NOW));
}

#[test]
fn no_secret_appears_in_config_payload() {
    let cfg = test_config("TOKEN-VALUE", false);
    let env = Env {
        smtp_password: Some("PASSWORD-VALUE".to_string()),
        github_token: Some("GITHUB-VALUE".to_string()),
        admin_token: None,
    };
    let r = report_config(&cfg, &env, true);
    assert!(r.admin_token_set && r.smtp_password_from_env && r.github_token_from_env);
    assert!(r.config_writable && !r.trust_proxy_auth);
    assert_eq!(r.auth_mode, AuthMode::Token);
    assert_eq!(r.smtp_encryption, Encryption::StartTls);
    assert_eq!((r.poll_interval_seconds, r.smtp_port, r.ui_port), (3600, 587, 8080));
    let shown = format!(
        "{:?} {} {:?} {:?} {} {} {} {}",
        r.cron_expression, r.sender, r.repos, r.recipients, r.smtp_host, r.smtp_username,
        r.ui_bind_addr, r.state_path
    );
    for secret in ["TOKEN-VALUE", "PASSWORD-VALUE", "GITHUB-VALUE", "secret"] {
        assert!(!shown.contains(secret), "{secret}");
    }
    let plain = report_config(&test_config("", false), &no_env(), false);
    assert!(!plain.admin_token_set && !plain.smtp_password_from_env);
    assert!(!plain.github_token_from_env && !plain.config_writable);
    assert_eq!(plain.auth_mode, AuthMode::Open);
}
