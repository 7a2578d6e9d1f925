use chrono::TimeZone;
use gh_release_notify::config::{Config, Encryption, Env, SmtpConfig, UiConfig};
use gh_release_notify::github::Release;
use gh_release_notify::notify::{
    body_with_date, build_body, judge_addresses, judge_mail, Mailer, PLAIN_TEXT,
};
use gh_release_notify::time::Timestamp;

fn sample_release() -> Release {
    let at = chrono::Utc.with_ymd_and_hms(2026, 6, 26, 14, 29, 0).unwrap();
    Release {
        tag_name: "1.19.4".to_string(),
        name: "1.19.4".to_string(),
        html_url: "https://github.com/fosrl/pangolin/releases/tag/1.19.4".to_string(),
        body: "Fix newly created clients from logging in on a new device.".to_string(),
        published_at: Timestamp { secs: at.timestamp(), nanos: 0 },
    }
}

fn config(username: &str) -> Config {
    Config {
        poll_interval_seconds: 3600,
        state_path: "./state.json".to_string(),
        sender: "bot@homelab.local".to_string(),
        repos: vec!["fosrl/pangolin".to_string()],
        recipients: vec!["you@example.com".to_string()],
        smtp: SmtpConfig {
            host: "smtp.example.com".to_string(),
            port: 587,
            encryption: Encryption::Tls,
            username: username.to_string(),
            password: "secret".to_string(),
        },
        cron_expression: None,
        cron_schedule: None,
        config_path: String::new(),
        ui: UiConfig::default(),
    }
}

fn no_env() -> Env {
    Env { smtp_password: None, github_token: None, admin_token: None }
}

#[test]
fn body_contains_repo_tag_url_and_notes() {
    let r = sample_release();
    let body = build_body(&r, "fosrl/pangolin");
    assert!(body.contains("fosrl/pangolin"));
    assert!(body.contains("1.19.4"));
    assert!(body.contains("https://github.com/fosrl/pangolin/releases/tag/1.19.4"));
    assert!(body.contains("Fix newly created clients"));
    assert!(body.contains("2026-06-26 14:29 UTC"));
}

#[test]
fn body_has_the_documented_lines() {
    let mut r = sample_release();
    r.name = "One".to_string();
    r.body = "Notes".to_string();
    r.html_url = "u".to_string();
    assert_eq!(
        body_with_date(&r, "a/b", "today"),
        "A new stable release of a/b is available.\n\nTag: 1.19.4\nName: One\nPublished: today\n\
         URL: u\n\nRelease notes:\nNotes\n"
    );
}

#[test]
fn mailer_takes_its_settings_from_the_configuration() {
    let m = Mailer::new(&config("postmaster"), &no_env());
    assert_eq!(m.host, "smtp.example.com");
    assert_eq!(m.port, 587);
    assert_eq!(m.encryption, Encryption::Tls);
    assert_eq!(m.sender, "bot@homelab.local");
    assert_eq!(m.credentials, Some(("postmaster".to_string(), "secret".to_string())));
    let env = Env { smtp_password: Some("env".to_string()), github_token: None, admin_token: None };
    let m = Mailer::new(&config("postmaster"), &env);
    assert_eq!(m.credentials, Some(("postmaster".to_string(), "env".to_string())));
    assert_eq!(Mailer::new(&config(""), &env).credentials, None);
}

#[test]
fn announcements_go_to_every_recipient() {
    let m = Mailer::new(&config(""), &no_env());
    let to = vec!["a@example.com".to_string(), "b@example.com".to_string()];
    let email = m.send_new_release(&sample_release(), "fosrl/pangolin", &to).ok().unwrap();
    assert_eq!(email.from, "bot@homelab.local");
    assert_eq!(email.to, to);
    assert_eq!(email.subject, "[gh-release-notify] fosrl/pangolin 1.19.4 released");
    assert_eq!(email.body, build_body(&sample_release(), "fosrl/pangolin"));
    assert_eq!(email.content_type, "text/plain; charset=utf-8");
    assert_eq!(
        lettre::message::header::ContentType::parse(PLAIN_TEXT).unwrap(),
        lettre::message::header::ContentType::TEXT_PLAIN
    );
}

#[test]
fn announcements_without_recipients_are_refused() {
    let mut m = Mailer::new(&config(""), &no_env());
    let e = m.send_new_release(&sample_release(), "a/b", &vec![]).err().unwrap();
    assert_eq!(e.message(), "missing destination address, invalid envelope");
    m.sender = "me".to_string();
    let e = m.send_new_release(&sample_release(), "a/b", &vec![]).err().unwrap();
    assert!(e.message().starts_with("invalid sender 'me': "));
}

#[test]
fn unreadable_addresses_are_reported() {
    let mut m = Mailer::new(&config(""), &no_env());
    let to = vec!["a@example.com".to_string(), "nobody".to_string(), "x".to_string()];
    let e = m.send_new_release(&sample_release(), "a/b", &to).err().unwrap();
    assert!(e.message().starts_with("invalid recipient 'nobody': "));
    assert!(e.message().len() > "invalid recipient 'nobody': ".len());
    m.sender = "me".to_string();
    let e = m.send_new_release(&sample_release(), "a/b", &to).err().unwrap();
    assert!(e.message().starts_with("invalid sender 'me': "));
}

#[test]
fn the_sender_is_judged_before_the_recipients() {
    let to = vec!["p".to_string(), "q".to_string(), "r".to_string()];
    let faults = vec![None, Some("second".to_string()), Some("third".to_string())];
    let e = judge_addresses("s", Some("first".to_string()), &to, &faults).unwrap_err();
    assert_eq!(e.message(), "invalid sender 's': first");
    let e = judge_addresses("s", None, &to, &faults).unwrap_err();
    assert_eq!(e.message(), "invalid recipient 'q': second");
    assert!(judge_addresses("s", None, &to, &vec![None, None, None]).is_ok());
}

#[test]
fn the_addresses_are_judged_before_the_message() {
    let to = vec!["p".to_string()];
    let built = || Err("no message".to_string());
    let e = judge_mail("s", None, &to, &vec![Some("bad".to_string())], built()).unwrap_err();
    assert_eq!(e.message(), "invalid recipient 'p': bad");
    let e = judge_mail("s", None, &to, &vec![None], built()).unwrap_err();
    assert_eq!(e.message(), "no message");
    assert!(judge_mail("s", None, &to, &vec![None], Ok(())).is_ok());
}
