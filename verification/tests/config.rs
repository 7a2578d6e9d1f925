use gh_release_notify::config::{
    encryption_str, parse_encryption, read_cron, judge_cron, AuthMode, Config, ConfigError,
    ConfigFile, Encryption, Env, SmtpConfig, UiConfig,
};

const VALID: &str = r#"
poll_interval_seconds = 3600
state_path = "./state.json"
sender = "bot@homelab.local"
repos = ["fosrl/pangolin", "fosrl/newt"]
recipients = ["you@example.com"]

[smtp]
host = "smtp.example.com"
port = 587
encryption = "starttls"
username = "postmaster"
password = "secret"
"#;

fn no_env() -> Env {
    Env { smtp_password: None, github_token: None, admin_token: None }
}

fn text(t: &toml::Table, key: &str) -> String {
    t[key].as_str().unwrap().to_string()
}

fn list(t: &toml::Table, key: &str) -> Vec<String> {
    t[key].as_array().unwrap().iter().map(|v| v.as_str().unwrap().to_string()).collect()
}

fn file(contents: &str) -> ConfigFile {
    let t = match contents.parse::<toml::Table>() {
        Ok(t) => t,
        Err(e) => return ConfigFile::Unparseable(e.to_string()),
    };
    let smtp = t["smtp"].as_table().unwrap();
    let encryption = match parse_encryption(smtp["encryption"].as_str().unwrap()) {
        Ok(e) => e,
        Err(m) => return ConfigFile::Unparseable(m),
    };
    let mut ui = UiConfig::default();
    if let Some(section) = t.get("ui").and_then(|u| u.as_table()) {
        if section.contains_key("bind_addr") {
            ui.bind_addr = text(section, "bind_addr");
        }
        if section.contains_key("port") {
            ui.port = section["port"].as_integer().unwrap() as u16;
        }
        if section.contains_key("admin_token") {
            ui.admin_token = text(section, "admin_token");
        }
        if section.contains_key("trust_proxy_auth") {
            ui.trust_proxy_auth = section["trust_proxy_auth"].as_bool().unwrap();
        }
    }
    ConfigFile::Parsed(Config {
        poll_interval_seconds: t["poll_interval_seconds"].as_integer().unwrap() as u64,
        state_path: text(&t, "state_path"),
        sender: text(&t, "sender"),
        repos: list(&t, "repos"),
        recipients: list(&t, "recipients"),
        smtp: SmtpConfig {
            host: text(smtp, "host"),
            port: smtp["port"].as_integer().unwrap() as u16,
            encryption,
            username: text(smtp, "username"),
            password: text(smtp, "password"),
        },
        cron_expression: t.get("cron_expression").map(|v| v.as_str().unwrap().to_string()),
        cron_schedule: None,
        config_path: String::new(),
        ui,
    })
}

fn load(contents: &str) -> Result<Config, ConfigError> {
    Config::load("config.toml", file(contents), &no_env())
}

fn message(contents: &str) -> String {
    load(contents).unwrap_err().message()
}

#[test]
fn parses_valid_config() {
    let cfg = load(VALID).unwrap();
    assert_eq!(cfg.poll_interval_seconds, 3600);
    assert_eq!(cfg.state_path, "./state.json");
    assert_eq!(cfg.sender, "bot@homelab.local");
    assert_eq!(cfg.repos, vec!["fosrl/pangolin", "fosrl/newt"]);
    assert_eq!(cfg.recipients, vec!["you@example.com"]);
    assert_eq!(cfg.smtp.host, "smtp.example.com");
    assert_eq!(cfg.smtp.port, 587);
    assert_eq!(cfg.smtp.encryption, Encryption::StartTls);
    assert_eq!(cfg.smtp.username, "postmaster");
    assert_eq!(cfg.smtp.password, "secret");
}

#[test]
fn parses_config_without_cron() {
    let cfg = load(VALID).unwrap();
    assert!(cfg.cron_expression.is_none());
    assert!(cfg.cron_schedule.is_none());
}

#[test]
fn load_records_config_path() {
    let cfg = load(VALID).unwrap();
    assert_eq!(cfg.config_path, "config.toml");
}

#[test]
fn rejects_poll_interval_below_60() {
    let bad = VALID.replace("poll_interval_seconds = 3600", "poll_interval_seconds = 30");
    assert!(message(&bad).contains("poll_interval_seconds"));
    let least = VALID.replace("poll_interval_seconds = 3600", "poll_interval_seconds = 60");
    assert!(load(&least).is_ok());
    let below = VALID.replace("poll_interval_seconds = 3600", "poll_interval_seconds = 59");
    assert_eq!(message(&below), "poll_interval_seconds must be >= 60");
}

#[test]
fn rejects_empty_repos() {
    let bad = VALID.replace("repos = [\"fosrl/pangolin\", \"fosrl/newt\"]", "repos = []");
    assert!(message(&bad).contains("repos"));
    assert_eq!(message(&bad), "repos must not be empty");
}

#[test]
fn rejects_bad_repo_format() {
    let bad = VALID.replace("\"fosrl/newt\"", "\"not-a-slash\"");
    assert!(message(&bad).contains("invalid repo"));
    assert_eq!(message(&bad), "invalid repo 'not-a-slash', expected 'owner/repo'");
}

#[test]
fn rejects_bad_sender_email() {
    let bad = VALID.replace("bot@homelab.local", "not-an-email");
    assert!(message(&bad).contains("sender"));
    assert_eq!(message(&bad), "sender 'not-an-email' is not a valid email");
}

#[test]
fn rejects_bad_recipient_email() {
    let bad = VALID.replace("you@example.com", "bad");
    assert!(message(&bad).contains("recipient"));
    assert_eq!(message(&bad), "recipient 'bad' is not a valid email");
}

#[test]
fn rejects_username_without_password() {
    let bad = VALID.replace("password = \"secret\"", "password = \"\"");
    assert!(message(&bad).contains("password"));
    let env = Env { smtp_password: Some("env".to_string()), github_token: None, admin_token: None };
    assert!(Config::load("config.toml", file(&bad), &env).is_ok());
    let empty = Env { smtp_password: Some(String::new()), github_token: None, admin_token: None };
    assert!(Config::load("config.toml", file(VALID), &empty).is_err());
}

#[test]
fn smtp_password_env_overrides_config() {
    let cfg = load(VALID).unwrap();
    let env = Env {
        smtp_password: Some("env-secret".to_string()),
        github_token: None,
        admin_token: None,
    };
    assert_eq!(cfg.smtp_password(&env), "env-secret");
    assert_eq!(cfg.smtp_password(&no_env()), "secret");
}

#[test]
fn github_token_returns_none_when_unset() {
    let cfg = load(VALID).unwrap();
    assert_eq!(cfg.github_token(&no_env()), None);
    let empty = Env { smtp_password: None, github_token: Some(String::new()), admin_token: None };
    assert_eq!(cfg.github_token(&empty), None);
}

#[test]
fn github_token_returns_some_when_set() {
    let cfg = load(VALID).unwrap();
    let env = Env {
        smtp_password: None,
        github_token: Some("ghp_xxx".to_string()),
        admin_token: None,
    };
    assert_eq!(cfg.github_token(&env), Some("ghp_xxx".to_string()));
}

#[test]
fn parses_encryption_variants() {
    for (val, expected) in [
        ("starttls", Encryption::StartTls),
        ("tls", Encryption::Tls),
        ("none", Encryption::Plain),
    ] {
        let contents = VALID.replace("starttls", val);
        let cfg = load(&contents).unwrap();
        assert_eq!(cfg.smtp.encryption, expected);
        assert_eq!(encryption_str(expected), val);
    }
}

#[test]
fn rejects_bad_encryption_value() {
    let bad = VALID.replace("encryption = \"starttls\"", "encryption = \"foo\"");
    let msg = message(&bad);
    assert!(
        msg.contains("encryption") || msg.contains("unknown variant") || msg.contains("foo"),
        "expected error about encryption, got: {msg}"
    );
}

#[test]
fn rejects_port_zero() {
    let bad = VALID.replace("port = 587", "port = 0");
    let msg = message(&bad);
    assert!(msg.contains("port"), "expected error about port, got: {}", msg);
    assert_eq!(msg, "smtp.port must be > 0");
}

#[test]
fn rejects_empty_recipients_and_host() {
    let bad = VALID.replace("recipients = [\"you@example.com\"]", "recipients = []");
    assert_eq!(message(&bad), "recipients must not be empty");
    let bad = VALID.replace("smtp.example.com", "");
    assert_eq!(message(&bad), "smtp.host must not be empty");
}

#[test]
fn the_first_broken_rule_is_reported() {
    let bad = VALID
        .replace("poll_interval_seconds = 3600", "poll_interval_seconds = 1")
        .replace("port = 587", "port = 0");
    assert_eq!(message(&bad), "poll_interval_seconds must be >= 60");
    let bad = VALID.replace("fosrl/pangolin", "one").replace("fosrl/newt", "two");
    assert_eq!(message(&bad), "invalid repo 'one', expected 'owner/repo'");
}

#[test]
fn unreadable_and_unparseable_files_are_reported() {
    let e = Config::load("c.toml", ConfigFile::Unreadable("gone".to_string()), &no_env());
    assert_eq!(e.unwrap_err().message(), "failed to read config file c.toml: gone");
    let e = Config::load("c.toml", ConfigFile::Unparseable("odd".to_string()), &no_env());
    assert_eq!(e.unwrap_err().message(), "failed to parse config file c.toml: odd");
    assert!(message("=").starts_with("failed to parse config file config.toml: "));
}

fn with_repo(repo: &str) -> bool {
    load(&VALID.replace("fosrl/newt", repo)).is_ok()
}

#[test]
fn repositories_are_two_names_around_a_slash() {
    for good in ["a/b", "A-1/b_c.d", "./-"] {
        assert!(with_repo(good), "{good}");
    }
    for bad in ["", "a", "/b", "a/", "a/b/c", "a b/c", "ä/b", "a/b\\n"] {
        assert!(!with_repo(bad), "{bad}");
    }
}

fn with_sender(sender: &str) -> bool {
    load(&VALID.replace("bot@homelab.local", sender)).is_ok()
}

#[test]
fn addresses_have_one_at_sign_and_a_dot_behind_it() {
    for good in ["a@b.c", "ä@b.c.d", "a@..c", "a.b@c.d"] {
        assert!(with_sender(good), "{good}");
    }
    for bad in ["a@b", "@b.c", "a@.c", "a@b.", "a@b@c.d", "a b@c.d", "a@b.c\\u3000", "a@b.\\u0085c"] {
        assert!(!with_sender(bad), "{bad}");
    }
}

fn with_cron(expr: &str) -> Result<Config, ConfigError> {
    load(&VALID.replace(
        "sender =",
        &format!("cron_expression = \"{expr}\"\nsender ="),
    ))
}

#[test]
fn parses_valid_config_with_cron() {
    let cfg = with_cron("0 */6 * * *").unwrap();
    assert_eq!(cfg.cron_expression.as_deref(), Some("0 */6 * * *"));
    assert_eq!(cfg.cron_schedule.unwrap().source, "0 0 */6 * * *");
}

#[test]
fn rejects_invalid_cron_expression() {
    let msg = with_cron("not a cron").unwrap_err().message();
    assert!(msg.contains("cron_expression"));
    let msg = with_cron("a b c d e").unwrap_err().message();
    assert!(msg.starts_with("invalid cron_expression 'a b c d e': "));
    assert!(msg.len() > "invalid cron_expression 'a b c d e': ".len());
}

#[test]
fn rejects_cron_wrong_field_count() {
    let msg = with_cron("0 9 *").unwrap_err().message();
    assert_eq!(msg, "cron_expression must have 5 or 6 fields, got 3");
    let msg = with_cron("").unwrap_err().message();
    assert_eq!(msg, "cron_expression must have 5 or 6 fields, got 0");
    let msg = with_cron("1 2 3 4 5 6 2030").unwrap_err().message();
    assert_eq!(msg, "cron_expression must have 5 or 6 fields, got 7");
}

#[test]
fn accepts_6_field_cron() {
    let cfg = with_cron("0 0 */6 * * *").unwrap();
    assert_eq!(cfg.cron_schedule.unwrap().source, "0 0 */6 * * *");
}

#[test]
fn accepts_cron_shorthand() {
    let cfg = with_cron("@daily").unwrap();
    assert_eq!(cfg.cron_schedule.unwrap().source, "@daily");
    assert!(with_cron("@never").is_err());
}

#[test]
fn cron_is_judged_by_what_came_of_reading_it() {
    let e = judge_cron("x", "0 x".to_string(), Some("bad".to_string())).unwrap_err();
    assert_eq!(e.message(), "invalid cron_expression 'x': bad");
    assert_eq!(judge_cron("x", "0 x".to_string(), None).unwrap().source, "0 x");
    assert_eq!(read_cron("  1  2 3 4   5 ").unwrap().source, "0   1  2 3 4   5 ");
}

fn with_ui(section: &str) -> Result<Config, ConfigError> {
    load(&format!("{VALID}\n[ui]\n{section}\n"))
}

#[test]
fn parses_ui_section_with_defaults() {
    let cfg = load(VALID).unwrap();
    assert_eq!(cfg.ui.bind_addr, "127.0.0.1");
    assert_eq!(cfg.ui.port, 8080);
    assert!(cfg.ui.admin_token.is_empty());
    assert!(!cfg.ui.trust_proxy_auth);
    assert_eq!(cfg.listen_addr(), "127.0.0.1:8080");
}

#[test]
fn rejects_token_and_proxy_auth_together() {
    let err = with_ui("admin_token = \"tok\"\ntrust_proxy_auth = true").unwrap_err();
    assert!(err.message().contains("mutually exclusive"));
    assert!(with_ui("trust_proxy_auth = true").is_ok());
    assert!(with_ui("admin_token = \"tok\"").is_ok());
}

#[test]
fn rejects_ui_port_zero() {
    let err = with_ui("port = 0").unwrap_err();
    assert!(err.message().contains("port"));
    assert_eq!(err.message(), "ui.port must be > 0");
}

#[test]
fn rejects_unparseable_bind_addr() {
    let err = with_ui("bind_addr = \"not-an-ip\"").unwrap_err();
    assert!(err.message().contains("bind_addr"));
    assert_eq!(err.message(), "ui.bind_addr 'not-an-ip' is not a valid IP address");
}

#[test]
fn admin_token_env_overrides_config() {
    let cfg = with_ui("admin_token = \"from-file\"").unwrap();
    let env = Env {
        smtp_password: None,
        github_token: None,
        admin_token: Some("from-env".to_string()),
    };
    assert_eq!(cfg.admin_token(&env), "from-env");
    let empty = Env { smtp_password: None, github_token: None, admin_token: Some(String::new()) };
    assert_eq!(cfg.admin_token(&empty), "from-file");
    assert_eq!(cfg.admin_token(&no_env()), "from-file");
}

#[test]
fn auth_mode_follows_token_and_proxy() {
    assert_eq!(load(VALID).unwrap().ui_auth_mode(&no_env()), AuthMode::Open);
    let token = with_ui("admin_token = \"t\"").unwrap();
    assert_eq!(token.ui_auth_mode(&no_env()), AuthMode::Token);
    let proxy = with_ui("trust_proxy_auth = true").unwrap();
    assert_eq!(proxy.ui_auth_mode(&no_env()), AuthMode::Proxy);
}

#[test]
fn an_open_interface_on_all_addresses_is_exposed() {
    assert!(with_ui("bind_addr = \"0.0.0.0\"").unwrap().is_exposed(&no_env()));
    assert!(!load(VALID).unwrap().is_exposed(&no_env()));
    let guarded = with_ui("bind_addr = \"0.0.0.0\"\nadmin_token = \"t\"").unwrap();
    assert!(!guarded.is_exposed(&no_env()));
}

#[test]
fn state_path_can_be_overridden() {
    let mut cfg = load(VALID).unwrap();
    assert!(cfg.apply_state_path_override(None).is_ok());
    assert_eq!(cfg.state_path, "./state.json");
    assert!(cfg.apply_state_path_override(Some("/tmp/s.json")).is_ok());
    assert_eq!(cfg.state_path, "/tmp/s.json");
    let err = cfg.apply_state_path_override(Some("")).unwrap_err();
    assert_eq!(err.message(), "state path must not be empty");
    assert_eq!(cfg.state_path, "/tmp/s.json");
}

#[test]
fn validation_can_be_repeated() {
    let mut cfg = with_cron("0 9 * * 1-5").unwrap();
    assert!(cfg.validate(&no_env()).is_ok());
    assert_eq!(cfg.cron_schedule.unwrap().source, "0 0 9 * * 1-5");
}
