use gh_release_notify::config::{parse_encryption, Config, Encryption, Env, SmtpConfig, UiConfig};
use gh_release_notify::config_writeback::{
    apply, edit_document, list_changes, ConfigEdit, EditError, IoFailure, IoKind, SaveError,
};

fn sample_config() -> &'static str {
    r#"
# schedule comment that must survive
poll_interval_seconds = 3600
state_path = "./state.json"
sender = "bot@homelab.local"
repos = ["fosrl/pangolin", "fosrl/newt"]
recipients = ["you@example.com"]

# smtp comment that must survive
[smtp]
host = "smtp.example.com"
port = 587
encryption = "starttls"
username = "postmaster"
password = "secret"
"#
}

fn no_env() -> Env {
    Env { smtp_password: None, github_token: None, admin_token: None }
}

fn texts(v: &toml::Value) -> Vec<String> {
    v.as_array().unwrap().iter().map(|t| t.as_str().unwrap().to_string()).collect()
}

fn parse(contents: &str) -> Result<Config, String> {
    let t = contents.parse::<toml::Table>().map_err(|e| e.to_string())?;
    let s = |v: &toml::Value| v.as_str().unwrap().to_string();
    let smtp = &t["smtp"];
    let mut ui = UiConfig::default();
    if let Some(token) = t.get("ui").and_then(|u| u.get("admin_token")) {
        ui.admin_token = s(token);
    }
    let interval = t["poll_interval_seconds"].as_integer().unwrap();
    Ok(Config {
        poll_interval_seconds: u64::try_from(interval).map_err(|e| e.to_string())?,
        state_path: s(&t["state_path"]),
        sender: s(&t["sender"]),
        repos: texts(&t["repos"]),
        recipients: texts(&t["recipients"]),
        smtp: SmtpConfig {
            host: s(&smtp["host"]),
            port: smtp["port"].as_integer().unwrap() as u16,
            encryption: parse_encryption(smtp["encryption"].as_str().unwrap())?,
            username: s(&smtp["username"]),
            password: s(smtp.get("password").ok_or("missing field `password`".to_string())?),
        },
        cron_expression: t.get("cron_expression").map(s),
        cron_schedule: None,
        config_path: String::new(),
        ui,
    })
}

fn edit_from(contents: &str) -> ConfigEdit {
    let cfg = parse(contents).unwrap();
    ConfigEdit {
        poll_interval_seconds: cfg.poll_interval_seconds,
        cron_expression: cfg.cron_expression.clone(),
        sender: cfg.sender.clone(),
        repos: cfg.repos.clone(),
        recipients: cfg.recipients.clone(),
        smtp_host: cfg.smtp.host.clone(),
        smtp_port: cfg.smtp.port,
        smtp_encryption: cfg.smtp.encryption,
        smtp_username: cfg.smtp.username.clone(),
        smtp_password: None,
        admin_token: None,
        ui_bind_addr: None,
        ui_port: None,
        trust_proxy_auth: None,
        state_path: None,
    }
}

/// Two files in memory: the configuration, and what was written beside it.
struct Disk {
    config: String,
    tmp: Option<String>,
}

fn save(disk: &mut Disk, edit: &ConfigEdit) -> Result<Config, SaveError> {
    let read = apply("config.toml", edit)?;
    let edited = read.read(Ok(disk.config.clone()))?;
    let parsed = parse(edited.edited());
    let write = edited.parsed(parsed, &no_env())?;
    assert_eq!(write.tmp(), "config.toml.tmp");
    disk.tmp = Some(write.contents().to_string());
    let rename = write.written(Ok(()))?;
    assert_eq!(rename.tmp(), "config.toml.tmp");
    assert_eq!(rename.target(), "config.toml");
    disk.config = disk.tmp.take().unwrap();
    rename.renamed(Ok(()))
}

fn disk(contents: &str) -> Disk {
    Disk { config: contents.to_string(), tmp: None }
}

#[test]
fn preserves_comments_and_order() {
    let mut d = disk(sample_config());
    let mut edit = edit_from(&d.config);
    edit.poll_interval_seconds = 7200;
    save(&mut d, &edit).unwrap();
    let after = d.config;
    assert!(after.contains("# schedule comment that must survive"));
    assert!(after.contains("# smtp comment that must survive"));
    assert!(after.contains("poll_interval_seconds = 7200"));
    let sched = after.find("# schedule comment").unwrap();
    let smtp = after.find("# smtp comment").unwrap();
    assert!(sched < smtp, "original key order was not preserved");
}

#[test]
fn invalid_new_config_is_rejected_before_write() {
    let original = sample_config();
    let mut d = disk(original);
    let mut edit = edit_from(&d.config);
    edit.poll_interval_seconds = 30;
    let err = save(&mut d, &edit).unwrap_err();
    assert!(matches!(err, SaveError::Invalid(_)), "got {err:?}");
    assert_eq!(d.config, original);
    assert!(d.tmp.is_none());
    assert_eq!(err.response(), "poll_interval_seconds must be >= 60");
    assert_eq!(err.message(), "invalid config: poll_interval_seconds must be >= 60");
    assert_eq!(err.status(), 400);
}

#[test]
fn save_is_atomic_and_leaves_no_tmp() {
    let mut d = disk(sample_config());
    let mut edit = edit_from(&d.config);
    edit.sender = "other@homelab.local".to_string();
    save(&mut d, &edit).unwrap();
    assert!(d.tmp.is_none());
    assert!(d.config.contains("other@homelab.local"));
}

#[test]
fn empty_smtp_password_leaves_secret_untouched() {
    let mut d = disk(sample_config());
    let mut edit = edit_from(&d.config);
    edit.smtp_password = Some(String::new());
    save(&mut d, &edit).unwrap();
    assert!(d.config.contains("password = \"secret\""));
}

#[test]
fn new_smtp_password_is_written() {
    let mut d = disk(sample_config());
    let mut edit = edit_from(&d.config);
    edit.smtp_password = Some("s3\"cret".to_string());
    assert_eq!(save(&mut d, &edit).unwrap().smtp.password, "s3\"cret");
}

#[test]
fn absent_secret_fields_leave_values_untouched() {
    let mut d = disk(sample_config());
    let edit = edit_from(&d.config);
    save(&mut d, &edit).unwrap();
    assert!(d.config.contains("password = \"secret\""));
    let with_token = format!("{}\n[ui]\nadmin_token = \"tok\"\n", sample_config());
    let mut d = disk(&with_token);
    save(&mut d, &edit).unwrap();
    assert!(d.config.contains("admin_token = \"tok\""));
}

#[test]
fn admin_token_empty_clears_value() {
    let with_token = format!("{}\n[ui]\nadmin_token = \"tok\" # keep\n", sample_config());
    let mut d = disk(&with_token);
    let mut edit = edit_from(&d.config);
    edit.admin_token = Some(String::new());
    let cfg = save(&mut d, &edit).unwrap();
    assert_eq!(cfg.ui.admin_token, "");
    assert!(d.config.contains("admin_token = \"\" # keep"));
}

#[test]
fn round_trips_through_config_validate() {
    let mut d = disk(sample_config());
    let mut edit = edit_from(&d.config);
    edit.cron_expression = Some("0 */6 * * *".to_string());
    let cfg = save(&mut d, &edit).unwrap();
    assert_eq!(cfg.poll_interval_seconds, 3600);
    assert!(cfg.cron_schedule.is_some());
    assert_eq!(cfg.config_path, "config.toml");
    assert!(d.config.contains("cron_expression = \"0 */6 * * *\""));
    edit.cron_expression = None;
    let cfg = save(&mut d, &edit).unwrap();
    assert!(cfg.cron_schedule.is_none());
    assert!(!d.config.contains("cron_expression"));
}

#[test]
fn rejects_read_only_fields() {
    let mut d = disk(sample_config());
    let mut edit = edit_from(&d.config);
    edit.state_path = Some("/tmp/evil.json".to_string());
    let err = save(&mut d, &edit).unwrap_err();
    assert!(matches!(err, SaveError::Invalid(_)), "got {err:?}");
    assert!(!d.config.contains("evil.json"));
    assert_eq!(err.response(), "state_path is read-only and cannot be set through the UI");
    let mut edit = edit_from(&d.config);
    edit.trust_proxy_auth = Some(false);
    let err = save(&mut d, &edit).unwrap_err();
    assert_eq!(err.response(), "ui.trust_proxy_auth is read-only and cannot be set through the UI");
    edit.ui_port = Some(1);
    let err = save(&mut d, &edit).unwrap_err();
    assert_eq!(err.response(), "ui.port is read-only and cannot be set through the UI");
    edit.ui_bind_addr = Some("::".to_string());
    let err = save(&mut d, &edit).unwrap_err();
    assert_eq!(err.response(), "ui.bind_addr is read-only and cannot be set through the UI");
}

fn failure(kind: IoKind) -> IoFailure {
    IoFailure { kind, reason: "os error".to_string() }
}

#[test]
fn unwritable_path_returns_unwritable_not_panic() {
    let edit = edit_from(sample_config());
    for kind in [IoKind::PermissionDenied, IoKind::ReadOnlyFilesystem] {
        let edited = apply("c.toml", &edit).ok().unwrap().read(Ok(sample_config().to_string()));
        let edited = edited.ok().unwrap();
        let parsed = parse(edited.edited());
        let write = edited.parsed(parsed, &no_env()).ok().unwrap();
        let err = write.written(Err(failure(kind))).err().unwrap();
        assert!(matches!(err, SaveError::Unwritable(_)));
        assert_eq!(
            err.message(),
            "config file is not writable: failed to write c.toml.tmp: os error"
        );
        assert_eq!(err.response(), err.message());
        assert_eq!(err.status(), 409);
    }
}

#[test]
fn failed_file_operations_are_told_apart() {
    let edit = edit_from(sample_config());
    let err = apply("c.toml", &edit).ok().unwrap().read(Err(failure(IoKind::Other))).err().unwrap();
    assert_eq!(err.message(), "config I/O error: failed to read c.toml: os error");
    assert_eq!(err.response(), "failed to read c.toml: os error");
    assert_eq!(err.status(), 500);
    let edited = apply("c.toml", &edit).ok().unwrap().read(Ok(sample_config().to_string()));
    let edited = edited.ok().unwrap();
    let parsed = parse(edited.edited());
    let rename = edited.parsed(parsed, &no_env()).ok().unwrap().written(Ok(())).ok().unwrap();
    let err = rename.renamed(Err(failure(IoKind::PermissionDenied))).unwrap_err();
    assert_eq!(
        err.message(),
        "config file is not writable: failed to rename c.toml.tmp -> c.toml: os error"
    );
}

#[test]
fn texts_that_are_no_documents_are_refused() {
    let edit = edit_from(sample_config());
    let err = apply("c.toml", &edit).ok().unwrap().read(Ok("= 1".to_string())).err().unwrap();
    assert!(err.response().starts_with("failed to parse c.toml: "));
    assert!(err.response().len() > "failed to parse c.toml: ".len());
    assert!(matches!(edit_document("a = [", &edit), Err(EditError::Unparseable(_))));
    let err = apply("c.toml", &edit).ok().unwrap().read(Ok("smtp = 1".to_string())).err().unwrap();
    assert_eq!(err.response(), "failed to edit c.toml: smtp is not a table");
    let mut edit = edit;
    edit.admin_token = Some("t".to_string());
    assert!(matches!(
        edit_document("[smtp]\n[[ui]]\n", &edit),
        Err(EditError::NotATable(name)) if name == "ui"
    ));
    let edited = apply("c.toml", &edit).ok().unwrap().read(Ok(String::new())).ok().unwrap();
    let err = edited.parsed(Err("missing field".to_string()), &no_env()).err().unwrap();
    assert_eq!(err.response(), "edited config does not parse: missing field");
}

#[test]
fn everything_around_the_edited_values_survives() {
    let text = "# top\n\npoll_interval_seconds = 60   # often\n'sender' = \"a@b.c\" # me\n\
                extra = { x = 1 }\nrepos = [\n  \"a/b\", # inside\n] # list\n# before recipients\n\
                recipients = []\nstate_path = \"s\"\n\n# mail\n[smtp] # server\nport = 0x19 # port\n\
                host = \"h\"\nusername = \"\"\nencryption = \"tls\"\npassword = \"p\"\n\n\
                [[other]]\nk = 1.5\n# the end\n";
    let mut edit = edit_from(sample_config());
    edit.poll_interval_seconds = 120;
    let out = edit_document(text, &edit).ok().unwrap();
    assert_eq!(
        out,
        "# top\n\npoll_interval_seconds = 120   # often\n'sender' = \"bot@homelab.local\" # me\n\
         extra = { x = 1 }\nrepos = [\"fosrl/pangolin\", \"fosrl/newt\"] # list\n\
         # before recipients\nrecipients = [\"you@example.com\"]\nstate_path = \"s\"\n\n\
         # mail\n[smtp] # server\nport = 587 # port\nhost = \"smtp.example.com\"\n\
         username = \"postmaster\"\nencryption = \"starttls\"\npassword = \"p\"\n\n\
         [[other]]\nk = 1.5\n# the end\n"
    );
}

#[test]
fn missing_tables_and_keys_are_added() {
    let mut edit = edit_from(sample_config());
    edit.admin_token = Some("tok".to_string());
    edit.cron_expression = Some("@daily".to_string());
    let out = edit_document("# only a comment\n", &edit).ok().unwrap();
    let t = out.parse::<toml::Table>().unwrap();
    assert_eq!(t["cron_expression"].as_str(), Some("@daily"));
    assert_eq!(t["poll_interval_seconds"].as_integer(), Some(3600));
    assert_eq!(t["smtp"]["host"].as_str(), Some("smtp.example.com"));
    assert_eq!(t["smtp"]["port"].as_integer(), Some(587));
    assert_eq!(t["ui"]["admin_token"].as_str(), Some("tok"));
    assert!(out.contains("# only a comment"));
    assert!(t["smtp"].get("password").is_none());
}

#[test]
fn tables_may_be_inline_dotted_or_implicit() {
    let edit = edit_from(sample_config());
    for text in [
        "smtp = { host = \"h\", password = \"p\" } # c\n",
        "smtp = {\n  host = \"h\", # c\n  password = \"p\" # d\n}\n",
        "smtp = {\n  password = \"p\", # c\n}\n",
        "smtp.host = \"h\" # c\nx = 1\nsmtp.password = \"p\"\n",
        "# c\n[smtp.more]\nk = 1\n[y]\n",
        "sender = { a = 1 }\n# c\n[repos]\nz = 1\n[smtp]\npassword = \"p\"\n",
    ] {
        let out = edit_document(text, &edit).ok().unwrap();
        let before = text.parse::<toml::Table>().unwrap();
        let after = out.parse::<toml::Table>().unwrap();
        assert_eq!(after["smtp"]["host"].as_str(), Some("smtp.example.com"), "{out}");
        assert_eq!(after["smtp"]["username"].as_str(), Some("postmaster"), "{out}");
        assert_eq!(after["sender"].as_str(), Some("bot@homelab.local"), "{out}");
        assert_eq!(texts(&after["repos"]), vec!["fosrl/pangolin", "fosrl/newt"]);
        assert_eq!(after["smtp"].get("password"), before["smtp"].get("password"), "{out}");
        assert_eq!(after["smtp"].get("more"), before["smtp"].get("more"), "{out}");
        assert_eq!(after.get("x"), before.get("x"));
        assert_eq!(after.get("y"), before.get("y"));
        if !text.contains("[repos]") {
            assert!(out.contains("# c"), "{out}");
        }
    }
}

#[test]
fn new_keys_come_last_in_their_table() {
    let text = "# top\nrecipients = []\nsender = true # me\npoll_interval_seconds = 60\n\
                state_path = \"s\"\n\n# mail\n[smtp]\nusername = \"\" # user\nport = 1\n\
                # web\n[ui]\nport = 8080 # keep\n# the end\n";
    let mut edit = edit_from(sample_config());
    edit.cron_expression = Some("@daily".to_string());
    edit.smtp_password = Some("p".to_string());
    edit.admin_token = Some("tok".to_string());
    let out = edit_document(text, &edit).ok().unwrap();
    assert_eq!(
        out,
        "# top\nrecipients = [\"you@example.com\"]\nsender = \"bot@homelab.local\" # me\n\
         poll_interval_seconds = 3600\nstate_path = \"s\"\n\
         repos = [\"fosrl/pangolin\", \"fosrl/newt\"]\ncron_expression = \"@daily\"\n\n\
         # mail\n[smtp]\nusername = \"postmaster\" # user\nport = 587\n\
         host = \"smtp.example.com\"\nencryption = \"starttls\"\npassword = \"p\"\n\
         # web\n[ui]\nport = 8080 # keep\nadmin_token = \"tok\"\n# the end\n"
    );
}

#[test]
fn the_layout_of_untouched_lines_survives() {
    let text = "\n\n  extra   =   0x1F   # hex\n\t'odd key'=1_000\nlist = [ 1,\n\n  2, # two\n]\n\
                \n[ z ]   # last letter\n   k  =  +1.0e3\n\n\n# mail\n[ smtp ]\n  port  =  0x19  # p\n\
                keep = 'a'  \n\n[ a ]\nb.c   . d = true\n\n   \n# the end\n\n";
    let mut edit = edit_from(sample_config());
    edit.admin_token = Some("tok".to_string());
    let out = edit_document(text, &edit).ok().unwrap();
    for kept in [
        "\n\n  extra   =   0x1F   # hex\n\t'odd key'=1_000\nlist = [ 1,\n\n  2, # two\n]\n",
        "\n[ z ]   # last letter\n   k  =  +1.0e3\n",
        "\n\n# mail\n[ smtp ]\n  port  =  587  # p\nkeep = 'a'  \n",
        "\n[ a ]\nb.c   . d = true\n",
    ] {
        assert!(out.contains(kept), "{out}");
    }
    assert!(out.ends_with("\n   \n# the end\n\n"), "{out}");
    let places: Vec<usize> =
        ["[ z ]", "[ smtp ]", "[ a ]"].iter().map(|h| out.find(h).unwrap()).collect();
    assert!(places[0] < places[1] && places[1] < places[2], "{out}");
    assert_eq!(edit_document(&out, &edit).ok().unwrap(), out);
}

#[test]
fn carriage_returns_survive_in_texts_alone() {
    let text = "x = \"\"\"a\r\nb\"\"\"  # c\r\n\r\n# d\r\ny = [ 1,\r\n 2 ]\r\n[smtp] # e\r\nz = 1\r\n";
    let out = edit_document(text, &edit_from(sample_config())).ok().unwrap();
    assert!(out.starts_with("x = \"\"\"a\r\nb\"\"\"  # c\n\n# d\ny = [ 1,\n 2 ]\n"), "{out}");
    assert!(out.contains("[smtp] # e\nz = 1\n"), "{out}");
    let (before, after) = (text.parse::<toml::Table>().unwrap(), out.parse::<toml::Table>().unwrap());
    assert_eq!(before["x"], after["x"]);
    assert_eq!(before["y"], after["y"]);
}

#[test]
fn nothing_is_written_but_what_the_edit_sets() {
    let text = "sender = \"a@b.c\"\ncron_expression = \"@daily\"\n";
    let edit = edit_from(sample_config());
    let out = edit_document(text, &edit).ok().unwrap();
    assert_eq!(
        out,
        "sender = \"bot@homelab.local\"\npoll_interval_seconds = 3600\n\
         recipients = [\"you@example.com\"]\nrepos = [\"fosrl/pangolin\", \"fosrl/newt\"]\n\n\
         [smtp]\nhost = \"smtp.example.com\"\nport = 587\nencryption = \"starttls\"\n\
         username = \"postmaster\"\n"
    );
    let mut with_token = edit_from(sample_config());
    with_token.admin_token = Some(String::new());
    let out = edit_document(text, &with_token).ok().unwrap();
    let t = out.parse::<toml::Table>().unwrap();
    assert_eq!(t["ui"].as_table().unwrap().len(), 1);
    assert_eq!(t["ui"]["admin_token"].as_str(), Some(""));
    assert!(t.get("state_path").is_none());
}

#[test]
fn odd_texts_are_written_so_that_they_read_back() {
    let mut edit = edit_from(sample_config());
    for odd in ["", "a\"b", "a\\b", "line\nbreak", "\r\n", "'''", "\"\"\"", "\u{0}\u{7f}ä😀", "#"] {
        edit.sender = odd.to_string();
        edit.repos = vec![odd.to_string(), odd.to_string()];
        let out = edit_document(sample_config(), &edit).ok().unwrap();
        let t = out.parse::<toml::Table>().unwrap();
        assert_eq!(t["sender"].as_str(), Some(odd));
        assert_eq!(texts(&t["repos"]), vec![odd, odd]);
        assert!(out.contains("# schedule comment that must survive"));
    }
}

#[test]
fn edits_list_their_changes() {
    let mut edit = edit_from(sample_config());
    let paths = |edit: &ConfigEdit| -> Vec<String> {
        list_changes(edit).iter().map(|c| c.path.join(".")).collect()
    };
    let fixed = vec![
        "poll_interval_seconds", "sender", "recipients", "repos", "smtp.host", "smtp.port",
        "smtp.encryption", "smtp.username",
    ];
    assert_eq!(paths(&edit), fixed);
    edit.smtp_encryption = Encryption::Plain;
    edit.cron_expression = Some("@daily".to_string());
    edit.smtp_password = Some("p".to_string());
    edit.admin_token = Some(String::new());
    let mut all = fixed;
    all.extend(["cron_expression", "smtp.password", "ui.admin_token"]);
    assert_eq!(paths(&edit), all);
    let out = edit_document(sample_config(), &edit).ok().unwrap();
    assert!(out.contains("encryption = \"none\""));
}

#[test]
fn an_interval_beyond_the_range_of_the_file_is_refused() {
    let mut d = disk(sample_config());
    let mut edit = edit_from(&d.config);
    edit.poll_interval_seconds = u64::MAX;
    assert!(edit_document(sample_config(), &edit).ok().unwrap().contains("seconds = -1"));
    let err = save(&mut d, &edit).unwrap_err();
    assert!(matches!(err, SaveError::Invalid(_)));
}
