//! The configuration: what it holds, when it is valid, and how the environment
//! takes part in it.

use vstd::prelude::*;

use crate::ip::{ip, is_ip};
use crate::patterns::{
    email_form, first_mismatch, first_without, is_email, matches_pattern, repo_form, EMAIL_PATTERN,
    REPO_PATTERN,
};
use crate::schedule::{cron_fault, normalize, schedule_fault, with_seconds, CronSchedule};
use crate::text::{decimal, decimal_of, join3, opt_text, same_text, texts, word_count};

verus! {

/// How the connection to the mail server is protected.
#[derive(Clone, Copy, Debug, PartialEq, Eq, Structural)]
pub enum Encryption {
    StartTls,
    Tls,
    Plain,
}

/// How the protection of the mail connection is written in the file.
pub open spec fn encryption_text(e: Encryption) -> Seq<char> {
    match e {
        Encryption::StartTls => "starttls"@,
        Encryption::Tls => "tls"@,
        Encryption::Plain => "none"@,
    }
}

/// Writes the protection of the mail connection.
pub fn encryption_str(e: Encryption) -> (r: &'static str)
    ensures
        r@ == encryption_text(e),
{
    match e {
        Encryption::StartTls => "starttls",
        Encryption::Tls => "tls",
        Encryption::Plain => "none",
    }
}

/// What is said of a text that names no protection.
pub open spec fn encryption_fault(text: Seq<char>) -> Seq<char> {
    "unknown variant `"@ + text + "`, expected one of `starttls`, `tls`, `none`"@
}

/// Reads the protection of the mail connection.
pub fn parse_encryption(text: &str) -> (r: Result<Encryption, String>)
    ensures
        match r {
            Ok(e) => text@ == encryption_text(e),
            Err(m) => m@ == encryption_fault(text@) && forall|e: Encryption|
                text@ != #[trigger] encryption_text(e),
        },
{
    if same_text(text, "starttls") {
        Ok(Encryption::StartTls)
    } else if same_text(text, "tls") {
        Ok(Encryption::Tls)
    } else if same_text(text, "none") {
        Ok(Encryption::Plain)
    } else {
        Err(join3("unknown variant `", text, "`, expected one of `starttls`, `tls`, `none`"))
    }
}

/// The texts tell the kinds of protection apart, so that what was written is
/// read back.
pub proof fn encryption_texts_are_distinct(a: Encryption, b: Encryption)
    requires
        encryption_text(a) == encryption_text(b),
    ensures
        a == b,
{
    reveal_strlit("starttls");
    reveal_strlit("tls");
    reveal_strlit("none");
    assert("starttls"@.len() == 8 && "tls"@.len() == 3 && "none"@.len() == 4);
}

/// The way in which requests to the web interface are let in.
#[derive(Clone, Copy, Debug, PartialEq, Eq, Structural)]
pub enum AuthMode {
    Token,
    Proxy,
    Open,
}

/// The mail server.
#[derive(Clone, Debug)]
pub struct SmtpConfig {
    pub host: String,
    pub port: u16,
    pub encryption: Encryption,
    pub username: String,
    pub password: String,
}

/// The web interface.
#[derive(Clone, Debug)]
pub struct UiConfig {
    pub bind_addr: String,
    pub port: u16,
    pub admin_token: String,
    pub trust_proxy_auth: bool,
}

impl UiConfig {
    /// The values that stand where the configuration says nothing.
    pub open spec fn is_default(self) -> bool {
        &&& self.bind_addr@ == "127.0.0.1"@
        &&& self.port == 8080
        &&& self.admin_token@ == ""@
        &&& !self.trust_proxy_auth
    }
}

impl Default for UiConfig {
    fn default() -> (r: UiConfig)
        ensures
            r.is_default(),
    {
        UiConfig {
            bind_addr: "127.0.0.1".to_string(),
            port: 8080,
            admin_token: "".to_string(),
            trust_proxy_auth: false,
        }
    }
}

/// The configuration.
#[derive(Clone, Debug)]
pub struct Config {
    pub poll_interval_seconds: u64,
    pub state_path: String,
    pub sender: String,
    pub repos: Vec<String>,
    pub recipients: Vec<String>,
    pub smtp: SmtpConfig,
    pub cron_expression: Option<String>,
    pub cron_schedule: Option<CronSchedule>,
    pub config_path: String,
    pub ui: UiConfig,
}

/// The values of the environment variables `SMTP_PASSWORD`, `GITHUB_TOKEN` and
/// `ADMIN_TOKEN`, where they are set.
#[derive(Debug)]
pub struct Env {
    pub smtp_password: Option<String>,
    pub github_token: Option<String>,
    pub admin_token: Option<String>,
}

/// What came of reading a configuration file.
pub enum ConfigFile {
    /// The file could not be read, for this reason.
    Unreadable(String),
    /// The text of the file is no configuration, for this reason.
    Unparseable(String),
    /// What the file holds.
    Parsed(Config),
}

/// Why a configuration is refused.
#[derive(Debug)]
pub enum ConfigError {
    Unreadable { path: String, reason: String },
    Unparseable { path: String, reason: String },
    PollInterval,
    NoRepos,
    InvalidRepo(String),
    NoRecipients,
    InvalidSender(String),
    InvalidRecipient(String),
    NoSmtpHost,
    SmtpPort,
    NoSmtpPassword,
    CronFields(usize),
    InvalidCron { expr: String, reason: String },
    UiPort,
    UiBindAddr(String),
    AuthModes,
    EmptyStatePath,
}

/// The reasons of `ConfigError`, over texts.
#[verifier::ext_equal]
pub enum ConfigFault {
    Unreadable { path: Seq<char>, reason: Seq<char> },
    Unparseable { path: Seq<char>, reason: Seq<char> },
    PollInterval,
    NoRepos,
    InvalidRepo(Seq<char>),
    NoRecipients,
    InvalidSender(Seq<char>),
    InvalidRecipient(Seq<char>),
    NoSmtpHost,
    SmtpPort,
    NoSmtpPassword,
    CronFields(nat),
    InvalidCron { expr: Seq<char>, reason: Seq<char> },
    UiPort,
    UiBindAddr(Seq<char>),
    AuthModes,
    EmptyStatePath,
}

impl View for ConfigError {
    type V = ConfigFault;

    open spec fn view(&self) -> ConfigFault {
        match *self {
            ConfigError::Unreadable { path, reason } => ConfigFault::Unreadable {
                path: path@,
                reason: reason@,
            },
            ConfigError::Unparseable { path, reason } => ConfigFault::Unparseable {
                path: path@,
                reason: reason@,
            },
            ConfigError::PollInterval => ConfigFault::PollInterval,
            ConfigError::NoRepos => ConfigFault::NoRepos,
            ConfigError::InvalidRepo(r) => ConfigFault::InvalidRepo(r@),
            ConfigError::NoRecipients => ConfigFault::NoRecipients,
            ConfigError::InvalidSender(s) => ConfigFault::InvalidSender(s@),
            ConfigError::InvalidRecipient(r) => ConfigFault::InvalidRecipient(r@),
            ConfigError::NoSmtpHost => ConfigFault::NoSmtpHost,
            ConfigError::SmtpPort => ConfigFault::SmtpPort,
            ConfigError::NoSmtpPassword => ConfigFault::NoSmtpPassword,
            ConfigError::CronFields(n) => ConfigFault::CronFields(n as nat),
            ConfigError::InvalidCron { expr, reason } => ConfigFault::InvalidCron {
                expr: expr@,
                reason: reason@,
            },
            ConfigError::UiPort => ConfigFault::UiPort,
            ConfigError::UiBindAddr(a) => ConfigFault::UiBindAddr(a@),
            ConfigError::AuthModes => ConfigFault::AuthModes,
            ConfigError::EmptyStatePath => ConfigFault::EmptyStatePath,
        }
    }
}

impl ConfigFault {
    /// The message that states a reason.
    pub open spec fn message(self) -> Seq<char> {
        match self {
            ConfigFault::Unreadable { path, reason } => "failed to read config file "@ + path
                + ": "@ + reason,
            ConfigFault::Unparseable { path, reason } => "failed to parse config file "@ + path
                + ": "@ + reason,
            ConfigFault::PollInterval => "poll_interval_seconds must be >= 60"@,
            ConfigFault::NoRepos => "repos must not be empty"@,
            ConfigFault::InvalidRepo(r) => "invalid repo '"@ + r + "', expected 'owner/repo'"@,
            ConfigFault::NoRecipients => "recipients must not be empty"@,
            ConfigFault::InvalidSender(s) => "sender '"@ + s + "' is not a valid email"@,
            ConfigFault::InvalidRecipient(r) => "recipient '"@ + r + "' is not a valid email"@,
            ConfigFault::NoSmtpHost => "smtp.host must not be empty"@,
            ConfigFault::SmtpPort => "smtp.port must be > 0"@,
            ConfigFault::NoSmtpPassword =>
            "smtp.username is set but no password provided (set [smtp].password or SMTP_PASSWORD env)"@,
            ConfigFault::CronFields(n) => "cron_expression must have 5 or 6 fields, got "@
                + decimal_of(n),
            ConfigFault::InvalidCron { expr, reason } => "invalid cron_expression '"@ + expr
                + "': "@ + reason,
            ConfigFault::UiPort => "ui.port must be > 0"@,
            ConfigFault::UiBindAddr(a) => "ui.bind_addr '"@ + a + "' is not a valid IP address"@,
            ConfigFault::AuthModes =>
            "ui.admin_token and ui.trust_proxy_auth are mutually exclusive; configure exactly one auth mode"@,
            ConfigFault::EmptyStatePath => "state path must not be empty"@,
        }
    }
}

impl ConfigError {
    /// The message that states the reason.
    pub fn message(&self) -> (r: String)
        ensures
            r@ == self@.message(),
    {
        match self {
            ConfigError::Unreadable { path, reason } => {
                let mut s = join3("failed to read config file ", path.as_str(), ": ");
                s.append(reason.as_str());
                s
            },
            ConfigError::Unparseable { path, reason } => {
                let mut s = join3("failed to parse config file ", path.as_str(), ": ");
                s.append(reason.as_str());
                s
            },
            ConfigError::PollInterval => "poll_interval_seconds must be >= 60".to_string(),
            ConfigError::NoRepos => "repos must not be empty".to_string(),
            ConfigError::InvalidRepo(r) => join3(
                "invalid repo '",
                r.as_str(),
                "', expected 'owner/repo'",
            ),
            ConfigError::NoRecipients => "recipients must not be empty".to_string(),
            ConfigError::InvalidSender(s) => join3(
                "sender '",
                s.as_str(),
                "' is not a valid email",
            ),
            ConfigError::InvalidRecipient(r) => join3(
                "recipient '",
                r.as_str(),
                "' is not a valid email",
            ),
            ConfigError::NoSmtpHost => "smtp.host must not be empty".to_string(),
            ConfigError::SmtpPort => "smtp.port must be > 0".to_string(),
            ConfigError::NoSmtpPassword =>
            "smtp.username is set but no password provided (set [smtp].password or SMTP_PASSWORD env)".to_string(),
            ConfigError::CronFields(n) => {
                let mut s = "cron_expression must have 5 or 6 fields, got ".to_string();
                s.append(decimal(*n as u64).as_str());
                s
            },
            ConfigError::InvalidCron { expr, reason } => {
                let mut s = join3("invalid cron_expression '", expr.as_str(), "': ");
                s.append(reason.as_str());
                s
            },
            ConfigError::UiPort => "ui.port must be > 0".to_string(),
            ConfigError::UiBindAddr(a) => join3(
                "ui.bind_addr '",
                a.as_str(),
                "' is not a valid IP address",
            ),
            ConfigError::AuthModes =>
            "ui.admin_token and ui.trust_proxy_auth are mutually exclusive; configure exactly one auth mode".to_string(),
            ConfigError::EmptyStatePath => "state path must not be empty".to_string(),
        }
    }
}

/// Why a cron expression is refused.
pub open spec fn cron_expression_fault(expr: Seq<char>) -> Option<ConfigFault> {
    match with_seconds(expr) {
        None => Some(ConfigFault::CronFields(word_count(expr))),
        Some(source) => match cron_fault(source) {
            Some(reason) => Some(ConfigFault::InvalidCron { expr, reason }),
            None => None,
        },
    }
}

/// Decides on a cron expression from what came of reading it with a field for
/// the seconds: the schedule where nothing was wrong with it.
pub fn judge_cron(expr: &str, source: String, fault: Option<String>) -> (r: Result<
    CronSchedule,
    ConfigError,
>)
    ensures
        match r {
            Ok(schedule) => fault is None && schedule@ == source@,
            Err(e) => fault is Some && e@ == (ConfigFault::InvalidCron {
                expr: expr@,
                reason: fault->0@,
            }),
        },
{
    match fault {
        Some(reason) => Err(ConfigError::InvalidCron { expr: expr.to_string(), reason }),
        None => Ok(CronSchedule { source }),
    }
}

/// Reads a cron expression of five or six fields, or a shorthand.
pub fn read_cron(expr: &str) -> (r: Result<CronSchedule, ConfigError>)
    ensures
        match r {
            Ok(schedule) => cron_expression_fault(expr@) is None && with_seconds(expr@) == Some(
                schedule@,
            ),
            Err(e) => cron_expression_fault(expr@) == Some(e@),
        },
{
    match normalize(expr) {
        Ok(source) => {
            let fault = schedule_fault(source.as_str());
            judge_cron(expr, source, fault)
        },
        Err(n) => Err(ConfigError::CronFields(n)),
    }
}

impl Config {
    /// The password for the mail server: the environment's, or else the one of
    /// the configuration.
    pub open spec fn resolved_password(self, env: Env) -> Seq<char> {
        match env.smtp_password {
            Some(v) => v@,
            None => self.smtp.password@,
        }
    }

    /// The token for the web interface: the environment's where it is not
    /// empty, or else the one of the configuration.
    pub open spec fn resolved_admin_token(self, env: Env) -> Seq<char> {
        match env.admin_token {
            Some(v) => if v@.len() > 0 {
                v@
            } else {
                self.ui.admin_token@
            },
            None => self.ui.admin_token@,
        }
    }

    /// The rule that a configuration breaks, the first one where it breaks
    /// several.
    pub open spec fn fault(self, env: Env) -> Option<ConfigFault> {
        if self.poll_interval_seconds < 60 {
            Some(ConfigFault::PollInterval)
        } else if self.repos@.len() == 0 {
            Some(ConfigFault::NoRepos)
        } else if first_without(texts(self.repos@), repo_form()) is Some {
            Some(ConfigFault::InvalidRepo(first_without(texts(self.repos@), repo_form())->0))
        } else if self.recipients@.len() == 0 {
            Some(ConfigFault::NoRecipients)
        } else if !is_email(self.sender@) {
            Some(ConfigFault::InvalidSender(self.sender@))
        } else if first_without(texts(self.recipients@), email_form()) is Some {
            Some(
                ConfigFault::InvalidRecipient(
                    first_without(texts(self.recipients@), email_form())->0,
                ),
            )
        } else if self.smtp.host@.len() == 0 {
            Some(ConfigFault::NoSmtpHost)
        } else if self.smtp.port == 0 {
            Some(ConfigFault::SmtpPort)
        } else if self.smtp.username@.len() > 0 && self.resolved_password(env).len() == 0 {
            Some(ConfigFault::NoSmtpPassword)
        } else if self.cron_expression is Some && cron_expression_fault(
            self.cron_expression->0@,
        ) is Some {
            cron_expression_fault(self.cron_expression->0@)
        } else if self.ui.port == 0 {
            Some(ConfigFault::UiPort)
        } else if !is_ip(self.ui.bind_addr@) {
            Some(ConfigFault::UiBindAddr(self.ui.bind_addr@))
        } else if self.resolved_admin_token(env).len() > 0 && self.ui.trust_proxy_auth {
            Some(ConfigFault::AuthModes)
        } else {
            None
        }
    }

    /// What validation makes of a configuration without fault: the schedule is
    /// there where an expression is, and the rest is unchanged.
    pub open spec fn validated_from(self, before: Config) -> bool {
        &&& self == Config { cron_schedule: self.cron_schedule, ..before }
        &&& match before.cron_expression {
            Some(expr) => self.cron_schedule is Some && with_seconds(expr@) == Some(
                self.cron_schedule->0@,
            ),
            None => self.cron_schedule == before.cron_schedule,
        }
    }

    /// The password for the mail server.
    pub fn smtp_password(&self, env: &Env) -> (r: String)
        ensures
            r@ == self.resolved_password(*env),
    {
        match &env.smtp_password {
            Some(v) => v.clone(),
            None => self.smtp.password.clone(),
        }
    }

    /// The token for GitHub, where one is set.
    pub fn github_token(&self, env: &Env) -> (r: Option<String>)
        ensures
            opt_text(r) == (match env.github_token {
                Some(v) => if v@.len() > 0 {
                    Some(v@)
                } else {
                    None
                },
                None => None,
            }),
    {
        match &env.github_token {
            Some(v) => if !v.as_str().is_empty() {
                Some(v.clone())
            } else {
                None
            },
            None => None,
        }
    }

    /// The token for the web interface; empty where there is none.
    pub fn admin_token(&self, env: &Env) -> (r: String)
        ensures
            r@ == self.resolved_admin_token(*env),
    {
        if let Some(v) = &env.admin_token {
            if !v.as_str().is_empty() {
                return v.clone();
            }
        }
        self.ui.admin_token.clone()
    }

    /// The way in which requests are let in.
    pub open spec fn auth_mode(self, env: Env) -> AuthMode {
        if self.resolved_admin_token(env).len() > 0 {
            AuthMode::Token
        } else if self.ui.trust_proxy_auth {
            AuthMode::Proxy
        } else {
            AuthMode::Open
        }
    }

    /// The way in which requests are let in.
    pub fn ui_auth_mode(&self, env: &Env) -> (r: AuthMode)
        ensures
            r == self.auth_mode(*env),
    {
        if !self.admin_token(env).as_str().is_empty() {
            AuthMode::Token
        } else if self.ui.trust_proxy_auth {
            AuthMode::Proxy
        } else {
            AuthMode::Open
        }
    }

    /// Whether the web interface is open to every host: bound to all addresses,
    /// with nothing asked of a request.
    pub fn is_exposed(&self, env: &Env) -> (r: bool)
        ensures
            r == (self.auth_mode(*env) == AuthMode::Open && self.ui.bind_addr@ == "0.0.0.0"@),
    {
        self.ui_auth_mode(env) == AuthMode::Open && same_text(
            self.ui.bind_addr.as_str(),
            "0.0.0.0",
        )
    }

    /// Where the web interface listens.
    pub fn listen_addr(&self) -> (r: String)
        ensures
            r@ == self.ui.bind_addr@ + ":"@ + decimal_of(self.ui.port as nat),
    {
        join3(self.ui.bind_addr.as_str(), ":", decimal(self.ui.port as u64).as_str())
    }

    /// Checks every rule, in order, and reads the schedule.
    pub fn validate(&mut self, env: &Env) -> (r: Result<(), ConfigError>)
        ensures
            match r {
                Ok(()) => old(self).fault(*env) is None && final(self).validated_from(*old(self)),
                Err(e) => old(self).fault(*env) == Some(e@) && *final(self) == *old(self),
            },
    {
        if self.poll_interval_seconds < 60 {
            return Err(ConfigError::PollInterval);
        }
        if self.repos.len() == 0 {
            return Err(ConfigError::NoRepos);
        }
        if let Some(i) = first_mismatch(&self.repos, REPO_PATTERN) {
            return Err(ConfigError::InvalidRepo(self.repos[i].clone()));
        }
        if self.recipients.len() == 0 {
            return Err(ConfigError::NoRecipients);
        }
        if !matches_pattern(EMAIL_PATTERN, self.sender.as_str()) {
            return Err(ConfigError::InvalidSender(self.sender.clone()));
        }
        if let Some(i) = first_mismatch(&self.recipients, EMAIL_PATTERN) {
            return Err(ConfigError::InvalidRecipient(self.recipients[i].clone()));
        }
        if self.smtp.host.as_str().is_empty() {
            return Err(ConfigError::NoSmtpHost);
        }
        if self.smtp.port == 0 {
            return Err(ConfigError::SmtpPort);
        }
        if !self.smtp.username.as_str().is_empty() && self.smtp_password(env).as_str().is_empty() {
            return Err(ConfigError::NoSmtpPassword);
        }
        let mut schedule: Option<CronSchedule> = None;
        if let Some(expr) = &self.cron_expression {
            match read_cron(expr.as_str()) {
                Ok(s) => {
                    schedule = Some(s);
                },
                Err(e) => {
                    return Err(e);
                },
            }
        }
        if self.ui.port == 0 {
            return Err(ConfigError::UiPort);
        }
        if !ip(self.ui.bind_addr.as_str()) {
            return Err(ConfigError::UiBindAddr(self.ui.bind_addr.clone()));
        }
        if !self.admin_token(env).as_str().is_empty() && self.ui.trust_proxy_auth {
            return Err(ConfigError::AuthModes);
        }
        if schedule.is_some() {
            self.cron_schedule = schedule;
        }
        Ok(())
    }

    /// Takes in a configuration file: notes its path and checks every rule.
    pub fn load(path: &str, file: ConfigFile, env: &Env) -> (r: Result<Config, ConfigError>)
        ensures
            match (file, r) {
                (ConfigFile::Unreadable(reason), Err(e)) => e@ == (ConfigFault::Unreadable {
                    path: path@,
                    reason: reason@,
                }),
                (ConfigFile::Unparseable(reason), Err(e)) => e@ == (ConfigFault::Unparseable {
                    path: path@,
                    reason: reason@,
                }),
                (ConfigFile::Parsed(cfg), Err(e)) => cfg.fault(*env) == Some(e@),
                (ConfigFile::Parsed(cfg), Ok(loaded)) => {
                    &&& cfg.fault(*env) is None
                    &&& loaded.config_path@ == path@
                    &&& loaded.validated_from(Config { config_path: loaded.config_path, ..cfg })
                },
                (_, Ok(_)) => false,
            },
    {
        match file {
            ConfigFile::Unreadable(reason) => Err(
                ConfigError::Unreadable { path: path.to_string(), reason },
            ),
            ConfigFile::Unparseable(reason) => Err(
                ConfigError::Unparseable { path: path.to_string(), reason },
            ),
            ConfigFile::Parsed(cfg) => {
                let mut loaded = cfg;
                loaded.config_path = path.to_string();
                match loaded.validate(env) {
                    Ok(()) => Ok(loaded),
                    Err(e) => Err(e),
                }
            },
        }
    }

    /// Puts another path in place of the state path, where one is given. The
    /// file that the configuration was read from is not touched.
    pub fn apply_state_path_override(&mut self, path: Option<&str>) -> (r: Result<(), ConfigError>)
        ensures
            match path {
                None => r is Ok && *final(self) == *old(self),
                Some(p) => if p@.len() == 0 {
                    r is Err && r->Err_0@ == ConfigFault::EmptyStatePath && *final(self) == *old(
                        self,
                    )
                } else {
                    &&& r is Ok
                    &&& final(self).state_path@ == p@
                    &&& *final(self) == (Config {
                        state_path: final(self).state_path,
                        ..*old(self)
                    })
                },
            },
    {
        if let Some(p) = path {
            if p.is_empty() {
                return Err(ConfigError::EmptyStatePath);
            }
            self.state_path = p.to_string();
        }
        Ok(())
    }
}

} // verus!
