//! The e-mail that announces a release.

use vstd::prelude::*;

use crate::config::{Config, Encryption, Env};
use crate::github::{Release, ReleaseView};
use crate::text::{join3, opt_text, texts};
use crate::time::{format_utc, utc_format, MAX_SECONDS, MINUTE_PATTERN, MIN_SECONDS};

verus! {

/// The text of an announcement, with the date of publication as it is to stand
/// there.
pub open spec fn body_text(release: ReleaseView, repo: Seq<char>, published: Seq<char>) -> Seq<
    char,
> {
    "A new stable release of "@ + repo + " is available.\n\nTag: "@ + release.tag_name
        + "\nName: "@ + release.name + "\nPublished: "@ + published + "\nURL: "@ + release.html_url
        + "\n\nRelease notes:\n"@ + release.body + "\n"@
}

/// Writes the text of an announcement, with the date as given.
pub fn body_with_date(release: &Release, repo: &str, published: &str) -> (r: String)
    ensures
        r@ == body_text(release@, repo@, published@),
        r@ == "A new stable release of "@ + repo@ + " is available.\n\nTag: "@ + release.tag_name@
            + "\nName: "@ + release.name@ + "\nPublished: "@ + published@ + "\nURL: "@
            + release.html_url@ + "\n\nRelease notes:\n"@ + release.body@ + "\n"@,
{
    let mut s = join3("A new stable release of ", repo, " is available.\n\nTag: ");
    s.append(release.tag_name.as_str());
    s.append("\nName: ");
    s.append(release.name.as_str());
    s.append("\nPublished: ");
    s.append(published);
    s.append("\nURL: ");
    s.append(release.html_url.as_str());
    s.append("\n\nRelease notes:\n");
    s.append(release.body.as_str());
    s.append("\n");
    s
}

/// Writes the text of an announcement.
pub fn build_body(release: &Release, repo: &str) -> (r: String)
    requires
        MIN_SECONDS <= release.published_at.secs <= MAX_SECONDS,
    ensures
        r@ == body_text(
            release@,
            repo@,
            utc_format(release.published_at.secs as int, MINUTE_PATTERN@),
        ),
        r@ == "A new stable release of "@ + repo@ + " is available.\n\nTag: "@ + release.tag_name@
            + "\nName: "@ + release.name@ + "\nPublished: "@ + utc_format(
            release.published_at.secs as int,
            "%Y-%m-%d %H:%M UTC"@,
        ) + "\nURL: "@
            + release.html_url@ + "\n\nRelease notes:\n"@ + release.body@ + "\n"@,
{
    let published = format_utc(release.published_at.secs, MINUTE_PATTERN);
    body_with_date(release, repo, published.as_str())
}

/// The kind of text that an announcement is.
pub const PLAIN_TEXT: &'static str = "text/plain; charset=utf-8";

/// An e-mail.
pub struct Email {
    pub from: String,
    pub to: Vec<String>,
    pub subject: String,
    pub content_type: String,
    pub body: String,
}

/// Why an e-mail cannot be sent.
#[derive(Debug)]
pub enum MailError {
    InvalidSender { sender: String, reason: String },
    InvalidRecipient { recipient: String, reason: String },
    /// The addresses make no message, as where there are no recipients.
    NoMessage { reason: String },
}

/// The reasons of `MailError`, over texts.
#[verifier::ext_equal]
pub enum MailFault {
    InvalidSender { sender: Seq<char>, reason: Seq<char> },
    InvalidRecipient { recipient: Seq<char>, reason: Seq<char> },
    NoMessage { reason: Seq<char> },
}

impl View for MailError {
    type V = MailFault;

    open spec fn view(&self) -> MailFault {
        match *self {
            MailError::InvalidSender { sender, reason } => MailFault::InvalidSender {
                sender: sender@,
                reason: reason@,
            },
            MailError::InvalidRecipient { recipient, reason } => MailFault::InvalidRecipient {
                recipient: recipient@,
                reason: reason@,
            },
            MailError::NoMessage { reason } => MailFault::NoMessage { reason: reason@ },
        }
    }
}

impl MailError {
    /// The message that states the reason.
    pub fn message(&self) -> (r: String)
        ensures
            r@ == (match self@ {
                MailFault::InvalidSender { sender, reason } => "invalid sender '"@ + sender
                    + "': "@ + reason,
                MailFault::InvalidRecipient { recipient, reason } => "invalid recipient '"@
                    + recipient + "': "@ + reason,
                MailFault::NoMessage { reason } => reason,
            }),
    {
        match self {
            MailError::InvalidSender { sender, reason } => {
                let mut s = join3("invalid sender '", sender.as_str(), "': ");
                s.append(reason.as_str());
                s
            },
            MailError::InvalidRecipient { recipient, reason } => {
                let mut s = join3("invalid recipient '", recipient.as_str(), "': ");
                s.append(reason.as_str());
                s
            },
            MailError::NoMessage { reason } => reason.clone(),
        }
    }
}

/// The message with which `lettre`'s `Mailbox::from_str` refuses a text, or
/// nothing where it reads it.
pub uninterp spec fn mailbox_fault(text: Seq<char>) -> Option<Seq<char>>;

/// Reads a mailbox: `lettre`'s `Mailbox::from_str`. What comes back is the text
/// of its error, named by `mailbox_fault`.
#[verifier::external_body]
fn read_mailbox(text: &str) -> (r: Option<String>)
    ensures
        opt_text(r) == mailbox_fault(text@),
{
    text.parse::<lettre::message::Mailbox>().err().map(|e| e.to_string())
}

/// The message with which `lettre` refuses to build an e-mail from a sender to
/// recipients, or nothing where it builds one: that of `Mailbox::from_str`, or
/// that of `MessageBuilder::body`.
pub uninterp spec fn message_fault(sender: Seq<char>, recipients: Seq<Seq<char>>) -> Option<Seq<char>>;

/// Builds an e-mail from a sender to recipients: `lettre`'s `MessageBuilder`, its
/// methods `from` and `to`, and `body`. Whether that succeeds does not depend on
/// the subject and the text, which are left empty here. What comes back is the
/// text of the error, named by `message_fault`; without a recipient there is
/// always one.
#[verifier::external_body]
fn build_message(sender: &str, recipients: &Vec<String>) -> (r: Result<(), String>)
    ensures
        match r {
            Ok(()) => message_fault(sender@, texts(recipients@)) is None,
            Err(m) => message_fault(sender@, texts(recipients@)) == Some(m@),
        },
        recipients@.len() == 0 ==> r is Err,
{
    let read = |text: &str| text.parse::<lettre::message::Mailbox>().map_err(|e| e.to_string());
    let mut builder = lettre::Message::builder().from(read(sender)?);
    for recipient in recipients {
        builder = builder.to(read(recipient)?);
    }
    builder.body(String::new()).map(|_| ()).map_err(|e| e.to_string())
}

/// The first recipient with a fault, given the fault of each.
pub open spec fn first_recipient_fault(
    recipients: Seq<Seq<char>>,
    faults: Seq<Option<Seq<char>>>,
) -> Option<MailFault>
    decreases recipients.len(),
{
    if recipients.len() == 0 {
        None
    } else if faults[0] is Some {
        Some(MailFault::InvalidRecipient { recipient: recipients[0], reason: faults[0]->0 })
    } else {
        first_recipient_fault(recipients.drop_first(), faults.drop_first())
    }
}

/// What is wrong with the addresses of an e-mail, given the fault of each: the
/// sender's, or else that of the first recipient with one.
pub open spec fn address_fault(
    sender: Seq<char>,
    sender_fault: Option<Seq<char>>,
    recipients: Seq<Seq<char>>,
    faults: Seq<Option<Seq<char>>>,
) -> Option<MailFault> {
    match sender_fault {
        Some(reason) => Some(MailFault::InvalidSender { sender, reason }),
        None => first_recipient_fault(recipients, faults),
    }
}

/// Why an e-mail cannot be sent, given the fault of each address and that of the
/// message as a whole: the addresses come first.
pub open spec fn mail_fault(
    sender: Seq<char>,
    sender_fault: Option<Seq<char>>,
    recipients: Seq<Seq<char>>,
    faults: Seq<Option<Seq<char>>>,
    message_fault: Option<Seq<char>>,
) -> Option<MailFault> {
    match address_fault(sender, sender_fault, recipients, faults) {
        Some(fault) => Some(fault),
        None => match message_fault {
            Some(reason) => Some(MailFault::NoMessage { reason }),
            None => None,
        },
    }
}

pub open spec fn opt_texts(v: Seq<Option<String>>) -> Seq<Option<Seq<char>>> {
    v.map_values(|o: Option<String>| opt_text(o))
}

/// The faults that `lettre` finds in a list of mailboxes.
pub open spec fn mailbox_faults(v: Seq<Seq<char>>) -> Seq<Option<Seq<char>>> {
    v.map_values(|t: Seq<char>| mailbox_fault(t))
}

/// Decides on the addresses of an e-mail from the fault of each.
pub fn judge_addresses(
    sender: &str,
    sender_fault: Option<String>,
    recipients: &Vec<String>,
    faults: &Vec<Option<String>>,
) -> (r: Result<(), MailError>)
    requires
        recipients@.len() == faults@.len(),
    ensures
        match r {
            Ok(()) => address_fault(
                sender@,
                opt_text(sender_fault),
                texts(recipients@),
                opt_texts(faults@),
            ) is None,
            Err(e) => address_fault(
                sender@,
                opt_text(sender_fault),
                texts(recipients@),
                opt_texts(faults@),
            ) == Some(e@),
        },
{
    if let Some(reason) = sender_fault {
        return Err(MailError::InvalidSender { sender: sender.to_string(), reason });
    }
    let ghost rs = texts(recipients@);
    let ghost fs = opt_texts(faults@);
    let mut i: usize = 0;
    assert(rs.skip(0) =~= rs);
    assert(fs.skip(0) =~= fs);
    while i < recipients.len()
        invariant
            i <= recipients@.len() == faults@.len(),
            sender_fault is None,
            rs == texts(recipients@),
            fs == opt_texts(faults@),
            first_recipient_fault(rs, fs) == first_recipient_fault(
                rs.skip(i as int),
                fs.skip(i as int),
            ),
        decreases recipients@.len() - i,
    {
        assert(rs.skip(i as int)[0] == recipients@[i as int]@);
        assert(fs.skip(i as int)[0] == opt_text(faults@[i as int]));
        assert(rs.skip(i as int).drop_first() =~= rs.skip(i + 1));
        assert(fs.skip(i as int).drop_first() =~= fs.skip(i + 1));
        if let Some(reason) = &faults[i] {
            return Err(
                MailError::InvalidRecipient {
                    recipient: recipients[i].clone(),
                    reason: reason.clone(),
                },
            );
        }
        i = i + 1;
    }
    Ok(())
}

/// Decides on an e-mail from the fault of each address and from what came of
/// building the message.
pub fn judge_mail(
    sender: &str,
    sender_fault: Option<String>,
    recipients: &Vec<String>,
    faults: &Vec<Option<String>>,
    built: Result<(), String>,
) -> (r: Result<(), MailError>)
    requires
        recipients@.len() == faults@.len(),
    ensures
        ({
            let fault = mail_fault(
                sender@,
                opt_text(sender_fault),
                texts(recipients@),
                opt_texts(faults@),
                match built {
                    Ok(()) => None,
                    Err(m) => Some(m@),
                },
            );
            match r {
                Ok(()) => fault is None,
                Err(e) => fault == Some(e@),
            }
        }),
{
    match judge_addresses(sender, sender_fault, recipients, faults) {
        Err(e) => Err(e),
        Ok(()) => match built {
            Ok(()) => Ok(()),
            Err(reason) => Err(MailError::NoMessage { reason }),
        },
    }
}

/// Sends announcements from one address through one mail server.
pub struct Mailer {
    pub host: String,
    pub port: u16,
    pub encryption: Encryption,
    /// The user name and the password, where there is a user name.
    pub credentials: Option<(String, String)>,
    pub sender: String,
}

/// The subject of an announcement.
pub open spec fn subject_text(repo: Seq<char>, tag: Seq<char>) -> Seq<char> {
    "[gh-release-notify] "@ + repo + " "@ + tag + " released"@
}

impl Mailer {
    /// The mailer for a configuration.
    pub fn new(cfg: &Config, env: &Env) -> (r: Mailer)
        ensures
            r.host == cfg.smtp.host,
            r.port == cfg.smtp.port,
            r.encryption == cfg.smtp.encryption,
            r.sender == cfg.sender,
            r.credentials is Some <==> cfg.smtp.username@.len() > 0,
            r.credentials matches Some(c) ==> c.0@ == cfg.smtp.username@ && c.1@
                == cfg.resolved_password(*env),
    {
        let credentials = if !cfg.smtp.username.as_str().is_empty() {
            Some((cfg.smtp.username.clone(), cfg.smtp_password(env)))
        } else {
            None
        };
        Mailer {
            host: cfg.smtp.host.clone(),
            port: cfg.smtp.port,
            encryption: cfg.smtp.encryption,
            credentials,
            sender: cfg.sender.clone(),
        }
    }

    /// Why no announcement can be sent to recipients, where none can.
    pub open spec fn fault(self, recipients: Seq<Seq<char>>) -> Option<MailFault> {
        mail_fault(
            self.sender@,
            mailbox_fault(self.sender@),
            recipients,
            mailbox_faults(recipients),
            message_fault(self.sender@, recipients),
        )
    }

    /// The e-mail that announces a release, where one can be sent.
    pub fn send_new_release(&self, release: &Release, repo: &str, recipients: &Vec<String>) -> (r:
        Result<Email, MailError>)
        requires
            MIN_SECONDS <= release.published_at.secs <= MAX_SECONDS,
        ensures
            match r {
                Ok(email) => {
                    &&& self.fault(texts(recipients@)) is None
                    &&& email.from@ == self.sender@
                    &&& texts(email.to@) == texts(recipients@)
                    &&& email.subject@ == subject_text(repo@, release@.tag_name)
                    &&& email.content_type@ == PLAIN_TEXT@
                    &&& email.body@ == body_text(
                        release@,
                        repo@,
                        utc_format(release.published_at.secs as int, MINUTE_PATTERN@),
                    )
                },
                Err(e) => self.fault(texts(recipients@)) == Some(e@),
            },
            recipients@.len() == 0 ==> r is Err,
    {
        let body = build_body(release, repo);
        let mut subject = join3("[gh-release-notify] ", repo, " ");
        subject.append(release.tag_name.as_str());
        subject.append(" released");
        let sender_fault = read_mailbox(self.sender.as_str());
        let mut to: Vec<String> = Vec::new();
        let mut faults: Vec<Option<String>> = Vec::new();
        let mut i: usize = 0;
        while i < recipients.len()
            invariant
                i <= recipients@.len(),
                to@.len() == i,
                faults@.len() == i,
                forall|j: int| 0 <= j < i ==> (#[trigger] to@[j])@ == recipients@[j]@,
                forall|j: int|
                    0 <= j < i ==> opt_text(#[trigger] faults@[j]) == mailbox_fault(
                        recipients@[j]@,
                    ),
            decreases recipients@.len() - i,
        {
            faults.push(read_mailbox(recipients[i].as_str()));
            to.push(recipients[i].clone());
            i = i + 1;
        }
        assert(texts(to@) =~= texts(recipients@));
        assert(opt_texts(faults@) =~= mailbox_faults(texts(recipients@)));
        let built = build_message(self.sender.as_str(), recipients);
        match judge_mail(self.sender.as_str(), sender_fault, recipients, &faults, built) {
            Ok(()) => Ok(
                Email {
                    from: self.sender.clone(),
                    to,
                    subject,
                    content_type: PLAIN_TEXT.to_string(),
                    body,
                },
            ),
            Err(e) => Err(e),
        }
    }
}

} // verus!
