//! The latest stable release of a repository, as GitHub answers for it.

use vstd::prelude::*;

use crate::text::{
    decimal, decimal_of, digits_value, first_chars, head, is_u64, join3, parse_u64, unsigned_digits,
};
use crate::time::Timestamp;

verus! {

/// How the daemon names itself in requests.
pub const USER_AGENT: &'static str = "pangolin-notify/0.1 (+https://github.com/fosrl)";

/// How long a request may take, in seconds.
pub const TIMEOUT_SECONDS: u64 = 30;

/// A release. Its text is empty where GitHub gives none.
#[derive(Debug)]
pub struct Release {
    pub tag_name: String,
    pub name: String,
    pub html_url: String,
    pub body: String,
    pub published_at: Timestamp,
}

/// A release, over texts.
#[verifier::ext_equal]
pub struct ReleaseView {
    pub tag_name: Seq<char>,
    pub name: Seq<char>,
    pub html_url: Seq<char>,
    pub body: Seq<char>,
    pub published_at: Timestamp,
}

impl View for Release {
    type V = ReleaseView;

    open spec fn view(&self) -> ReleaseView {
        ReleaseView {
            tag_name: self.tag_name@,
            name: self.name@,
            html_url: self.html_url@,
            body: self.body@,
            published_at: self.published_at,
        }
    }
}

/// A request for the latest release of a repository.
pub struct ReleaseRequest {
    pub url: String,
    pub bearer: Option<String>,
}

/// What GitHub answered: the status, the header `X-RateLimit-Remaining` where
/// it is there and readable, the text of the body (empty where it could not be
/// read), and the release that the body holds, or why it holds none.
pub struct GithubReply {
    pub status: u16,
    pub remaining: Option<String>,
    pub text: String,
    pub release: Result<Release, String>,
}

/// Why there is no answer on a release.
#[derive(Debug)]
pub enum GithubError {
    /// GitHub refused the request.
    RateLimited { repo: String, body: String },
    /// GitHub answered with another status that is no success.
    Status { repo: String, status: u16, body: String },
    /// The request could not be made, or its answer not be read.
    Request(String),
}

/// The reasons of `GithubError`, over texts.
#[verifier::ext_equal]
pub enum GithubFault {
    RateLimited { repo: Seq<char>, body: Seq<char> },
    Status { repo: Seq<char>, status: u16, body: Seq<char> },
    Request(Seq<char>),
}

impl View for GithubError {
    type V = GithubFault;

    open spec fn view(&self) -> GithubFault {
        match *self {
            GithubError::RateLimited { repo, body } => GithubFault::RateLimited {
                repo: repo@,
                body: body@,
            },
            GithubError::Status { repo, status, body } => GithubFault::Status {
                repo: repo@,
                status,
                body: body@,
            },
            GithubError::Request(m) => GithubFault::Request(m@),
        }
    }
}

/// The line that `http`'s `StatusCode` displays for a number: the number and its
/// usual reason. Nothing where the number is no status.
pub uninterp spec fn http_status_line(status: int) -> Option<Seq<char>>;

/// Writes a status: `StatusCode::from_u16`, which takes the numbers of three
/// digits, and `to_string`. The text is named by `http_status_line`.
#[verifier::external_body]
fn status_line(status: u16) -> (r: Option<String>)
    ensures
        match r {
            Some(t) => http_status_line(status as int) == Some(t@),
            None => http_status_line(status as int) is None,
        },
        r is Some <==> 100 <= status <= 999,
{
    reqwest::StatusCode::from_u16(status).ok().map(|s| s.to_string())
}

/// What is said of a status: its line, or the bare number.
pub open spec fn status_text(status: u16) -> Seq<char> {
    match http_status_line(status as int) {
        Some(t) => t,
        None => decimal_of(status as nat),
    }
}

/// The message on a status that is no success.
pub open spec fn status_message(repo: Seq<char>, status: Seq<char>, body: Seq<char>) -> Seq<char> {
    "github request for "@ + repo + " failed: status "@ + status + ", body: "@ + body
}

/// Says that a request failed with a status.
pub fn say_status(repo: &str, status: &str, body: &str) -> (r: String)
    ensures
        r@ == status_message(repo@, status@, body@),
{
    let mut s = join3("github request for ", repo, " failed: status ");
    s.append(status);
    s.append(", body: ");
    s.append(body);
    s
}

impl GithubError {
    /// The message that states the reason.
    pub fn message(&self) -> (r: String)
        ensures
            r@ == (match self@ {
                GithubFault::RateLimited { repo, body } => "github rate-limited (403) for "@ + repo
                    + ": "@ + body,
                GithubFault::Status { repo, status, body } => status_message(
                    repo,
                    status_text(status),
                    body,
                ),
                GithubFault::Request(m) => m,
            }),
    {
        match self {
            GithubError::RateLimited { repo, body } => {
                let mut s = join3("github rate-limited (403) for ", repo.as_str(), ": ");
                s.append(body.as_str());
                s
            },
            GithubError::Status { repo, status, body } => {
                let text = match status_line(*status) {
                    Some(t) => t,
                    None => decimal(*status as u64),
                };
                say_status(repo.as_str(), text.as_str(), body.as_str())
            },
            GithubError::Request(m) => m.clone(),
        }
    }
}

/// The answer on a release, over texts.
#[verifier::ext_equal]
pub enum Answer {
    Nothing,
    Found(ReleaseView),
    Fault(GithubFault),
}

/// What a reply says of the latest release.
pub open spec fn answer_of(repo: Seq<char>, reply: Result<GithubReply, String>) -> Answer {
    match reply {
        Err(m) => Answer::Fault(GithubFault::Request(m@)),
        Ok(reply) => if reply.status == 404 {
            Answer::Nothing
        } else if reply.status == 403 {
            Answer::Fault(GithubFault::RateLimited { repo, body: reply.text@ })
        } else if !(200 <= reply.status <= 299) {
            Answer::Fault(
                GithubFault::Status {
                    repo,
                    status: reply.status,
                    body: first_chars(reply.text@, 200),
                },
            )
        } else {
            match reply.release {
                Ok(release) => Answer::Found(release@),
                Err(m) => Answer::Fault(GithubFault::Request(m@)),
            }
        },
    }
}

/// A result on a release as an answer.
pub open spec fn answer_view(r: Result<Option<Release>, GithubError>) -> Answer {
    match r {
        Ok(None) => Answer::Nothing,
        Ok(Some(release)) => Answer::Found(release@),
        Err(e) => Answer::Fault(e@),
    }
}

/// Whether a status tells of success. Then the body is to be read as a release,
/// and otherwise as text.
pub fn is_success(status: u16) -> (r: bool)
    ensures
        r == (200 <= status <= 299),
{
    200 <= status && status <= 299
}

impl GithubReply {
    /// The number of requests left, where the reply gives a number below ten.
    /// Nothing is read from the reply for a repository without releases.
    pub fn low_rate_limit(&self) -> (r: Option<u64>)
        ensures
            r is Some <==> {
                &&& self.status != 404
                &&& self.remaining is Some
                &&& is_u64(self.remaining->0@)
                &&& digits_value(unsigned_digits(self.remaining->0@)) < 10
            },
            r matches Some(n) ==> n == digits_value(unsigned_digits(self.remaining->0@)),
    {
        if self.status == 404 {
            return None;
        }
        if let Some(remaining) = &self.remaining {
            if let Some(n) = parse_u64(remaining.as_str()) {
                if n < 10 {
                    return Some(n);
                }
            }
        }
        None
    }
}

/// Asks GitHub for releases, with a token where there is one.
pub struct GithubClient {
    token: Option<String>,
}

impl GithubClient {
    pub closed spec fn token(self) -> Option<String> {
        self.token
    }

    /// A client that uses a token where one is given.
    pub fn new(token: Option<String>) -> (r: GithubClient)
        ensures
            r.token() == token,
    {
        GithubClient { token }
    }

    /// The request for the latest release of a repository.
    pub fn request(&self, repo: &str) -> (r: ReleaseRequest)
        ensures
            r.url@ == "https://api.github.com/repos/"@ + repo@ + "/releases/latest"@,
            r.bearer == self.token(),
    {
        ReleaseRequest {
            url: join3("https://api.github.com/repos/", repo, "/releases/latest"),
            bearer: match &self.token {
                Some(t) => Some(t.clone()),
                None => None,
            },
        }
    }

    /// The latest stable release of a repository, from the reply to the
    /// request for it.
    pub fn latest_stable_release(&self, repo: &str, reply: Result<GithubReply, String>) -> (r:
        Result<Option<Release>, GithubError>)
        ensures
            answer_view(r) == answer_of(repo@, reply),
    {
        match reply {
            Err(m) => Err(GithubError::Request(m)),
            Ok(reply) => if reply.status == 404 {
                Ok(None)
            } else if reply.status == 403 {
                Err(GithubError::RateLimited { repo: repo.to_string(), body: reply.text })
            } else if !is_success(reply.status) {
                Err(
                    GithubError::Status {
                        repo: repo.to_string(),
                        status: reply.status,
                        body: head(reply.text.as_str(), 200).to_string(),
                    },
                )
            } else {
                match reply.release {
                    Ok(release) => Ok(Some(release)),
                    Err(m) => Err(GithubError::Request(m)),
                }
            },
        }
    }
}

} // verus!
