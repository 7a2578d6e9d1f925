use gh_release_notify::github::{
    is_success, say_status, GithubClient, GithubError, GithubReply, Release, TIMEOUT_SECONDS, USER_AGENT,
};
use gh_release_notify::time::Timestamp;

fn release(tag: &str) -> Release {
    Release {
        tag_name: tag.to_string(),
        name: tag.to_string(),
        html_url: "https://example.com".to_string(),
        body: String::new(),
        published_at: Timestamp { secs: 7, nanos: 8 },
    }
}

fn reply(status: u16, text: &str) -> GithubReply {
    GithubReply {
        status,
        remaining: None,
        text: text.to_string(),
        release: Err("no release".to_string()),
    }
}

fn client() -> GithubClient {
    GithubClient::new(None)
}

#[test]
fn requests_name_the_repository_and_carry_the_token() {
    let r = GithubClient::new(Some("tok".to_string())).request("fosrl/newt");
    assert_eq!(r.url, "https://api.github.com/repos/fosrl/newt/releases/latest");
    assert_eq!(r.bearer.as_deref(), Some("tok"));
    assert!(client().request("a/b").bearer.is_none());
    assert_eq!(TIMEOUT_SECONDS, 30);
    assert_eq!(USER_AGENT, "pangolin-notify/0.1 (+https://github.com/fosrl)");
}

#[test]
fn success_gives_the_release() {
    let mut ok = reply(200, "{}");
    ok.release = Ok(release("1.0"));
    let found = client().latest_stable_release("a/b", Ok(ok)).unwrap().unwrap();
    assert_eq!(found.tag_name, "1.0");
    assert_eq!((found.published_at.secs, found.published_at.nanos), (7, 8));
    let bad = client().latest_stable_release("a/b", Ok(reply(299, ""))).unwrap_err();
    assert_eq!(bad.message(), "no release");
}

#[test]
fn the_two_hundreds_tell_of_success() {
    assert!(is_success(200) && is_success(299));
    assert!(!is_success(199) && !is_success(300) && !is_success(0) && !is_success(u16::MAX));
}

#[test]
fn missing_release_is_no_error() {
    assert!(client().latest_stable_release("a/b", Ok(reply(404, "x"))).unwrap().is_none());
}

#[test]
fn forbidden_is_a_rate_limit() {
    let e = client().latest_stable_release("a/b", Ok(reply(403, "slow down"))).unwrap_err();
    assert!(matches!(e, GithubError::RateLimited { .. }));
    assert_eq!(e.message(), "github rate-limited (403) for a/b: slow down");
}

#[test]
fn other_statuses_are_reported_with_the_start_of_the_body() {
    let long = "ä".repeat(300);
    let e = client().latest_stable_release("a/b", Ok(reply(500, &long))).unwrap_err();
    assert_eq!(
        e.message(),
        format!(
            "github request for a/b failed: status 500 Internal Server Error, body: {}",
            "ä".repeat(200)
        )
    );
    let e = client().latest_stable_release("a/b", Ok(reply(799, "b"))).unwrap_err();
    assert_eq!(
        e.message(),
        "github request for a/b failed: status 799 <unknown status code>, body: b"
    );
    let e = client().latest_stable_release("a/b", Ok(reply(42, "b"))).unwrap_err();
    assert_eq!(e.message(), "github request for a/b failed: status 42, body: b");
    let e = client().latest_stable_release("a/b", Ok(reply(300, ""))).unwrap_err();
    assert!(matches!(e, GithubError::Status { .. }));
    assert_eq!(say_status("r", "s", "b"), "github request for r failed: status s, body: b");
}

#[test]
fn failed_requests_are_reported() {
    let e = client().latest_stable_release("a/b", Err("timeout".to_string())).unwrap_err();
    assert_eq!(e.message(), "timeout");
}

#[test]
fn low_rate_limits_are_noticed() {
    let mut r = reply(200, "");
    assert_eq!(r.low_rate_limit(), None);
    r.remaining = Some("9".to_string());
    assert_eq!(r.low_rate_limit(), Some(9));
    r.remaining = Some("10".to_string());
    assert_eq!(r.low_rate_limit(), None);
    r.remaining = Some("few".to_string());
    assert_eq!(r.low_rate_limit(), None);
    let mut r = reply(404, "");
    r.remaining = Some("0".to_string());
    assert_eq!(r.low_rate_limit(), None);
}
