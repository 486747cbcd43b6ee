use std::time::Duration;
use work_logr::github::{
    backoff_delay, page_step, retry_step, AttemptOutcome, GitHubClient, PageOutcome, PageStep, RetryStep, MAX_BACKOFF_MS,
};

const MAX_BACKOFF: Duration = Duration::from_millis(MAX_BACKOFF_MS);

#[test]
fn backoff_grows_exponentially_and_caps() {
    assert_eq!(Duration::from_millis(backoff_delay(1)), Duration::from_millis(250));
    assert_eq!(Duration::from_millis(backoff_delay(2)), Duration::from_millis(500));
    assert_eq!(Duration::from_millis(backoff_delay(3)), Duration::from_millis(1000));
    assert_eq!(Duration::from_millis(backoff_delay(4)), Duration::from_millis(2000));
    assert_eq!(Duration::from_millis(backoff_delay(3)), Duration::from_millis(1000));
    assert_eq!(Duration::from_millis(backoff_delay(50)), MAX_BACKOFF);
}

#[test]
fn backoff_is_never_below_the_base_and_caps_at_five_seconds() {
    assert_eq!(backoff_delay(0), 250);
    assert_eq!(backoff_delay(5), 4000);
    assert_eq!(backoff_delay(6), 5000);
    assert_eq!(backoff_delay(u32::MAX), 5000);
}

#[test]
fn retries_server_errors_and_rate_limits_until_the_fifth_attempt() {
    assert_eq!(retry_step(1, AttemptOutcome::Response { status: 503 }), RetryStep::RetryAfter(250));
    assert_eq!(retry_step(2, AttemptOutcome::Response { status: 429 }), RetryStep::RetryAfter(500));
    assert_eq!(retry_step(5, AttemptOutcome::Response { status: 500 }), RetryStep::Finish);
    assert_eq!(retry_step(1, AttemptOutcome::Response { status: 404 }), RetryStep::Finish);
    assert_eq!(retry_step(1, AttemptOutcome::Response { status: 200 }), RetryStep::Finish);
}

#[test]
fn retries_only_transient_transport_errors() {
    assert_eq!(retry_step(1, AttemptOutcome::TransportError { transient: true }), RetryStep::RetryAfter(250));
    assert_eq!(retry_step(4, AttemptOutcome::TransportError { transient: true }), RetryStep::RetryAfter(2000));
    assert_eq!(retry_step(5, AttemptOutcome::TransportError { transient: true }), RetryStep::Fail);
    assert_eq!(retry_step(1, AttemptOutcome::TransportError { transient: false }), RetryStep::Fail);
}

#[test]
fn paging_stops_on_errors_and_empty_pages() {
    assert_eq!(page_step(1, PageOutcome::Unsuccessful), PageStep::Fail);
    assert_eq!(page_step(1, PageOutcome::EmptyBody), PageStep::Finish);
    assert_eq!(page_step(3, PageOutcome::Items(0)), PageStep::Finish);
    assert_eq!(page_step(3, PageOutcome::Items(100)), PageStep::Request(4));
}

#[test]
fn request_urls_and_authorization() {
    let client = GitHubClient::new("secret".to_string(), "owner".to_string(), "repo".to_string());
    assert_eq!(client.auth_header(), "token secret");
    assert_eq!(client.issues_url(), "https://api.github.com/repos/owner/repo/issues");
    assert_eq!(client.pulls_url(), "https://api.github.com/repos/owner/repo/pulls");
    assert_eq!(client.commits_url(), "https://api.github.com/repos/owner/repo/commits");
    assert_eq!(client.pr_commits_url(42), "https://api.github.com/repos/owner/repo/pulls/42/commits");
}
