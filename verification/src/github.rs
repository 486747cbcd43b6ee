//! The decisions around GitHub API requests: retries with backoff, paging, and addresses.
use vstd::prelude::*;
use vstd::arithmetic::power2::{pow2, lemma2_to64};
use vstd::bits::lemma_u64_shl_is_mul;
use crate::decimal::{decimal_text, u64_text};
use crate::text::{append_chars, chars_of, string_of};

verus! {

/// Maximum number of attempts (initial try and retries) for a single request.
pub const MAX_ATTEMPTS: u32 = 5;

/// Base delay of the exponential backoff schedule, in milliseconds.
pub const BASE_BACKOFF_MS: u64 = 250;

/// Upper bound of a single backoff sleep, in milliseconds.
pub const MAX_BACKOFF_MS: u64 = 5000;

/// The wait after failed attempt number `attempt` (counting from 1): 250 ms doubled for
/// each earlier attempt, at most 5 s.
pub open spec fn backoff_millis(attempt: int) -> int {
    let shift = if attempt <= 1 { 0 } else if attempt - 1 > 20 { 20 } else { attempt - 1 };
    let millis = BASE_BACKOFF_MS * pow2(shift as nat);
    if millis < MAX_BACKOFF_MS { millis } else { MAX_BACKOFF_MS as int }
}

/// Exponential backoff in milliseconds: 250, 500, 1000, 2000, then capped at 5000.
/// `attempt` is the 1-based number of the attempt that just failed.
pub fn backoff_delay(attempt: u32) -> (r: u64)
    ensures
        r == backoff_millis(attempt as int),
{
    let shift: u64 = if attempt <= 1 { 0 } else if attempt - 1 > 20 { 20 } else { (attempt - 1) as u64 };
    proof {
        lemma2_to64();
        if shift < 21 {
            vstd::arithmetic::power2::lemma_pow2_strictly_increases(shift as nat, 21);
        }
        lemma_u64_shl_is_mul(1, shift);
    }
    let factor: u64 = 1u64 << shift;
    let millis = BASE_BACKOFF_MS * factor;
    if millis < MAX_BACKOFF_MS {
        millis
    } else {
        MAX_BACKOFF_MS
    }
}

/// The backoff never waits less after a later attempt, and never more than 5 s.
pub proof fn law_backoff_monotone_and_capped(a: int, b: int)
    requires
        a <= b,
    ensures
        backoff_millis(a) <= backoff_millis(b),
        backoff_millis(b) <= MAX_BACKOFF_MS,
{
    let sa = if a <= 1 { 0 } else if a - 1 > 20 { 20 } else { a - 1 };
    let sb = if b <= 1 { 0 } else if b - 1 > 20 { 20 } else { b - 1 };
    if sa < sb {
        vstd::arithmetic::power2::lemma_pow2_strictly_increases(sa as nat, sb as nat);
    }
}

/// What one attempt at a request came to.
#[derive(Clone, Copy, Debug, PartialEq, Eq, Structural)]
pub enum AttemptOutcome {
    /// The server answered with this HTTP status.
    Response { status: u16 },
    /// The request failed before an answer; `transient` for time-outs, connection, request,
    /// body and decode failures.
    TransportError { transient: bool },
}

/// What to do after an attempt.
#[derive(Clone, Copy, Debug, PartialEq, Eq, Structural)]
pub enum RetryStep {
    /// Hand the response to the caller.
    Finish,
    /// Give up and report the transport error.
    Fail,
    /// Wait this many milliseconds, then try again.
    RetryAfter(u64),
}

/// A status worth retrying: a server error (5xx) or "too many requests" (429).
pub open spec fn retryable_status(status: int) -> bool {
    (500 <= status <= 599) || status == 429
}

/// The decision after attempt number `attempt`.
pub open spec fn retry_decision(attempt: int, outcome: AttemptOutcome) -> RetryStep {
    match outcome {
        AttemptOutcome::Response { status } => if retryable_status(status as int) && attempt < MAX_ATTEMPTS {
            RetryStep::RetryAfter(backoff_millis(attempt) as u64)
        } else {
            RetryStep::Finish
        },
        AttemptOutcome::TransportError { transient } => if attempt >= MAX_ATTEMPTS || !transient {
            RetryStep::Fail
        } else {
            RetryStep::RetryAfter(backoff_millis(attempt) as u64)
        },
    }
}

/// Decides, after attempt number `attempt` (counting from 1), whether to retry a GET:
/// retryable statuses and transient failures are retried with backoff until the fifth attempt.
pub fn retry_step(attempt: u32, outcome: AttemptOutcome) -> (r: RetryStep)
    ensures
        r == retry_decision(attempt as int, outcome),
        r is RetryAfter ==> attempt < MAX_ATTEMPTS,
{
    match outcome {
        AttemptOutcome::Response { status } => {
            let retryable = (500 <= status && status <= 599) || status == 429;
            if retryable && attempt < MAX_ATTEMPTS {
                RetryStep::RetryAfter(backoff_delay(attempt))
            } else {
                RetryStep::Finish
            }
        },
        AttemptOutcome::TransportError { transient } => {
            if attempt >= MAX_ATTEMPTS || !transient {
                RetryStep::Fail
            } else {
                RetryStep::RetryAfter(backoff_delay(attempt))
            }
        },
    }
}

/// What a page of a listing came to.
#[derive(Clone, Copy, Debug, PartialEq, Eq, Structural)]
pub enum PageOutcome {
    /// The server answered with an unsuccessful status.
    Unsuccessful,
    /// The body was empty.
    EmptyBody,
    /// The body listed this many items.
    Items(usize),
}

/// What to do after a page.
#[derive(Clone, Copy, Debug, PartialEq, Eq, Structural)]
pub enum PageStep {
    /// Report the API error.
    Fail,
    /// The listing is complete.
    Finish,
    /// Keep the items and request this page next.
    Request(u64),
}

/// The decision after page `page`.
pub open spec fn page_decision(page: int, outcome: PageOutcome) -> PageStep {
    match outcome {
        PageOutcome::Unsuccessful => PageStep::Fail,
        PageOutcome::EmptyBody => PageStep::Finish,
        PageOutcome::Items(n) => if n == 0 { PageStep::Finish } else { PageStep::Request((page + 1) as u64) },
    }
}

/// Decides how a paged listing goes on after page `page`: an error fails it, an empty body or
/// page ends it, otherwise the next page is requested.
pub fn page_step(page: u64, outcome: PageOutcome) -> (r: PageStep)
    requires
        page < u64::MAX,
    ensures
        r == page_decision(page as int, outcome),
{
    match outcome {
        PageOutcome::Unsuccessful => PageStep::Fail,
        PageOutcome::EmptyBody => PageStep::Finish,
        PageOutcome::Items(n) => if n == 0 { PageStep::Finish } else { PageStep::Request(page + 1) },
    }
}

/// The GitHub repository that requests go to, and the token that authorizes them.
pub struct GitHubClient {
    pub token: String,
    pub owner: String,
    pub repo: String,
}

/// `https://api.github.com/repos/<owner>/<repo>/<tail>`.
pub open spec fn repo_api_url(owner: Seq<char>, repo: Seq<char>, tail: Seq<char>) -> Seq<char> {
    "https://api.github.com/repos/"@ + owner + "/"@ + repo + "/"@ + tail
}

impl GitHubClient {
    /// A client for `owner/repo` authorized by `token`.
    pub fn new(token: String, owner: String, repo: String) -> (r: GitHubClient)
        ensures
            r.token@ == token@,
            r.owner@ == owner@,
            r.repo@ == repo@,
    {
        GitHubClient { token, owner, repo }
    }

    /// The `Authorization` header value: `token <token>`.
    pub fn auth_header(&self) -> (r: String)
        ensures
            r@ == "token "@ + self.token@,
    {
        let mut out = chars_of("token ");
        append_chars(&mut out, &chars_of(self.token.as_str()));
        string_of(&out)
    }

    fn repo_api_url_exec(&self, tail: &[char]) -> (r: String)
        ensures
            r@ == repo_api_url(self.owner@, self.repo@, tail@),
    {
        let mut out = chars_of("https://api.github.com/repos/");
        append_chars(&mut out, &chars_of(self.owner.as_str()));
        append_chars(&mut out, &chars_of("/"));
        append_chars(&mut out, &chars_of(self.repo.as_str()));
        append_chars(&mut out, &chars_of("/"));
        append_chars(&mut out, tail);
        string_of(&out)
    }

    /// The listing of the repository's issues.
    pub fn issues_url(&self) -> (r: String)
        ensures
            r@ == repo_api_url(self.owner@, self.repo@, "issues"@),
    {
        self.repo_api_url_exec(&chars_of("issues"))
    }

    /// The listing of the repository's pull requests.
    pub fn pulls_url(&self) -> (r: String)
        ensures
            r@ == repo_api_url(self.owner@, self.repo@, "pulls"@),
    {
        self.repo_api_url_exec(&chars_of("pulls"))
    }

    /// The listing of the repository's commits.
    pub fn commits_url(&self) -> (r: String)
        ensures
            r@ == repo_api_url(self.owner@, self.repo@, "commits"@),
    {
        self.repo_api_url_exec(&chars_of("commits"))
    }

    /// The listing of the commits of pull request `pr_number`.
    pub fn pr_commits_url(&self, pr_number: u32) -> (r: String)
        ensures
            r@ == repo_api_url(self.owner@, self.repo@, "pulls/"@ + decimal_text(pr_number as int) + "/commits"@),
    {
        let mut tail = chars_of("pulls/");
        append_chars(&mut tail, &u64_text(pr_number as u64));
        append_chars(&mut tail, &chars_of("/commits"));
        self.repo_api_url_exec(&tail)
    }
}

} // verus!
