use work_logr::dates::parse_date;
use work_logr::mapper::{
    build_task_description, deduplicate_entries, exclude_pr_linked_commits, is_pr_relevant_for_commit_fetch,
    map_commits_to_entries, map_issues_to_entries,
};
use work_logr::model::{CommitAuthor, CommitDetails, GitHubCommit, GitHubIssue, GitHubUser, TimesheetEntry};

fn commit(message: &str, author: &str, author_date: &str, committer_date: Option<&str>, parent_count: usize) -> GitHubCommit {
    GitHubCommit {
        commit: CommitDetails {
            message: message.to_string(),
            author: CommitAuthor { date: author_date.to_string() },
            committer: committer_date.map(|date| CommitAuthor { date: date.to_string() }),
        },
        html_url: format!("https://github.com/example/repo/commit/{message}"),
        author: Some(GitHubUser { login: author.to_string() }),
        parent_count,
    }
}

#[test]
fn excludes_commits_linked_to_included_pull_requests() {
    let standalone = commit("Standalone fix", "iamkabelomoobi", "2026-05-18T09:00:00Z", None, 1);
    let linked = commit("PR implementation", "iamkabelomoobi", "2026-05-18T10:00:00Z", None, 1);
    let linked_urls = vec![linked.html_url.clone()];

    let filtered = exclude_pr_linked_commits(vec![standalone, linked], &linked_urls);

    assert_eq!(filtered.len(), 1);
    assert!(filtered[0].html_url.contains("Standalone fix"));
}

#[test]
fn maps_user_commits_to_committer_date() {
    let entries = map_commits_to_entries(
        vec![commit("Implement Excel rows", "iamkabelomoobi", "2026-05-18T09:00:00Z", Some("2026-05-19T14:00:00Z"), 1)],
        "iamkabelomoobi",
    );

    assert_eq!(entries.len(), 1);
    assert_eq!(entries[0].title, "Implement Excel rows");
    assert_eq!(entries[0].date, "2026-05-19T14:00:00Z");
}

#[test]
fn ignores_merge_commits() {
    let entries = map_commits_to_entries(
        vec![
            commit("Merge branch 'main' into feature", "iamkabelomoobi", "2026-05-18T09:00:00Z", Some("2026-05-18T10:00:00Z"), 2),
            commit("Merged feature work into develop", "iamkabelomoobi", "2026-05-18T11:00:00Z", Some("2026-05-18T12:00:00Z"), 1),
            commit("Add timesheet task grouping", "iamkabelomoobi", "2026-05-18T13:00:00Z", Some("2026-05-18T14:00:00Z"), 1),
        ],
        "iamkabelomoobi",
    );

    assert_eq!(entries.len(), 1);
    assert_eq!(entries[0].title, "Add timesheet task grouping");
}

#[test]
fn commits_of_other_authors_are_skipped_and_author_date_is_the_fallback() {
    let entries = map_commits_to_entries(
        vec![
            commit("Someone else's work", "octocat", "2026-05-18T09:00:00Z", None, 1),
            commit("Merge: release", "iamkabelomoobi", "2026-05-18T09:30:00Z", None, 1),
            commit("Line one\nmore detail", "iamkabelomoobi", "2026-05-18T10:00:00Z", None, 1),
        ],
        "iamkabelomoobi",
    );

    assert_eq!(entries.len(), 1);
    assert_eq!(entries[0].entry_type, "Commit");
    assert_eq!(entries[0].title, "Line one");
    assert_eq!(entries[0].date, "2026-05-18T10:00:00Z");
    assert_eq!(entries[0].status, "committed");
}

fn user(login: &str) -> GitHubUser {
    GitHubUser { login: login.to_string() }
}

fn issue(number: i32, title: &str, created: &str, closed: Option<&str>, author: &str, assignees: &[&str], pr: bool) -> GitHubIssue {
    GitHubIssue {
        number,
        title: title.to_string(),
        state: if closed.is_some() { "closed".to_string() } else { "open".to_string() },
        is_pull_request: pr,
        created_at: created.to_string(),
        updated_at: created.to_string(),
        closed_at: closed.map(|c| c.to_string()),
        assignees: assignees.iter().map(|a| user(a)).collect(),
        user: user(author),
        html_url: format!("https://github.com/example/repo/issues/{number}"),
    }
}

#[test]
fn maps_relevant_issues_and_pull_requests() {
    let start = parse_date("2026-05-18T00:00:00Z").expect("valid start");
    let end = parse_date("2026-05-24T23:59:59Z").expect("valid end");
    let issues = vec![
        issue(1, "Mine", "2026-05-19T08:00:00Z", None, "iamkabelomoobi", &[], false),
        issue(2, "Assigned PR", "2026-05-20T08:00:00Z", Some("2026-05-21T08:00:00Z"), "octocat", &["iamkabelomoobi"], true),
        issue(3, "Not mine", "2026-05-20T08:00:00Z", None, "octocat", &[], false),
        issue(4, "Too early", "2026-05-01T08:00:00Z", None, "iamkabelomoobi", &[], false),
    ];

    let entries = map_issues_to_entries(issues, "iamkabelomoobi", start, end);

    assert_eq!(entries.len(), 2);
    assert_eq!(entries[0].entry_type, "Issue");
    assert_eq!(entries[0].number, "1");
    assert_eq!(entries[1].entry_type, "Pull Request");
    assert_eq!(entries[1].date, "2026-05-21T08:00:00Z");
    assert_eq!(entries[1].assignees, "iamkabelomoobi");
    assert_eq!(build_task_description(&entries[1]), "Pull Request #2: Assigned PR");
}

#[test]
fn pull_request_relevance_needs_the_user_and_the_period() {
    let start = parse_date("2026-05-18T00:00:00Z").expect("valid start");
    let end = parse_date("2026-05-24T23:59:59Z").expect("valid end");
    let mine = issue(5, "PR", "2026-05-10T08:00:00Z", Some("2026-05-19T08:00:00Z"), "iamkabelomoobi", &[], true);
    let stale = issue(6, "PR", "2026-05-10T08:00:00Z", None, "iamkabelomoobi", &[], true);
    let theirs = issue(7, "PR", "2026-05-19T08:00:00Z", None, "octocat", &[], true);

    assert!(is_pr_relevant_for_commit_fetch(&mine, "iamkabelomoobi", start, end));
    assert!(!is_pr_relevant_for_commit_fetch(&stale, "iamkabelomoobi", start, end));
    assert!(!is_pr_relevant_for_commit_fetch(&theirs, "iamkabelomoobi", start, end));
}

fn entry(url: &str, title: &str) -> TimesheetEntry {
    TimesheetEntry {
        entry_type: "Issue".to_string(),
        number: "1".to_string(),
        title: title.to_string(),
        status: "open".to_string(),
        closed_at: String::new(),
        created_at: String::new(),
        updated_at: String::new(),
        assignees: String::new(),
        author: String::new(),
        url: url.to_string(),
        date: "2026-05-18T09:00:00Z".to_string(),
    }
}

#[test]
fn deduplication_keeps_the_first_entry_of_each_url() {
    let entries = vec![entry("a", "first"), entry("b", "other"), entry("a", "second")];

    let kept = deduplicate_entries(entries);

    assert_eq!(kept.len(), 2);
    assert_eq!(kept[0].title, "first");
    assert_eq!(kept[1].url, "b");
    let again = deduplicate_entries(kept.clone());
    assert_eq!(again.len(), 2);
}

#[test]
fn task_descriptions_follow_the_entry_type() {
    let mut e = entry("u", "Ship it");
    e.entry_type = "PR Commit".to_string();
    e.number = "12".to_string();
    assert_eq!(build_task_description(&e), "PR #12 Commit: Ship it");
    e.entry_type = "Commit".to_string();
    assert_eq!(build_task_description(&e), "Commit: Ship it");
    e.entry_type = "Issue".to_string();
    assert_eq!(build_task_description(&e), "Issue #12: Ship it");
}
