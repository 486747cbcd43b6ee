//! Turning GitHub records into timesheet entries, and the filtering rules around them.
use vstd::prelude::*;
use crate::dates::{Instant, text_in_range, is_in_range};
use crate::decimal::{decimal_text, i64_text};
use crate::model::{EntryView, GitHubCommit, GitHubIssue, GitHubUser, TimesheetEntry, entry_views};
use crate::text::{
    append_chars, chars_of, first_line, first_line_exec, join, join_strings, lowercase_text,
    starts_with, starts_with_exec, string_of, text_eq, texts_of, to_lowercase, trim, trim_exec,
};

verus! {

/// The text of an optional string.
pub open spec fn opt_text(o: Option<String>) -> Option<Seq<char>> {
    match o {
        Some(s) => Some(s@),
        None => None,
    }
}

/// `user` is one of the issue's assignees.
pub open spec fn assigned_to(issue: GitHubIssue, user: Seq<char>) -> bool {
    exists|k: int| 0 <= k < issue.assignees@.len() && #[trigger] issue.assignees@[k].login@ == user
}

/// The issue was created, updated or closed within `[start, end]`, and `user` is assigned
/// to it or opened it.
pub open spec fn issue_relevant(issue: GitHubIssue, user: Seq<char>, start: Instant, end: Instant) -> bool {
    let touched = text_in_range(Some(issue.created_at@), start, end)
        || text_in_range(Some(issue.updated_at@), start, end)
        || text_in_range(opt_text(issue.closed_at), start, end);
    touched && (assigned_to(issue, user) || issue.user.login@ == user)
}

/// The logins of a list of accounts.
pub open spec fn login_texts(users: Seq<GitHubUser>) -> Seq<Seq<char>> {
    users.map_values(|u: GitHubUser| u.login@)
}

/// The entry made from an issue or pull request.
pub open spec fn issue_entry(issue: GitHubIssue) -> EntryView {
    EntryView {
        entry_type: if issue.is_pull_request { "Pull Request"@ } else { "Issue"@ },
        number: decimal_text(issue.number as int),
        title: issue.title@,
        status: issue.state@,
        closed_at: match issue.closed_at {
            Some(c) => c@,
            None => Seq::empty(),
        },
        created_at: issue.created_at@,
        updated_at: issue.updated_at@,
        assignees: join(login_texts(issue.assignees@), ", "@),
        author: issue.user.login@,
        url: issue.html_url@,
        date: match issue.closed_at {
            Some(c) => c@,
            None => issue.updated_at@,
        },
    }
}

/// The entries made from the relevant issues, in order.
pub open spec fn issue_entries(issues: Seq<GitHubIssue>, user: Seq<char>, start: Instant, end: Instant) -> Seq<EntryView>
    decreases issues.len(),
{
    if issues.len() == 0 {
        Seq::empty()
    } else {
        let prev = issue_entries(issues.drop_last(), user, start, end);
        if issue_relevant(issues.last(), user, start, end) {
            prev.push(issue_entry(issues.last()))
        } else {
            prev
        }
    }
}

fn assigned_to_exec(issue: &GitHubIssue, target_user: &str) -> (r: bool)
    ensures
        r == assigned_to(*issue, target_user@),
{
    let mut k: usize = 0;
    while k < issue.assignees.len()
        invariant
            k <= issue.assignees@.len(),
            forall|j: int| 0 <= j < k ==> issue.assignees@[j].login@ != target_user@,
        decreases issue.assignees.len() - k,
    {
        if text_eq(issue.assignees[k].login.as_str(), target_user) {
            return true;
        }
        k += 1;
    }
    false
}

/// Is the pull request (or issue) worth reading commits for: touched within `[start, end]`,
/// and assigned to or opened by `target_user`?
pub fn is_pr_relevant_for_commit_fetch(pr: &GitHubIssue, target_user: &str, start: Instant, end: Instant) -> (r: bool)
    ensures
        r == issue_relevant(*pr, target_user@, start, end),
{
    let assigned = assigned_to_exec(pr, target_user);
    let created_by_user = text_eq(pr.user.login.as_str(), target_user);
    let closed: Option<&str> = match &pr.closed_at {
        Some(c) => Some(c.as_str()),
        None => None,
    };
    let touched_in_range = is_in_range(Some(pr.created_at.as_str()), start, end)
        || is_in_range(Some(pr.updated_at.as_str()), start, end)
        || is_in_range(closed, start, end);
    touched_in_range && (assigned || created_by_user)
}

/// The assignees' logins joined with ", ".
fn join_logins(users: &Vec<GitHubUser>) -> (r: String)
    ensures
        r@ == join(login_texts(users@), ", "@),
{
    let mut logins: Vec<String> = Vec::new();
    let mut k: usize = 0;
    while k < users.len()
        invariant
            k <= users@.len(),
            logins@.len() == k,
            texts_of(logins@) == login_texts(users@).take(k as int),
        decreases users.len() - k,
    {
        let login = users[k].login.clone();
        let ghost before = logins@;
        logins.push(login);
        assert(logins@ == before.push(users@[k as int].login));
        assert(texts_of(logins@) =~= login_texts(users@).take(k + 1)) by {
            assert forall|j: int| 0 <= j < k + 1 implies #[trigger] texts_of(logins@)[j] == login_texts(users@).take(k + 1)[j] by {
                if j < k {
                    assert(texts_of(before)[j] == login_texts(users@).take(k as int)[j]);
                }
            }
        }
        k += 1;
    }
    assert(login_texts(users@).take(users@.len() as int) == login_texts(users@));
    let sep = chars_of(", ");
    let joined = join_strings(&logins, &sep);
    string_of(&joined)
}

fn issue_to_entry(issue: &GitHubIssue) -> (r: TimesheetEntry)
    ensures
        r@ == issue_entry(*issue),
{
    let entry_type = if issue.is_pull_request {
        String::from_str("Pull Request")
    } else {
        String::from_str("Issue")
    };
    let number = string_of(&i64_text(issue.number as i64));
    let (closed_at, date) = match &issue.closed_at {
        Some(c) => (c.clone(), c.clone()),
        None => (String::new(), issue.updated_at.clone()),
    };
    TimesheetEntry {
        entry_type,
        number,
        title: issue.title.clone(),
        status: issue.state.clone(),
        closed_at,
        created_at: issue.created_at.clone(),
        updated_at: issue.updated_at.clone(),
        assignees: join_logins(&issue.assignees),
        author: issue.user.login.clone(),
        url: issue.html_url.clone(),
        date,
    }
}

/// The entries for the issues and pull requests that `target_user` worked on within
/// `[start, end]`, in their input order.
pub fn map_issues_to_entries(issues: Vec<GitHubIssue>, target_user: &str, start: Instant, end: Instant) -> (r: Vec<TimesheetEntry>)
    ensures
        entry_views(r@) == issue_entries(issues@, target_user@, start, end),
{
    let mut r: Vec<TimesheetEntry> = Vec::new();
    let mut i: usize = 0;
    while i < issues.len()
        invariant
            i <= issues@.len(),
            entry_views(r@) == issue_entries(issues@.take(i as int), target_user@, start, end),
        decreases issues.len() - i,
    {
        assert(issues@.take(i + 1).drop_last() == issues@.take(i as int));
        assert(issues@.take(i + 1).last() == issues@[i as int]);
        if is_pr_relevant_for_commit_fetch(&issues[i], target_user, start, end) {
            let e = issue_to_entry(&issues[i]);
            r.push(e);
            assert(entry_views(r@) =~= issue_entries(issues@.take(i as int), target_user@, start, end).push(issue_entry(issues@[i as int])));
        }
        i += 1;
    }
    assert(issues@.take(issues@.len() as int) == issues@);
    r
}

/// An issue or pull request that `user` opened or is assigned to, and that was created,
/// updated or closed within `[start, end]`, is reported: the entries hold one with its URL,
/// dated by its closing or, while it is open, by its last update.
pub proof fn law_involved_touched_issue_is_reported(
    issues: Seq<GitHubIssue>,
    user: Seq<char>,
    start: Instant,
    end: Instant,
    j: int,
)
    requires
        0 <= j < issues.len(),
        issues[j].user.login@ == user
            || exists|a: int| 0 <= a < issues[j].assignees@.len() && #[trigger] issues[j].assignees@[a].login@ == user,
        text_in_range(Some(issues[j].created_at@), start, end)
            || text_in_range(Some(issues[j].updated_at@), start, end)
            || text_in_range(opt_text(issues[j].closed_at), start, end),
    ensures
        exists|k: int| 0 <= k < issue_entries(issues, user, start, end).len()
            && (#[trigger] issue_entries(issues, user, start, end)[k]).url == issues[j].html_url@
            && issue_entries(issues, user, start, end)[k].date == match issues[j].closed_at {
                Some(c) => c@,
                None => issues[j].updated_at@,
            },
    decreases issues.len(),
{
    let r = issue_entries(issues, user, start, end);
    let prev = issue_entries(issues.drop_last(), user, start, end);
    if j == issues.len() - 1 {
        assert(issue_relevant(issues.last(), user, start, end));
        assert(r == prev.push(issue_entry(issues.last())));
        assert(r[prev.len() as int] == issue_entry(issues[j]));
    } else {
        assert(issues.drop_last()[j] == issues[j]);
        law_involved_touched_issue_is_reported(issues.drop_last(), user, start, end, j);
        let k = choose|k: int| 0 <= k < prev.len() && (#[trigger] prev[k]).url == issues[j].html_url@
            && prev[k].date == match issues[j].closed_at {
                Some(c) => c@,
                None => issues[j].updated_at@,
            };
        assert(r[k] == prev[k]);
    }
}

/// Every reported entry comes from an issue or pull request of the input that `user` opened or
/// is assigned to and that was created, updated or closed within `[start, end]`; the entry
/// carries its URL and is dated by its closing or, while it is open, by its last update.
pub proof fn law_reported_entries_come_from_involved_issues(
    issues: Seq<GitHubIssue>,
    user: Seq<char>,
    start: Instant,
    end: Instant,
    k: int,
)
    requires
        0 <= k < issue_entries(issues, user, start, end).len(),
    ensures
        exists|j: int| 0 <= j < issues.len()
            && (issues[j].user.login@ == user
                || exists|a: int| 0 <= a < issues[j].assignees@.len() && #[trigger] issues[j].assignees@[a].login@ == user)
            && (text_in_range(Some(issues[j].created_at@), start, end)
                || text_in_range(Some(issues[j].updated_at@), start, end)
                || text_in_range(opt_text(issues[j].closed_at), start, end))
            && (#[trigger] issues[j]).html_url@ == issue_entries(issues, user, start, end)[k].url
            && issue_entries(issues, user, start, end)[k].date == match issues[j].closed_at {
                Some(c) => c@,
                None => issues[j].updated_at@,
            },
    decreases issues.len(),
{
    let r = issue_entries(issues, user, start, end);
    let prev = issue_entries(issues.drop_last(), user, start, end);
    let n = issues.len() - 1;
    if k < prev.len() {
        assert(r[k] == prev[k]);
        law_reported_entries_come_from_involved_issues(issues.drop_last(), user, start, end, k);
        let j = choose|j: int| 0 <= j < issues.drop_last().len()
            && (issues.drop_last()[j].user.login@ == user
                || exists|a: int| 0 <= a < issues.drop_last()[j].assignees@.len() && #[trigger] issues.drop_last()[j].assignees@[a].login@ == user)
            && (text_in_range(Some(issues.drop_last()[j].created_at@), start, end)
                || text_in_range(Some(issues.drop_last()[j].updated_at@), start, end)
                || text_in_range(opt_text(issues.drop_last()[j].closed_at), start, end))
            && (#[trigger] issues.drop_last()[j]).html_url@ == prev[k].url
            && prev[k].date == match issues.drop_last()[j].closed_at {
                Some(c) => c@,
                None => issues.drop_last()[j].updated_at@,
            };
        assert(issues.drop_last()[j] == issues[j]);
    } else {
        assert(issue_relevant(issues.last(), user, start, end));
        assert(r[k] == issue_entry(issues[n]));
        assert(issues[n] == issues.last());
    }
}

/// The commit's GitHub author is `user`.
pub open spec fn commit_by_user(c: GitHubCommit, user: Seq<char>) -> bool {
    match c.author {
        Some(a) => a.login@ == user,
        None => false,
    }
}

/// The first line of a commit message, trimmed and lower-cased, starts like a merge.
pub open spec fn merge_message(message: Seq<char>) -> bool {
    merge_start(lowercase_text(trim(first_line(message))))
}

/// A lower-cased line starts like a merge: "merge ", "merged " or "merge:".
pub open spec fn merge_start(line: Seq<char>) -> bool {
    starts_with(line, "merge "@) || starts_with(line, "merged "@) || starts_with(line, "merge:"@)
}

/// Does the lower-cased first line of a message start like a merge?
pub fn starts_like_merge(line: &str) -> (r: bool)
    ensures
        r == merge_start(line@),
{
    let chars = chars_of(line);
    starts_with_exec(&chars, &chars_of("merge ")) || starts_with_exec(&chars, &chars_of("merged "))
        || starts_with_exec(&chars, &chars_of("merge:"))
}

/// The commit has several parents, or its message says it merges.
pub open spec fn is_merge(c: GitHubCommit) -> bool {
    c.parent_count > 1 || merge_message(c.commit.message@)
}

/// The committer's date where it is known, else the author's.
pub open spec fn commit_date(c: GitHubCommit) -> Seq<char> {
    match c.commit.committer {
        Some(x) => x.date@,
        None => c.commit.author.date@,
    }
}

/// The entry made from a commit of `user`.
pub open spec fn commit_entry(c: GitHubCommit, user: Seq<char>) -> EntryView {
    EntryView {
        entry_type: "Commit"@,
        number: Seq::empty(),
        title: first_line(c.commit.message@),
        status: "committed"@,
        closed_at: Seq::empty(),
        created_at: c.commit.author.date@,
        updated_at: commit_date(c),
        assignees: user,
        author: user,
        url: c.html_url@,
        date: commit_date(c),
    }
}

/// The entries made from the commits of `user` that are not merges, in order.
pub open spec fn commit_entries(commits: Seq<GitHubCommit>, user: Seq<char>) -> Seq<EntryView>
    decreases commits.len(),
{
    if commits.len() == 0 {
        Seq::empty()
    } else {
        let prev = commit_entries(commits.drop_last(), user);
        let c = commits.last();
        if commit_by_user(c, user) && !is_merge(c) {
            prev.push(commit_entry(c, user))
        } else {
            prev
        }
    }
}

/// Is the commit's GitHub author `user`?
pub fn is_user_commit(commit: &GitHubCommit, user: &str) -> (r: bool)
    ensures
        r == commit_by_user(*commit, user@),
{
    match &commit.author {
        Some(author) => text_eq(author.login.as_str(), user),
        None => false,
    }
}

/// Is the commit a merge: several parents, or a message that starts with "merge ",
/// "merged " or "merge:" in any case?
pub fn is_merge_commit(commit: &GitHubCommit) -> (r: bool)
    ensures
        r == is_merge(*commit),
{
    if commit.parent_count > 1 {
        return true;
    }
    let message = chars_of(commit.commit.message.as_str());
    let line = trim_exec(&first_line_exec(&message));
    let lowered = to_lowercase(string_of(&line).as_str());
    starts_like_merge(lowered.as_str())
}

fn commit_to_entry(commit: &GitHubCommit, user: &str) -> (r: TimesheetEntry)
    ensures
        r@ == commit_entry(*commit, user@),
{
    let message = chars_of(commit.commit.message.as_str());
    let title = string_of(&first_line_exec(&message));
    let date = match &commit.commit.committer {
        Some(committer) => committer.date.clone(),
        None => commit.commit.author.date.clone(),
    };
    TimesheetEntry {
        entry_type: String::from_str("Commit"),
        number: String::new(),
        title,
        status: String::from_str("committed"),
        closed_at: String::new(),
        created_at: commit.commit.author.date.clone(),
        updated_at: date.clone(),
        assignees: String::from_str(user),
        author: String::from_str(user),
        url: commit.html_url.clone(),
        date,
    }
}

/// The entries for the commits of `user` that are not merges, dated by the committer.
pub fn map_commits_to_entries(commits: Vec<GitHubCommit>, user: &str) -> (r: Vec<TimesheetEntry>)
    ensures
        entry_views(r@) == commit_entries(commits@, user@),
{
    let mut r: Vec<TimesheetEntry> = Vec::new();
    let mut i: usize = 0;
    while i < commits.len()
        invariant
            i <= commits@.len(),
            entry_views(r@) == commit_entries(commits@.take(i as int), user@),
        decreases commits.len() - i,
    {
        assert(commits@.take(i + 1).drop_last() == commits@.take(i as int));
        assert(commits@.take(i + 1).last() == commits@[i as int]);
        if is_user_commit(&commits[i], user) && !is_merge_commit(&commits[i]) {
            let e = commit_to_entry(&commits[i], user);
            r.push(e);
            assert(entry_views(r@) =~= commit_entries(commits@.take(i as int), user@).push(commit_entry(commits@[i as int], user@)));
        }
        i += 1;
    }
    assert(commits@.take(commits@.len() as int) == commits@);
    r
}

/// `u` is one of the texts in `urls`.
pub open spec fn url_listed(urls: Seq<String>, u: Seq<char>) -> bool {
    exists|j: int| 0 <= j < urls.len() && #[trigger] urls[j]@ == u
}

/// The commits whose URL is not listed, in order.
pub open spec fn unlinked_commits(commits: Seq<GitHubCommit>, urls: Seq<String>) -> Seq<GitHubCommit>
    decreases commits.len(),
{
    if commits.len() == 0 {
        Seq::empty()
    } else {
        let prev = unlinked_commits(commits.drop_last(), urls);
        if url_listed(urls, commits.last().html_url@) {
            prev
        } else {
            prev.push(commits.last())
        }
    }
}

fn url_listed_exec(urls: &Vec<String>, u: &String) -> (r: bool)
    ensures
        r == url_listed(urls@, u@),
{
    let mut j: usize = 0;
    while j < urls.len()
        invariant
            j <= urls@.len(),
            forall|k: int| 0 <= k < j ==> urls@[k]@ != u@,
        decreases urls.len() - j,
    {
        if urls[j] == *u {
            return true;
        }
        j += 1;
    }
    false
}

/// The commits that do not belong to one of the listed pull-request commit URLs.
pub fn exclude_pr_linked_commits(commits: Vec<GitHubCommit>, linked_commit_urls: &Vec<String>) -> (r: Vec<GitHubCommit>)
    ensures
        r@ == unlinked_commits(commits@, linked_commit_urls@),
{
    let ghost all = commits@;
    let mut rest = commits;
    let mut r: Vec<GitHubCommit> = Vec::new();
    let ghost mut i: int = 0;
    while rest.len() > 0
        invariant
            0 <= i <= all.len(),
            rest@ == all.skip(i as int),
            r@ == unlinked_commits(all.take(i as int), linked_commit_urls@),
        decreases rest.len(),
    {
        let c = rest.remove(0);
        assert(all.take(i + 1).drop_last() == all.take(i as int));
        assert(all.take(i + 1).last() == all[i as int]);
        assert(all.skip(i as int).remove(0) == all.skip(i + 1));
        if !url_listed_exec(linked_commit_urls, &c.html_url) {
            r.push(c);
        }
        proof {
            i = i + 1;
        }
    }
    assert(all.take(i as int) == all);
    r
}

/// Excluding pull-request commits keeps exactly the commits whose URL none of the listed URLs
/// equals, in their order: no kept commit has a listed URL, and every commit with an unlisted
/// URL is kept.
pub proof fn law_exclude_linked_commits(commits: Seq<GitHubCommit>, urls: Seq<String>)
    ensures
        unlinked_commits(commits, urls) == commits.filter(
            |c: GitHubCommit| forall|k: int| 0 <= k < urls.len() ==> urls[k]@ != c.html_url@,
        ),
        forall|i: int, k: int| #![trigger unlinked_commits(commits, urls)[i], urls[k]]
            0 <= i < unlinked_commits(commits, urls).len() && 0 <= k < urls.len()
            ==> urls[k]@ != unlinked_commits(commits, urls)[i].html_url@,
        forall|j: int| 0 <= j < commits.len() && (forall|k: int| 0 <= k < urls.len() ==> urls[k]@ != commits[j].html_url@)
            ==> unlinked_commits(commits, urls).contains(#[trigger] commits[j]),
    decreases commits.len(),
{
    broadcast use vstd::seq_lib::group_filter_ensures;
    let p = |c: GitHubCommit| forall|k: int| 0 <= k < urls.len() ==> urls[k]@ != c.html_url@;
    reveal_with_fuel(Seq::<_>::filter, 1);
    if commits.len() > 0 {
        law_exclude_linked_commits(commits.drop_last(), urls);
        let c = commits.last();
        if url_listed(urls, c.html_url@) {
            let k = choose|k: int| 0 <= k < urls.len() && #[trigger] urls[k]@ == c.html_url@;
            assert(!p(c));
        } else {
            assert(p(c));
        }
    } else {
        assert(commits.filter(p) =~= Seq::<GitHubCommit>::empty());
    }
    assert(unlinked_commits(commits, urls) == commits.filter(p));
    let r = unlinked_commits(commits, urls);
    assert forall|i: int, k: int| #![trigger r[i], urls[k]] 0 <= i < r.len() && 0 <= k < urls.len() implies urls[k]@ != r[i].html_url@ by {
        assert(p(r[i]));
    }
    assert forall|j: int| 0 <= j < commits.len() && (forall|k: int| 0 <= k < urls.len() ==> urls[k]@ != commits[j].html_url@)
        implies r.contains(#[trigger] commits[j]) by {
        assert(p(commits[j]));
    }
}

proof fn lemma_url_listed_push(urls: Seq<String>, x: String, u: Seq<char>)
    ensures
        url_listed(urls.push(x), u) <==> url_listed(urls, u) || x@ == u,
{
    if url_listed(urls.push(x), u) {
        let k = choose|k: int| 0 <= k < urls.len() + 1 && #[trigger] urls.push(x)[k]@ == u;
        if k < urls.len() {
            assert(urls[k] == urls.push(x)[k]);
        }
    }
    if url_listed(urls, u) {
        let k = choose|k: int| 0 <= k < urls.len() && #[trigger] urls[k]@ == u;
        assert(urls.push(x)[k] == urls[k]);
    }
    if x@ == u {
        assert(urls.push(x)[urls.len() as int] == x);
    }
}

/// Some entry before position `i` has the same URL as entry `i`.
pub open spec fn url_seen_before(entries: Seq<TimesheetEntry>, i: int) -> bool {
    exists|j: int| 0 <= j < i && #[trigger] entries[j].url@ == entries[i].url@
}

/// The entries with each URL's first occurrence kept and the later ones dropped.
pub open spec fn dedup(entries: Seq<TimesheetEntry>) -> Seq<TimesheetEntry>
    decreases entries.len(),
{
    if entries.len() == 0 {
        Seq::empty()
    } else {
        let prev = dedup(entries.drop_last());
        if url_seen_before(entries, entries.len() - 1) {
            prev
        } else {
            prev.push(entries.last())
        }
    }
}

/// The entries with later duplicates of a URL dropped, keeping the first.
pub fn deduplicate_entries(entries: Vec<TimesheetEntry>) -> (r: Vec<TimesheetEntry>)
    ensures
        r@ == dedup(entries@),
{
    let mut seen: Vec<String> = Vec::new();
    let mut r: Vec<TimesheetEntry> = Vec::new();
    let mut i: usize = 0;
    while i < entries.len()
        invariant
            i <= entries@.len(),
            r@ == dedup(entries@.take(i as int)),
            forall|u: Seq<char>| url_listed(seen@, u) <==> exists|j: int| 0 <= j < i && #[trigger] entries@[j].url@ == u,
        decreases entries.len() - i,
    {
        let ghost t = entries@.take(i + 1);
        assert(t.drop_last() == entries@.take(i as int));
        assert(t.last() == entries@[i as int]);
        let listed = url_listed_exec(&seen, &entries[i].url);
        assert(listed == url_seen_before(t, i as int)) by {
            if listed {
                let j = choose|j: int| 0 <= j < i && #[trigger] entries@[j].url@ == entries@[i as int].url@;
                assert(t[j] == entries@[j]);
            }
            if url_seen_before(t, i as int) {
                let j = choose|j: int| 0 <= j < i && #[trigger] t[j].url@ == t[i as int].url@;
                assert(t[j] == entries@[j]);
            }
        }
        let ghost prev_seen = seen@;
        if !listed {
            let e = entries[i].duplicate();
            let u = entries[i].url.clone();
            seen.push(u);
            r.push(e);
        }
        assert forall|u: Seq<char>| url_listed(seen@, u) <==> exists|j: int| 0 <= j < i + 1 && #[trigger] entries@[j].url@ == u by {
            if !listed {
                lemma_url_listed_push(prev_seen, entries@[i as int].url, u);
            }
            if exists|j: int| 0 <= j < i + 1 && #[trigger] entries@[j].url@ == u {
                let j = choose|j: int| 0 <= j < i + 1 && #[trigger] entries@[j].url@ == u;
                if j < i {
                    assert(exists|j: int| 0 <= j < i && #[trigger] entries@[j].url@ == u);
                }
            }
        }
        i += 1;
    }
    assert(entries@.take(entries@.len() as int) == entries@);
    r
}

} // verus!

verus! {

/// Some entry of `entries` has URL `u`.
pub open spec fn has_url(entries: Seq<TimesheetEntry>, u: Seq<char>) -> bool {
    exists|j: int| 0 <= j < entries.len() && #[trigger] entries[j].url@ == u
}

/// No two entries share a URL.
pub open spec fn urls_distinct(entries: Seq<TimesheetEntry>) -> bool {
    forall|i: int, j: int| 0 <= i < j < entries.len() ==> #[trigger] entries[i].url@ != #[trigger] entries[j].url@
}

/// Deduplication keeps exactly the URLs that occur, each once.
pub proof fn lemma_dedup_urls(entries: Seq<TimesheetEntry>)
    ensures
        urls_distinct(dedup(entries)),
        forall|u: Seq<char>| has_url(dedup(entries), u) <==> has_url(entries, u),
    decreases entries.len(),
{
    if entries.len() > 0 {
        let p = entries.drop_last();
        let x = entries.last();
        lemma_dedup_urls(p);
        let d = dedup(entries);
        let dp = dedup(p);
        assert forall|u: Seq<char>| has_url(entries, u) <==> has_url(p, u) || x.url@ == u by {
            if has_url(entries, u) {
                let j = choose|j: int| 0 <= j < entries.len() && #[trigger] entries[j].url@ == u;
                if j < p.len() {
                    assert(p[j] == entries[j]);
                }
            }
            if has_url(p, u) {
                let j = choose|j: int| 0 <= j < p.len() && #[trigger] p[j].url@ == u;
                assert(p[j] == entries[j]);
            }
            assert(entries[entries.len() - 1] == x);
        }
        if url_seen_before(entries, entries.len() - 1) {
            let j = choose|j: int| 0 <= j < entries.len() - 1 && #[trigger] entries[j].url@ == entries[entries.len() - 1].url@;
            assert(p[j] == entries[j]);
            assert(has_url(p, x.url@));
        } else {
            assert(d == dp.push(x));
            assert(!has_url(p, x.url@)) by {
                if has_url(p, x.url@) {
                    let j = choose|j: int| 0 <= j < p.len() && #[trigger] p[j].url@ == x.url@;
                    assert(p[j] == entries[j]);
                }
            }
            assert forall|u: Seq<char>| has_url(d, u) <==> has_url(dp, u) || x.url@ == u by {
                if has_url(d, u) {
                    let j = choose|j: int| 0 <= j < d.len() && #[trigger] d[j].url@ == u;
                    if j < dp.len() {
                        assert(dp[j] == d[j]);
                    }
                }
                if has_url(dp, u) {
                    let j = choose|j: int| 0 <= j < dp.len() && #[trigger] dp[j].url@ == u;
                    assert(dp[j] == d[j]);
                }
                assert(d[d.len() - 1] == x);
            }
            assert forall|i: int, j: int| 0 <= i < j < d.len() implies #[trigger] d[i].url@ != #[trigger] d[j].url@ by {
                assert(d[i] == dp[i]);
                if j < dp.len() {
                    assert(d[j] == dp[j]);
                } else {
                    assert(d[j] == x);
                    assert(has_url(dp, d[i].url@));
                }
            }
        }
    }
}

/// Deduplicating entries whose URLs are already distinct changes nothing.
pub proof fn lemma_dedup_of_distinct(entries: Seq<TimesheetEntry>)
    requires
        urls_distinct(entries),
    ensures
        dedup(entries) == entries,
    decreases entries.len(),
{
    if entries.len() > 0 {
        let p = entries.drop_last();
        assert(urls_distinct(p)) by {
            assert forall|i: int, j: int| 0 <= i < j < p.len() implies #[trigger] p[i].url@ != #[trigger] p[j].url@ by {
                assert(p[i] == entries[i] && p[j] == entries[j]);
            }
        }
        lemma_dedup_of_distinct(p);
        assert(!url_seen_before(entries, entries.len() - 1)) by {
            if url_seen_before(entries, entries.len() - 1) {
                let j = choose|j: int| 0 <= j < entries.len() - 1 && #[trigger] entries[j].url@ == entries[entries.len() - 1].url@;
                assert(entries[j].url@ != entries[entries.len() - 1].url@);
            }
        }
        assert(p.push(entries.last()) == entries);
    }
}

/// Deduplicating twice gives what deduplicating once gives; the result keeps one entry for
/// each URL of the input and no URL twice.
pub proof fn law_deduplicate_idempotent(entries: Seq<TimesheetEntry>)
    ensures
        dedup(dedup(entries)) == dedup(entries),
        urls_distinct(dedup(entries)),
        forall|u: Seq<char>| has_url(dedup(entries), u) <==> has_url(entries, u),
{
    lemma_dedup_urls(entries);
    lemma_dedup_of_distinct(dedup(entries));
}

/// The description of an entry in the timesheet's task column.
pub open spec fn task_description(e: EntryView) -> Seq<char> {
    if e.entry_type == "PR Commit"@ {
        "PR #"@ + e.number + " Commit: "@ + e.title
    } else if e.entry_type == "Commit"@ {
        "Commit: "@ + e.title
    } else {
        e.entry_type + " #"@ + e.number + ": "@ + e.title
    }
}

/// The task column text: "Commit: title", "PR #n Commit: title", or "Type #n: title".
pub fn build_task_description(entry: &TimesheetEntry) -> (r: String)
    ensures
        r@ == task_description(entry@),
{
    let mut out: Vec<char> = Vec::new();
    if text_eq(entry.entry_type.as_str(), "PR Commit") {
        append_chars(&mut out, &chars_of("PR #"));
        append_chars(&mut out, &chars_of(entry.number.as_str()));
        append_chars(&mut out, &chars_of(" Commit: "));
        append_chars(&mut out, &chars_of(entry.title.as_str()));
    } else if text_eq(entry.entry_type.as_str(), "Commit") {
        append_chars(&mut out, &chars_of("Commit: "));
        append_chars(&mut out, &chars_of(entry.title.as_str()));
    } else {
        append_chars(&mut out, &chars_of(entry.entry_type.as_str()));
        append_chars(&mut out, &chars_of(" #"));
        append_chars(&mut out, &chars_of(entry.number.as_str()));
        append_chars(&mut out, &chars_of(": "));
        append_chars(&mut out, &chars_of(entry.title.as_str()));
    }
    string_of(&out)
}

} // verus!
