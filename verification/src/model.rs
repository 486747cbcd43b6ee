//! GitHub records and the timesheet entries made from them.
use vstd::prelude::*;

verus! {

/// One line of work: an issue, a pull request or a commit.
#[derive(Clone, Debug)]
pub struct TimesheetEntry {
    pub entry_type: String,
    pub number: String,
    pub title: String,
    pub status: String,
    pub closed_at: String,
    pub created_at: String,
    pub updated_at: String,
    pub assignees: String,
    pub author: String,
    pub url: String,
    pub date: String,
}

/// The text of each field of a [`TimesheetEntry`].
pub struct EntryView {
    pub entry_type: Seq<char>,
    pub number: Seq<char>,
    pub title: Seq<char>,
    pub status: Seq<char>,
    pub closed_at: Seq<char>,
    pub created_at: Seq<char>,
    pub updated_at: Seq<char>,
    pub assignees: Seq<char>,
    pub author: Seq<char>,
    pub url: Seq<char>,
    pub date: Seq<char>,
}

impl View for TimesheetEntry {
    type V = EntryView;

    open spec fn view(&self) -> EntryView {
        EntryView {
            entry_type: self.entry_type@,
            number: self.number@,
            title: self.title@,
            status: self.status@,
            closed_at: self.closed_at@,
            created_at: self.created_at@,
            updated_at: self.updated_at@,
            assignees: self.assignees@,
            author: self.author@,
            url: self.url@,
            date: self.date@,
        }
    }
}

impl TimesheetEntry {
    /// A field-by-field copy of the entry.
    pub fn duplicate(&self) -> (r: TimesheetEntry)
        ensures
            r == *self,
    {
        TimesheetEntry {
            entry_type: self.entry_type.clone(),
            number: self.number.clone(),
            title: self.title.clone(),
            status: self.status.clone(),
            closed_at: self.closed_at.clone(),
            created_at: self.created_at.clone(),
            updated_at: self.updated_at.clone(),
            assignees: self.assignees.clone(),
            author: self.author.clone(),
            url: self.url.clone(),
            date: self.date.clone(),
        }
    }
}

/// The field views of a list of entries.
pub open spec fn entry_views(entries: Seq<TimesheetEntry>) -> Seq<EntryView> {
    entries.map_values(|e: TimesheetEntry| e@)
}

/// A GitHub account.
#[derive(Clone, Debug)]
pub struct GitHubUser {
    pub login: String,
}

/// A GitHub issue or pull request, as the REST API lists it.
#[derive(Debug)]
pub struct GitHubIssue {
    pub number: i32,
    pub title: String,
    pub state: String,
    /// The API record carries a `pull_request` object: this is a pull request.
    pub is_pull_request: bool,
    pub created_at: String,
    pub updated_at: String,
    pub closed_at: Option<String>,
    pub assignees: Vec<GitHubUser>,
    pub user: GitHubUser,
    pub html_url: String,
}

/// A commit, as the REST API lists it.
#[derive(Debug)]
pub struct GitHubCommit {
    pub commit: CommitDetails,
    pub html_url: String,
    pub author: Option<GitHubUser>,
    /// The number of parent commits the API lists.
    pub parent_count: usize,
}

/// The git-level details of a commit.
#[derive(Debug)]
pub struct CommitDetails {
    pub message: String,
    pub author: CommitAuthor,
    pub committer: Option<CommitAuthor>,
}

/// The signature of a commit's author or committer.
#[derive(Debug)]
pub struct CommitAuthor {
    pub date: String,
}

} // verus!
