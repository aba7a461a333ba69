//! The activity feed's records, as the pipeline reads them.

use vstd::prelude::*;
use crate::text::same_text;
use crate::timestamp::Timestamp;

verus! {

/// A pull request as an event carries it. `number` counts within one
/// repository; it is the key under which the report gathers actions.
pub struct PullRequest {
    pub number: u64,
    pub url: String,
    pub title: String,
    pub merged: bool,
    pub author_login: String,
}

/// The value of a [`PullRequest`].
pub struct PullRequestView {
    pub number: u64,
    pub url: Seq<char>,
    pub title: Seq<char>,
    pub merged: bool,
    pub author_login: Seq<char>,
}

impl View for PullRequest {
    type V = PullRequestView;

    open spec fn view(&self) -> PullRequestView {
        PullRequestView {
            number: self.number,
            url: self.url@,
            title: self.title@,
            merged: self.merged,
            author_login: self.author_login@,
        }
    }
}

impl Clone for PullRequest {
    fn clone(&self) -> (copy: PullRequest)
        ensures
            copy == *self,
    {
        PullRequest {
            number: self.number,
            url: self.url.clone(),
            title: self.title.clone(),
            merged: self.merged,
            author_login: self.author_login.clone(),
        }
    }
}

/// An issue as an event carries it.
pub struct Issue {
    pub number: u64,
    pub url: String,
    pub title: String,
    pub author_login: String,
}

/// The value of an [`Issue`].
pub struct IssueView {
    pub number: u64,
    pub url: Seq<char>,
    pub title: Seq<char>,
    pub author_login: Seq<char>,
}

impl View for Issue {
    type V = IssueView;

    open spec fn view(&self) -> IssueView {
        IssueView {
            number: self.number,
            url: self.url@,
            title: self.title@,
            author_login: self.author_login@,
        }
    }
}

impl Clone for Issue {
    fn clone(&self) -> (copy: Issue)
        ensures
            copy == *self,
    {
        Issue {
            number: self.number,
            url: self.url.clone(),
            title: self.title.clone(),
            author_login: self.author_login.clone(),
        }
    }
}

/// The values of a sequence of pull requests.
pub open spec fn pull_request_views(v: Seq<PullRequest>) -> Seq<PullRequestView> {
    v.map_values(|p: PullRequest| p@)
}

/// The kinds of event that the report understands.
#[derive(Clone, Copy, Debug, PartialEq, Eq, Structural)]
pub enum PayloadKind {
    PullRequest,
    Review,
    ReviewComment,
    Issue,
    IssueComment,
    Push,
}

/// The kind of event that the feed declares by the type `declared`; `None`
/// for a type that the report does not understand.
pub open spec fn kind_of(declared: Seq<char>) -> Option<PayloadKind> {
    if declared == "PullRequestEvent"@ {
        Some(PayloadKind::PullRequest)
    } else if declared == "PullRequestReviewEvent"@ {
        Some(PayloadKind::Review)
    } else if declared == "PullRequestReviewCommentEvent"@ {
        Some(PayloadKind::ReviewComment)
    } else if declared == "IssuesEvent"@ {
        Some(PayloadKind::Issue)
    } else if declared == "IssueCommentEvent"@ {
        Some(PayloadKind::IssueComment)
    } else if declared == "PushEvent"@ {
        Some(PayloadKind::Push)
    } else {
        None
    }
}

/// The kind of event that the feed declares by the type `declared`.
pub fn payload_kind(declared: &str) -> (kind: Option<PayloadKind>)
    ensures
        kind == kind_of(declared@),
{
    if same_text(declared, "PullRequestEvent") {
        Some(PayloadKind::PullRequest)
    } else if same_text(declared, "PullRequestReviewEvent") {
        Some(PayloadKind::Review)
    } else if same_text(declared, "PullRequestReviewCommentEvent") {
        Some(PayloadKind::ReviewComment)
    } else if same_text(declared, "IssuesEvent") {
        Some(PayloadKind::Issue)
    } else if same_text(declared, "IssueCommentEvent") {
        Some(PayloadKind::IssueComment)
    } else if same_text(declared, "PushEvent") {
        Some(PayloadKind::Push)
    } else {
        None
    }
}

/// What happened, for the kinds of event that the report understands.
pub enum EventPayload {
    PullRequest { action: String, pull_request: PullRequest },
    Review { action: String, pull_request: PullRequest },
    ReviewComment { action: String, pull_request: PullRequest },
    Issue { action: String, issue: Issue },
    IssueComment { action: String, issue: Issue },
    /// A push to `git_ref`. `resolved` holds the pull requests that the
    /// branch belongs to, once they have been looked up and found.
    Push { git_ref: String, resolved: Option<Vec<PullRequest>> },
}

/// The value of an [`EventPayload`].
pub enum PayloadView {
    PullRequest { action: Seq<char>, pull_request: PullRequestView },
    Review { action: Seq<char>, pull_request: PullRequestView },
    ReviewComment { action: Seq<char>, pull_request: PullRequestView },
    Issue { action: Seq<char>, issue: IssueView },
    IssueComment { action: Seq<char>, issue: IssueView },
    Push { git_ref: Seq<char>, resolved: Option<Seq<PullRequestView>> },
}

impl View for EventPayload {
    type V = PayloadView;

    open spec fn view(&self) -> PayloadView {
        match *self {
            EventPayload::PullRequest { action, pull_request } => PayloadView::PullRequest {
                action: action@,
                pull_request: pull_request@,
            },
            EventPayload::Review { action, pull_request } => PayloadView::Review {
                action: action@,
                pull_request: pull_request@,
            },
            EventPayload::ReviewComment { action, pull_request } => PayloadView::ReviewComment {
                action: action@,
                pull_request: pull_request@,
            },
            EventPayload::Issue { action, issue } => PayloadView::Issue {
                action: action@,
                issue: issue@,
            },
            EventPayload::IssueComment { action, issue } => PayloadView::IssueComment {
                action: action@,
                issue: issue@,
            },
            EventPayload::Push { git_ref, resolved } => PayloadView::Push {
                git_ref: git_ref@,
                resolved: match resolved {
                    Some(found) => Some(pull_request_views(found@)),
                    None => None,
                },
            },
        }
    }
}

/// The values of a sequence of payloads.
pub open spec fn payload_views(v: Seq<EventPayload>) -> Seq<PayloadView> {
    v.map_values(|p: EventPayload| p@)
}

/// A copy of a list of pull requests.
pub fn clone_pull_requests(list: &Vec<PullRequest>) -> (copy: Vec<PullRequest>)
    ensures
        copy@ == list@,
{
    let mut copy: Vec<PullRequest> = Vec::new();
    let mut i: usize = 0;
    while i < list.len()
        invariant
            i <= list.len(),
            copy@ == list@.take(i as int),
        decreases list.len() - i,
    {
        copy.push(list[i].clone());
        assert(list@.take(i + 1) =~= list@.take(i as int).push(list@[i as int]));
        i += 1;
    }
    assert(list@.take(list.len() as int) =~= list@);
    copy
}

impl Clone for EventPayload {
    fn clone(&self) -> (copy: EventPayload)
        ensures
            copy@ == self@,
    {
        match self {
            EventPayload::PullRequest { action, pull_request } => EventPayload::PullRequest {
                action: action.clone(),
                pull_request: pull_request.clone(),
            },
            EventPayload::Review { action, pull_request } => EventPayload::Review {
                action: action.clone(),
                pull_request: pull_request.clone(),
            },
            EventPayload::ReviewComment { action, pull_request } => EventPayload::ReviewComment {
                action: action.clone(),
                pull_request: pull_request.clone(),
            },
            EventPayload::Issue { action, issue } => EventPayload::Issue {
                action: action.clone(),
                issue: issue.clone(),
            },
            EventPayload::IssueComment { action, issue } => EventPayload::IssueComment {
                action: action.clone(),
                issue: issue.clone(),
            },
            EventPayload::Push { git_ref, resolved } => EventPayload::Push {
                git_ref: git_ref.clone(),
                resolved: match resolved {
                    Some(found) => Some(clone_pull_requests(found)),
                    None => None,
                },
            },
        }
    }
}

/// One record of the activity feed. `payload` is `None` for a kind of event
/// that the report does not understand.
pub struct ActivityEvent {
    pub repository_name: String,
    pub created_at: Timestamp,
    pub payload: Option<EventPayload>,
}

/// The value of an [`ActivityEvent`].
pub struct EventView {
    pub repository_name: Seq<char>,
    pub created_at: Timestamp,
    pub payload: Option<PayloadView>,
}

impl View for ActivityEvent {
    type V = EventView;

    open spec fn view(&self) -> EventView {
        EventView {
            repository_name: self.repository_name@,
            created_at: self.created_at,
            payload: match self.payload {
                Some(p) => Some(p@),
                None => None,
            },
        }
    }
}

/// The values of a sequence of events.
pub open spec fn event_views(v: Seq<ActivityEvent>) -> Seq<EventView> {
    v.map_values(|e: ActivityEvent| e@)
}

impl Clone for ActivityEvent {
    fn clone(&self) -> (copy: ActivityEvent)
        ensures
            copy@ == self@,
    {
        ActivityEvent {
            repository_name: self.repository_name.clone(),
            created_at: self.created_at,
            payload: match &self.payload {
                Some(p) => Some(p.clone()),
                None => None,
            },
        }
    }
}

/// What the pipeline reads of a repository: its full name and, for a fork,
/// the repository it was forked from.
pub struct RepositoryInfo {
    pub full_name: String,
    pub source: Option<Box<RepositoryInfo>>,
}

/// The value of a [`RepositoryInfo`].
pub struct RepositoryView {
    pub full_name: Seq<char>,
    pub source: Option<Box<RepositoryView>>,
}

impl RepositoryInfo {
    /// The value of the record, with the chain of sources it hangs on.
    pub open spec fn model(self) -> RepositoryView
        decreases self,
    {
        RepositoryView {
            full_name: self.full_name@,
            source: match self.source {
                Some(upstream) => Some(Box::new((*upstream).model())),
                None => None,
            },
        }
    }
}

impl View for RepositoryInfo {
    type V = RepositoryView;

    open spec fn view(&self) -> RepositoryView {
        self.model()
    }
}

} // verus!
