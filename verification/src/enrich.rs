//! Finding the pull requests that pushes belong to.
//!
//! A push event names a branch, not a pull request. For each branch that is
//! not the main one, the first push to it is resolved: the repository is
//! looked up, and then the pull requests whose head is the branch, in the
//! repository itself or, for a fork, in the repository it was forked from.
//! The pass decides what to look up and what to do with the answers; looking
//! up is the caller's part.

use vstd::prelude::*;
use vstd::string::StringExecFns;
use crate::event::{
    event_views, pull_request_views, ActivityEvent, EventPayload, EventView, PayloadView,
    PullRequest, PullRequestView, RepositoryInfo, RepositoryView,
};
use crate::failure::{Failure, FailureView};
use crate::text::{same_text, split, split_text};

verus! {

/// The branch whose pushes are never resolved.
pub open spec fn main_branch() -> Seq<char> {
    "refs/heads/master"@
}

/// A branch of a repository, as push events name it.
pub struct BranchKey {
    pub repository: Seq<char>,
    pub git_ref: Seq<char>,
}

/// What is known of the repository that events call `name`.
pub struct KnownView {
    pub name: Seq<char>,
    pub info: RepositoryView,
}

/// How far a pass has come.
pub struct EnrichView {
    /// The events: resolved where the pass has been, as given beyond.
    pub events: Seq<EventView>,
    /// Where the pass stands.
    pub cursor: int,
    /// The repositories looked up so far, each under the name asked for.
    pub known: Seq<KnownView>,
    /// The branches whose first push the pass has come to.
    pub checked: Seq<BranchKey>,
}

/// The branch of an event that is a push to another branch than the main
/// one.
pub open spec fn candidate_ref(event: EventView) -> Option<Seq<char>> {
    match event.payload {
        Some(PayloadView::Push { git_ref, resolved }) => if git_ref != main_branch() {
            Some(git_ref)
        } else {
            None
        },
        _ => None,
    }
}

/// The branch that an event pushes to.
pub open spec fn key_of(event: EventView) -> BranchKey {
    BranchKey { repository: event.repository_name, git_ref: candidate_ref(event)->0 }
}

/// Whether an event is the first push to its branch.
pub open spec fn needs_lookup(event: EventView, checked: Seq<BranchKey>) -> bool {
    candidate_ref(event) is Some && !checked.contains(key_of(event))
}

/// Whether the repository that events call `name` has been looked up.
pub open spec fn is_known(known: Seq<KnownView>, name: Seq<char>) -> bool {
    exists|i: int| 0 <= i < known.len() && (#[trigger] known[i]).name == name
}

/// What was found of the repository that events call `name`.
pub open spec fn info_of(known: Seq<KnownView>, name: Seq<char>) -> RepositoryView {
    known[choose|i: int| 0 <= i < known.len() && (#[trigger] known[i]).name == name].info
}

/// No name has been looked up twice.
pub open spec fn names_distinct(known: Seq<KnownView>) -> bool {
    forall|i: int, j: int|
        0 <= i < j < known.len() ==> (#[trigger] known[i]).name != (#[trigger] known[j]).name
}

/// The repository in which the pull requests of a branch are looked for:
/// for a fork the repository it was forked from, else the repository itself.
pub open spec fn target_of(info: RepositoryView) -> Seq<char> {
    match info.source {
        Some(upstream) => upstream.full_name,
        None => info.full_name,
    }
}

/// The owner of a repository: its full name up to the first `/`.
pub open spec fn owner_of(full_name: Seq<char>) -> Seq<char> {
    split(full_name, '/').first()
}

/// The head by which the pull requests of a branch are found: the owner of
/// the repository pushed to, a colon and the branch.
pub open spec fn head_of(info: RepositoryView, git_ref: Seq<char>) -> Seq<char> {
    owner_of(info.full_name) + ":"@ + git_ref
}

/// A push event after its branch was looked up: it carries the pull requests
/// that were found, if any were, and the push to a fork is attributed to the
/// repository that was forked.
pub open spec fn resolved_event(
    event: EventView,
    info: RepositoryView,
    found: Seq<PullRequestView>,
) -> EventView {
    EventView {
        repository_name: match info.source {
            Some(upstream) => upstream.full_name,
            None => event.repository_name,
        },
        created_at: event.created_at,
        payload: match event.payload {
            Some(PayloadView::Push { git_ref, resolved }) => Some(
                PayloadView::Push {
                    git_ref,
                    resolved: if found.len() > 0 {
                        Some(found)
                    } else {
                        resolved
                    },
                },
            ),
            other => other,
        },
    }
}

/// What a pass is waiting for, or how it ended.
pub enum Stage {
    /// The repository of the event at the cursor is to be looked up.
    NeedRepository(EnrichView),
    /// The pull requests of the branch of the event at the cursor are to be
    /// looked up.
    NeedPullRequests(EnrichView),
    /// Every event has been seen to.
    Done(Seq<EventView>),
    /// A lookup failed, and with it the pass.
    Failed(FailureView),
}

/// The stage that a pass reaches by going on from its cursor: it stops at the
/// first push to a branch that is not the main one and was not met before.
pub open spec fn scanned(state: EnrichView) -> Stage
    decreases state.events.len() - state.cursor,
{
    if state.cursor < 0 || state.cursor >= state.events.len() {
        Stage::Done(state.events)
    } else {
        let event = state.events[state.cursor];
        if needs_lookup(event, state.checked) {
            let marked = EnrichView { checked: state.checked.push(key_of(event)), ..state };
            if is_known(state.known, event.repository_name) {
                Stage::NeedPullRequests(marked)
            } else {
                Stage::NeedRepository(marked)
            }
        } else {
            scanned(EnrichView { cursor: state.cursor + 1, ..state })
        }
    }
}

/// The stage that a pass over `events` starts in.
pub open spec fn started(events: Seq<EventView>) -> Stage {
    scanned(EnrichView { events, cursor: 0, known: Seq::empty(), checked: Seq::empty() })
}

/// The name by which a repository is asked for.
pub open spec fn repository_asked(state: EnrichView) -> Seq<char> {
    state.events[state.cursor].repository_name
}

/// The repository in which pull requests are asked for.
pub open spec fn pulls_repository_asked(state: EnrichView) -> Seq<char> {
    target_of(info_of(state.known, repository_asked(state)))
}

/// The head by which pull requests are asked for.
pub open spec fn pulls_head_asked(state: EnrichView) -> Seq<char> {
    head_of(
        info_of(state.known, repository_asked(state)),
        candidate_ref(state.events[state.cursor])->0,
    )
}

/// The stage after the answer to a request for a repository: the pull
/// requests of the branch are asked for next.
pub open spec fn after_repository(
    state: EnrichView,
    answer: Result<RepositoryView, FailureView>,
) -> Stage {
    match answer {
        Err(failure) => Stage::Failed(failure),
        Ok(info) => Stage::NeedPullRequests(
            EnrichView {
                known: state.known.push(KnownView { name: repository_asked(state), info }),
                ..state
            },
        ),
    }
}

/// The stage after the answer to a request for pull requests: the event at
/// the cursor is resolved, and the pass goes on behind it.
pub open spec fn after_pull_requests(
    state: EnrichView,
    answer: Result<Seq<PullRequestView>, FailureView>,
) -> Stage {
    match answer {
        Err(failure) => Stage::Failed(failure),
        Ok(found) => {
            let event = state.events[state.cursor];
            let info = info_of(state.known, event.repository_name);
            scanned(
                EnrichView {
                    events: state.events.update(state.cursor, resolved_event(event, info, found)),
                    cursor: state.cursor + 1,
                    ..state
                },
            )
        },
    }
}

/// Whether a pass stands at a push that is to be resolved.
pub open spec fn at_candidate(state: EnrichView) -> bool {
    &&& 0 <= state.cursor < state.events.len()
    &&& candidate_ref(state.events[state.cursor]) is Some
    &&& names_distinct(state.known)
}

/// What was found of the repository that events call `name`.
struct KnownRepository {
    name: String,
    info: RepositoryInfo,
}

/// A branch whose first push the pass has come to.
struct CheckedBranch {
    repository: String,
    git_ref: String,
}

spec fn known_views(known: Seq<KnownRepository>) -> Seq<KnownView> {
    known.map_values(|k: KnownRepository| KnownView { name: k.name@, info: k.info@ })
}

spec fn checked_views(checked: Seq<CheckedBranch>) -> Seq<BranchKey> {
    checked.map_values(
        |c: CheckedBranch| BranchKey { repository: c.repository@, git_ref: c.git_ref@ },
    )
}

/// A pass over a list of events.
struct Enrichment {
    events: Vec<ActivityEvent>,
    cursor: usize,
    known: Vec<KnownRepository>,
    checked: Vec<CheckedBranch>,
}

impl View for Enrichment {
    type V = EnrichView;

    closed spec fn view(&self) -> EnrichView {
        EnrichView {
            events: event_views(self.events@),
            cursor: self.cursor as int,
            known: known_views(self.known@),
            checked: checked_views(self.checked@),
        }
    }
}

/// A pass that waits for a repository.
pub struct RepositoryLookup {
    state: Enrichment,
}

/// A pass that waits for the pull requests of a branch.
pub struct PullRequestLookup {
    state: Enrichment,
}

/// What a pass is waiting for, or how it ended.
pub enum EnrichStep {
    NeedRepository(RepositoryLookup),
    NeedPullRequests(PullRequestLookup),
    /// Every event has been seen to: the events, resolved.
    Done(Vec<ActivityEvent>),
    /// A lookup failed, and with it the pass.
    Failed(Failure),
}

impl View for RepositoryLookup {
    type V = EnrichView;

    closed spec fn view(&self) -> EnrichView {
        self.state@
    }
}

impl View for PullRequestLookup {
    type V = EnrichView;

    closed spec fn view(&self) -> EnrichView {
        self.state@
    }
}

impl View for EnrichStep {
    type V = Stage;

    open spec fn view(&self) -> Stage {
        match *self {
            EnrichStep::NeedRepository(lookup) => Stage::NeedRepository(lookup@),
            EnrichStep::NeedPullRequests(lookup) => Stage::NeedPullRequests(lookup@),
            EnrichStep::Done(events) => Stage::Done(event_views(events@)),
            EnrichStep::Failed(failure) => Stage::Failed(failure@),
        }
    }
}

/// The branch of an event that is a push to another branch than the main
/// one.
fn candidate_of(event: &ActivityEvent) -> (git_ref: Option<String>)
    ensures
        crate::text::optional_text(git_ref) == candidate_ref(event@),
{
    match &event.payload {
        Some(EventPayload::Push { git_ref, resolved }) => {
            if same_text(git_ref.as_str(), "refs/heads/master") {
                None
            } else {
                Some(git_ref.clone())
            }
        },
        _ => None,
    }
}

/// Whether the pass has come to the branch before.
fn is_checked(checked: &Vec<CheckedBranch>, repository: &str, git_ref: &str) -> (met: bool)
    ensures
        met == checked_views(checked@).contains(
            BranchKey { repository: repository@, git_ref: git_ref@ },
        ),
{
    let ghost key = BranchKey { repository: repository@, git_ref: git_ref@ };
    let mut i: usize = 0;
    while i < checked.len()
        invariant
            i <= checked.len(),
            key == (BranchKey { repository: repository@, git_ref: git_ref@ }),
            forall|j: int| 0 <= j < i ==> checked_views(checked@)[j] != key,
        decreases checked.len() - i,
    {
        if same_text(checked[i].repository.as_str(), repository) && same_text(
            checked[i].git_ref.as_str(),
            git_ref,
        ) {
            assert(checked_views(checked@)[i as int] == key);
            return true;
        }
        i += 1;
    }
    false
}

/// Where what is known of the repository called `name` stands.
fn find_known(known: &Vec<KnownRepository>, name: &str) -> (at: Option<usize>)
    ensures
        at is Some <==> is_known(known_views(known@), name@),
        at matches Some(i) ==> i < known@.len() && known@[i as int].name@ == name@,
{
    let mut i: usize = 0;
    while i < known.len()
        invariant
            i <= known.len(),
            forall|j: int| 0 <= j < i ==> (#[trigger] known_views(known@)[j]).name != name@,
        decreases known.len() - i,
    {
        if same_text(known[i].name.as_str(), name) {
            assert(known_views(known@)[i as int].name == name@);
            return Some(i);
        }
        i += 1;
    }
    None
}

/// The owner of the repository with this full name.
pub fn owner(full_name: &str) -> (name: String)
    ensures
        name@ == owner_of(full_name@),
{
    let pieces = split_text(full_name, '/');
    proof {
        crate::text::lemma_split_nonempty(full_name@, '/');
        assert(crate::text::texts(pieces@)[0] == pieces@[0]@);
    }
    pieces[0].clone()
}

/// Where in the known repositories the one called `name` stands.
proof fn lemma_known_at(known: Seq<KnownView>, name: Seq<char>, at: int)
    requires
        names_distinct(known),
        0 <= at < known.len(),
        known[at].name == name,
    ensures
        info_of(known, name) == known[at].info,
{
    let chosen = choose|i: int| 0 <= i < known.len() && (#[trigger] known[i]).name == name;
    if chosen < at {
        assert(known[chosen].name != known[at].name);
    } else if at < chosen {
        assert(known[at].name != known[chosen].name);
    }
}

/// Goes on from `from` to the next push that is to be resolved.
fn resume(
    events: Vec<ActivityEvent>,
    from: usize,
    known: Vec<KnownRepository>,
    checked: Vec<CheckedBranch>,
) -> (step: EnrichStep)
    requires
        from <= events@.len(),
        names_distinct(known_views(known@)),
    ensures
        step@ == scanned(
            EnrichView {
                events: event_views(events@),
                cursor: from as int,
                known: known_views(known@),
                checked: checked_views(checked@),
            },
        ),
{
    let ghost goal = scanned(
        EnrichView {
            events: event_views(events@),
            cursor: from as int,
            known: known_views(known@),
            checked: checked_views(checked@),
        },
    );
    let mut marks = checked;
    let mut cursor = from;
    while cursor < events.len()
        invariant
            cursor <= events@.len(),
            names_distinct(known_views(known@)),
            goal == scanned(
                EnrichView {
                    events: event_views(events@),
                    cursor: from as int,
                    known: known_views(known@),
                    checked: checked_views(checked@),
                },
            ),
            goal == scanned(
                EnrichView {
                    events: event_views(events@),
                    cursor: cursor as int,
                    known: known_views(known@),
                    checked: checked_views(marks@),
                },
            ),
        decreases events.len() - cursor,
    {
        let ghost here = EnrichView {
            events: event_views(events@),
            cursor: cursor as int,
            known: known_views(known@),
            checked: checked_views(marks@),
        };
        let ghost event = events@[cursor as int]@;
        assert(here.events[cursor as int] == event);
        match candidate_of(&events[cursor]) {
            Some(git_ref) => {
                if !is_checked(&marks, events[cursor].repository_name.as_str(), git_ref.as_str()) {
                    let branch = CheckedBranch {
                        repository: events[cursor].repository_name.clone(),
                        git_ref,
                    };
                    proof {
                        assert(checked_views(marks@.push(branch)) =~= checked_views(marks@).push(
                            key_of(event),
                        ));
                    }
                    marks.push(branch);
                    let found = find_known(&known, events[cursor].repository_name.as_str());
                    let state = Enrichment { events, cursor, known, checked: marks };
                    proof {
                        assert(key_of(event) == (BranchKey {
                            repository: event.repository_name,
                            git_ref: branch.git_ref@,
                        }));
                        assert(needs_lookup(event, here.checked));
                        assert(state@ == (EnrichView {
                            checked: here.checked.push(key_of(event)),
                            ..here
                        }));
                    }
                    return match found {
                        Some(_) => EnrichStep::NeedPullRequests(PullRequestLookup { state }),
                        None => EnrichStep::NeedRepository(RepositoryLookup { state }),
                    };
                }
            },
            None => {},
        }
        cursor += 1;
    }
    EnrichStep::Done(events)
}

/// Starts a pass over `events`: goes up to the first push that is to be
/// resolved, or to the end.
pub fn enrich(events: Vec<ActivityEvent>) -> (step: EnrichStep)
    ensures
        step@ == started(event_views(events@)),
{
    let known: Vec<KnownRepository> = Vec::new();
    let checked: Vec<CheckedBranch> = Vec::new();
    assert(known_views(known@) =~= Seq::<KnownView>::empty());
    assert(checked_views(checked@) =~= Seq::<BranchKey>::empty());
    resume(events, 0, known, checked)
}

impl RepositoryLookup {
    #[verifier::type_invariant]
    spec fn inv(self) -> bool {
        at_candidate(self.state@) && !is_known(self.state@.known, repository_asked(self.state@))
    }

    /// The name of the repository to look up.
    pub fn name(&self) -> (name: String)
        ensures
            name@ == repository_asked(self@),
    {
        proof {
            use_type_invariant(self);
        }
        self.state.events[self.state.cursor].repository_name.clone()
    }

    /// Takes the answer to the request for the repository `self.name()`.
    pub fn answer(self, answer: Result<RepositoryInfo, Failure>) -> (step: EnrichStep)
        ensures
            step@ == after_repository(
                self@,
                match answer {
                    Ok(info) => Ok(info@),
                    Err(failure) => Err(failure@),
                },
            ),
    {
        proof {
            use_type_invariant(&self);
        }
        match answer {
            Err(failure) => EnrichStep::Failed(failure),
            Ok(info) => {
                let Enrichment { events, cursor, mut known, checked } = self.state;
                let name = events[cursor].repository_name.clone();
                let entry = KnownRepository { name, info };
                proof {
                    let before = known_views(known@);
                    let after = known_views(known@.push(entry));
                    assert(after =~= before.push(KnownView { name: name@, info: info@ }));
                    assert(after[before.len() as int].name == name@);
                    assert forall|i: int, j: int| 0 <= i < j < after.len() implies (
                    #[trigger] after[i]).name != (#[trigger] after[j]).name by {
                        if j == before.len() {
                            assert(before[i].name != name@);
                        } else {
                            assert(before[i].name != before[j].name);
                        }
                    }
                }
                known.push(entry);
                let state = Enrichment { events, cursor, known, checked };
                EnrichStep::NeedPullRequests(PullRequestLookup { state })
            },
        }
    }
}

impl PullRequestLookup {
    #[verifier::type_invariant]
    spec fn inv(self) -> bool {
        at_candidate(self.state@) && is_known(self.state@.known, repository_asked(self.state@))
    }

    /// The repository in which to look for pull requests.
    pub fn repository(&self) -> (name: String)
        ensures
            name@ == pulls_repository_asked(self@),
    {
        proof {
            use_type_invariant(self);
        }
        let state = &self.state;
        let at = match find_known(
            &state.known,
            state.events[state.cursor].repository_name.as_str(),
        ) {
            Some(at) => at,
            None => {
                proof {
                    assert(false);
                }
                0
            },
        };
        proof {
            reveal_with_fuel(RepositoryInfo::model, 2);
            assert(state@.known[at as int].name == repository_asked(state@));
            lemma_known_at(state@.known, repository_asked(state@), at as int);
            assert(state@.known[at as int].info == state.known@[at as int].info@);
        }
        let info = &state.known[at].info;
        match &info.source {
            Some(upstream) => upstream.full_name.clone(),
            None => info.full_name.clone(),
        }
    }

    /// The head by which to look for pull requests.
    pub fn head(&self) -> (head: String)
        ensures
            head@ == pulls_head_asked(self@),
    {
        proof {
            use_type_invariant(self);
        }
        let state = &self.state;
        let event = &state.events[state.cursor];
        let at = match find_known(&state.known, event.repository_name.as_str()) {
            Some(at) => at,
            None => {
                proof {
                    assert(false);
                }
                0
            },
        };
        proof {
            assert(state@.known[at as int].name == repository_asked(state@));
            lemma_known_at(state@.known, repository_asked(state@), at as int);
            assert(state@.known[at as int].info == state.known@[at as int].info@);
        }
        let mut head = owner(state.known[at].info.full_name.as_str());
        head.append(":");
        match candidate_of(event) {
            Some(git_ref) => {
                head.append(git_ref.as_str());
            },
            None => {
                proof {
                    assert(false);
                }
            },
        }
        head
    }

    /// Takes the answer to the request for the pull requests with the head
    /// `self.head()` in the repository `self.repository()`.
    pub fn answer(self, answer: Result<Vec<PullRequest>, Failure>) -> (step: EnrichStep)
        ensures
            step@ == after_pull_requests(
                self@,
                match answer {
                    Ok(found) => Ok(pull_request_views(found@)),
                    Err(failure) => Err(failure@),
                },
            ),
    {
        proof {
            use_type_invariant(&self);
        }
        match answer {
            Err(failure) => EnrichStep::Failed(failure),
            Ok(found) => {
                let Enrichment { mut events, cursor, known, checked } = self.state;
                let ghost before = event_views(events@);
                let ghost event = before[cursor as int];
                let ghost names = known_views(known@);
                let at = match find_known(&known, events[cursor].repository_name.as_str()) {
                    Some(at) => at,
                    None => {
                        proof {
                            assert(false);
                        }
                        0
                    },
                };
                proof {
                    reveal_with_fuel(RepositoryInfo::model, 2);
                    assert(names[at as int].name == event.repository_name);
                    lemma_known_at(names, event.repository_name, at as int);
                    assert(names[at as int].info == known@[at as int].info@);
                }
                let renamed = match &known[at].info.source {
                    Some(upstream) => Some(upstream.full_name.clone()),
                    None => None,
                };
                let slot = &mut events[cursor];
                match renamed {
                    Some(name) => {
                        slot.repository_name = name;
                    },
                    None => {},
                }
                if found.len() > 0 {
                    match &mut slot.payload {
                        Some(EventPayload::Push { git_ref, resolved }) => {
                            *resolved = Some(found);
                        },
                        _ => {},
                    }
                }
                proof {
                    assert(events@.len() == before.len());
                    assert(cursor < events.len());
                    assert(event_views(events@) =~= before.update(
                        cursor as int,
                        resolved_event(event, names[at as int].info, pull_request_views(found@)),
                    ));
                }
                resume(events, cursor + 1, known, checked)
            },
        }
    }
}

} // verus!
