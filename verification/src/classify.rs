//! Folding one repository's events, oldest first, into report entries.
//!
//! Entries are gathered under the number of the pull request or issue they
//! are about. Each kind of event has its rule for what it adds; an event is
//! never recorded twice, and an entry that exists is only ever extended by
//! the events that say so.

use vstd::prelude::*;
use crate::event::{EventPayload, IssueView, PayloadView, PullRequest, PullRequestView};
use crate::event::payload_views;
use crate::failure::{Failure, FailureKind, FailureView};
use crate::report::{entry_views, Entry, EntryKind, EntryView};
use crate::text::{same_text, segment, segment_of};

verus! {

/// An entry together with the number it is gathered under.
pub struct Slot {
    pub number: u64,
    pub entry: EntryView,
}

/// Whether some entry is gathered under `number`.
pub open spec fn holds(slots: Seq<Slot>, number: u64) -> bool {
    exists|i: int| 0 <= i < slots.len() && (#[trigger] slots[i]).number == number
}

/// Where the entry gathered under `number` stands, if there is one.
pub open spec fn place(slots: Seq<Slot>, number: u64) -> int {
    choose|i: int| 0 <= i < slots.len() && (#[trigger] slots[i]).number == number
}

/// No number has two entries, and no entry records an action twice.
pub open spec fn ledger_wf(slots: Seq<Slot>) -> bool {
    &&& forall|i: int, j: int|
        0 <= i < j < slots.len() ==> (#[trigger] slots[i]).number != (#[trigger] slots[j]).number
    &&& forall|i: int| 0 <= i < slots.len() ==> (#[trigger] slots[i]).entry.wf()
}

/// The entries of the slots, in their order.
pub open spec fn entries_of(slots: Seq<Slot>) -> Seq<EntryView> {
    slots.map_values(|s: Slot| s.entry)
}

/// An entry with a web address, as events give rise to.
pub open spec fn fresh(
    kind: EntryKind,
    title: Seq<char>,
    url: Seq<char>,
    actions: Seq<Seq<char>>,
) -> EntryView {
    EntryView { kind, title, url: Some(url), actions }
}

/// `slots`, with `entry` added under `number` unless the number has an
/// entry already.
pub open spec fn noted(slots: Seq<Slot>, number: u64, entry: EntryView) -> Seq<Slot> {
    if holds(slots, number) {
        slots
    } else {
        slots.push(Slot { number, entry })
    }
}

/// The action that a pull-request event reports: its own, except that the
/// closing of a merged pull request counts as `merged` and the closing of an
/// unmerged one does not count at all.
pub open spec fn resolved_action(action: Seq<char>, merged: bool) -> Option<Seq<char>> {
    if action == "closed"@ {
        if merged {
            Some("merged"@)
        } else {
            None
        }
    } else {
        Some(action)
    }
}

/// The rule for a pull-request event.
pub open spec fn after_pull_request(
    slots: Seq<Slot>,
    action: Seq<char>,
    pr: PullRequestView,
) -> Seq<Slot> {
    match resolved_action(action, pr.merged) {
        None => slots,
        Some(label) => {
            let known = noted(
                slots,
                pr.number,
                fresh(EntryKind::PullRequest, pr.title, pr.url, Seq::empty()),
            );
            let at = place(known, pr.number);
            let had = known[at].entry;
            let cleared = if label == "opened"@ {
                had.without_action("pushed"@)
            } else {
                had
            };
            known.update(at, Slot { number: pr.number, entry: cleared.with_action(label) })
        },
    }
}

/// The rule for a review and for a review comment: somebody else's pull
/// request counts as reviewed, once.
pub open spec fn after_review(
    slots: Seq<Slot>,
    login: Seq<char>,
    counted: Seq<char>,
    action: Seq<char>,
    pr: PullRequestView,
) -> Seq<Slot> {
    if action == counted && pr.author_login != login {
        noted(
            slots,
            pr.number,
            fresh(EntryKind::PullRequest, pr.title, pr.url, seq!["reviewed"@]),
        )
    } else {
        slots
    }
}

/// The rule for an issue event.
pub open spec fn after_issue(slots: Seq<Slot>, action: Seq<char>, issue: IssueView) -> Seq<Slot> {
    if action == "opened"@ {
        let known = noted(
            slots,
            issue.number,
            fresh(EntryKind::Issue, issue.title, issue.url, Seq::empty()),
        );
        let at = place(known, issue.number);
        known.update(
            at,
            Slot { number: issue.number, entry: known[at].entry.with_action("opened"@) },
        )
    } else {
        slots
    }
}

/// Where a web address says what kind of thing it points at: the piece at
/// this position, counted from 0, among those that `/` separates.
pub const KIND_SEGMENT: usize = 5;

/// Whether the web address of an issue shows it to be a pull request.
pub open spec fn about_pull_request(url: Seq<char>) -> bool {
    segment(url, '/', KIND_SEGMENT as int) == Some("pull"@)
}

/// Whether the web address is long enough to say what it points at.
pub open spec fn tells_kind(url: Seq<char>) -> bool {
    segment(url, '/', KIND_SEGMENT as int) is Some
}

/// The rule for a comment on an issue, which may in truth be a pull request.
pub open spec fn after_issue_comment(
    slots: Seq<Slot>,
    login: Seq<char>,
    include_issue_comments: bool,
    action: Seq<char>,
    issue: IssueView,
) -> Seq<Slot> {
    if action != "created"@ {
        slots
    } else if about_pull_request(issue.url) {
        if issue.author_login != login {
            noted(
                slots,
                issue.number,
                fresh(EntryKind::PullRequest, issue.title, issue.url, seq!["reviewed"@]),
            )
        } else {
            slots
        }
    } else if include_issue_comments {
        noted(
            slots,
            issue.number,
            fresh(EntryKind::Issue, issue.title, issue.url, seq!["commented"@]),
        )
    } else {
        slots
    }
}

/// The rule for a push whose pull requests are known: each of them that has
/// no entry yet gets one, in the order of the list.
pub open spec fn after_push(slots: Seq<Slot>, found: Seq<PullRequestView>) -> Seq<Slot>
    decreases found.len(),
{
    if found.len() == 0 {
        slots
    } else {
        let pr = found.last();
        noted(
            after_push(slots, found.drop_last()),
            pr.number,
            fresh(EntryKind::PullRequest, pr.title, pr.url, seq!["pushed"@]),
        )
    }
}

/// Whether an event cannot be classified: a comment was created on
/// something whose web address does not say what it is.
pub open spec fn undecidable(event: PayloadView) -> bool {
    event matches PayloadView::IssueComment { action, issue } && action == "created"@
        && !tells_kind(issue.url)
}

/// What the slots are after one more event.
pub open spec fn step(
    slots: Seq<Slot>,
    login: Seq<char>,
    include_issue_comments: bool,
    event: PayloadView,
) -> Seq<Slot> {
    match event {
        PayloadView::PullRequest { action, pull_request } => after_pull_request(
            slots,
            action,
            pull_request,
        ),
        PayloadView::Review { action, pull_request } => after_review(
            slots,
            login,
            "submitted"@,
            action,
            pull_request,
        ),
        PayloadView::ReviewComment { action, pull_request } => after_review(
            slots,
            login,
            "created"@,
            action,
            pull_request,
        ),
        PayloadView::Issue { action, issue } => after_issue(slots, action, issue),
        PayloadView::IssueComment { action, issue } => after_issue_comment(
            slots,
            login,
            include_issue_comments,
            action,
            issue,
        ),
        PayloadView::Push { git_ref, resolved } => match resolved {
            Some(found) => after_push(slots, found),
            None => slots,
        },
    }
}

/// What the slots are after all of `events`, taken in order from nothing.
pub open spec fn gathered(
    login: Seq<char>,
    include_issue_comments: bool,
    events: Seq<PayloadView>,
) -> Seq<Slot>
    decreases events.len(),
{
    if events.len() == 0 {
        Seq::empty()
    } else {
        step(
            gathered(login, include_issue_comments, events.drop_last()),
            login,
            include_issue_comments,
            events.last(),
        )
    }
}

/// Whether every event of the sequence can be classified.
pub open spec fn all_decidable(events: Seq<PayloadView>) -> bool {
    forall|i: int| 0 <= i < events.len() ==> !undecidable(#[trigger] events[i])
}

/// The report entries that a repository's events amount to, in the order in
/// which their numbers first came up.
pub open spec fn classified(
    login: Seq<char>,
    include_issue_comments: bool,
    events: Seq<PayloadView>,
) -> Seq<EntryView> {
    entries_of(gathered(login, include_issue_comments, events))
}

/// Whether an event cannot be classified.
pub fn is_undecidable(event: &EventPayload) -> (stuck: bool)
    ensures
        stuck == undecidable(event@),
{
    match event {
        EventPayload::IssueComment { action, issue } => {
            if !same_text(action.as_str(), "created") {
                return false;
            }
            segment_of(issue.url.as_str(), '/', KIND_SEGMENT).is_none()
        },
        _ => false,
    }
}

/// The failure that stands for an event that cannot be classified.
pub open spec fn undecidable_failure() -> FailureView {
    FailureView { kind: FailureKind::Decode, message: "url must be parsable"@ }
}

/// The entries gathered so far from one repository's events, each under the
/// number of its pull request or issue, in the order in which the numbers
/// first came up.
pub struct Aggregation {
    numbers: Vec<u64>,
    entries: Vec<Entry>,
}

impl View for Aggregation {
    type V = Seq<Slot>;

    closed spec fn view(&self) -> Seq<Slot> {
        Seq::new(
            self.numbers@.len(),
            |i: int| Slot { number: self.numbers@[i], entry: self.entries@[i]@ },
        )
    }
}

impl Aggregation {
    /// Every number has its entry beside it.
    pub closed spec fn aligned(&self) -> bool {
        self.numbers@.len() == self.entries@.len()
    }

    /// Every number has its entry, no number has two, and no entry records an
    /// action twice.
    pub open spec fn wf(&self) -> bool {
        self.aligned() && ledger_wf(self@)
    }

    /// Nothing gathered yet.
    pub fn new() -> (empty: Aggregation)
        ensures
            empty@ == Seq::<Slot>::empty(),
            empty.wf(),
    {
        let empty = Aggregation { numbers: Vec::new(), entries: Vec::new() };
        assert(empty@ =~= Seq::<Slot>::empty());
        empty
    }

    /// Where the entry for `number` stands.
    pub fn find(&self, number: u64) -> (at: Option<usize>)
        requires
            self.wf(),
        ensures
            at is Some <==> holds(self@, number),
            at matches Some(i) ==> i < self@.len() && i == place(self@, number),
    {
        let mut i: usize = 0;
        while i < self.numbers.len()
            invariant
                self.wf(),
                i <= self.numbers.len(),
                forall|j: int| 0 <= j < i ==> (#[trigger] self@[j]).number != number,
            decreases self.numbers.len() - i,
        {
            if self.numbers[i] == number {
                assert(self@[i as int].number == number);
                return Some(i);
            }
            i += 1;
        }
        None
    }

    /// Adds `entry` under `number` unless the number has an entry, and says
    /// where the number's entry stands.
    fn note(&mut self, number: u64, entry: Entry) -> (at: usize)
        requires
            old(self).wf(),
            entry.wf(),
        ensures
            final(self).wf(),
            final(self)@ == noted(old(self)@, number, entry@),
            at < final(self)@.len(),
            at == place(final(self)@, number),
            final(self)@[at as int].number == number,
    {
        match self.find(number) {
            Some(at) => at,
            None => {
                let at = self.numbers.len();
                self.numbers.push(number);
                self.entries.push(entry);
                assert(self@ =~= old(self)@.push(Slot { number, entry: entry@ }));
                assert(self@[at as int].number == number);
                at
            },
        }
    }

    /// Takes one more event into account.
    ///
    /// On a comment that was created on something whose web address does
    /// not say whether it is a pull request, nothing is changed and the answer
    /// is a failure.
    pub fn absorb(
        &mut self,
        login: &str,
        include_issue_comments: bool,
        event: &EventPayload,
    ) -> (outcome: Result<(), Failure>)
        requires
            old(self).wf(),
        ensures
            final(self).wf(),
            match outcome {
                Ok(_) => !undecidable(event@) && final(self)@ == step(
                    old(self)@,
                    login@,
                    include_issue_comments,
                    event@,
                ),
                Err(failure) => undecidable(event@) && final(self)@ == old(self)@
                    && failure@ == undecidable_failure(),
            },
    {
        match event {
            EventPayload::PullRequest { action, pull_request } => {
                self.absorb_pull_request(action, pull_request);
                Ok(())
            },
            EventPayload::Review { action, pull_request } => {
                self.absorb_review(login, "submitted", action, pull_request);
                Ok(())
            },
            EventPayload::ReviewComment { action, pull_request } => {
                self.absorb_review(login, "created", action, pull_request);
                Ok(())
            },
            EventPayload::Issue { action, issue } => {
                if same_text(action.as_str(), "opened") {
                    let blank = Entry::new(
                        EntryKind::Issue,
                        issue.title.clone(),
                        Some(issue.url.clone()),
                    );
                    let at = self.note(issue.number, blank);
                    let ghost known = self@;
                    self.entries[at].add_action("opened".to_owned());
                    assert(self@ =~= known.update(
                        at as int,
                        Slot {
                            number: issue.number,
                            entry: known[at as int].entry.with_action("opened"@),
                        },
                    ));
                }
                Ok(())
            },
            EventPayload::IssueComment { action, issue } => {
                if !same_text(action.as_str(), "created") {
                    return Ok(());
                }
                let kind = match segment_of(issue.url.as_str(), '/', KIND_SEGMENT) {
                    Some(kind) => kind,
                    None => {
                        return Err(
                            Failure::new(FailureKind::Decode, "url must be parsable"),
                        );
                    },
                };
                if same_text(kind.as_str(), "pull") {
                    if !same_text(issue.author_login.as_str(), login) {
                        let mut reviewed = Entry::new(
                            EntryKind::PullRequest,
                            issue.title.clone(),
                            Some(issue.url.clone()),
                        );
                        reviewed.add_action("reviewed".to_owned());
                        assert(reviewed@.actions =~= seq!["reviewed"@]);
                        self.note(issue.number, reviewed);
                    }
                } else if include_issue_comments {
                    let mut commented = Entry::new(
                        EntryKind::Issue,
                        issue.title.clone(),
                        Some(issue.url.clone()),
                    );
                    commented.add_action("commented".to_owned());
                    assert(commented@.actions =~= seq!["commented"@]);
                    self.note(issue.number, commented);
                }
                Ok(())
            },
            EventPayload::Push { git_ref, resolved } => {
                match resolved {
                    Some(found) => {
                        self.absorb_pushed(found);
                    },
                    None => {},
                }
                Ok(())
            },
        }
    }

    fn absorb_pull_request(&mut self, action: &String, pull_request: &PullRequest)
        requires
            old(self).wf(),
        ensures
            final(self).wf(),
            final(self)@ == after_pull_request(old(self)@, action@, pull_request@),
    {
        let closed = same_text(action.as_str(), "closed");
        if closed && !pull_request.merged {
            return ;
        }
        let label = if closed {
            "merged".to_owned()
        } else {
            action.clone()
        };
        let blank = Entry::new(
            EntryKind::PullRequest,
            pull_request.title.clone(),
            Some(pull_request.url.clone()),
        );
        let at = self.note(pull_request.number, blank);
        if same_text(label.as_str(), "opened") {
            self.entries[at].drop_action("pushed");
        }
        self.entries[at].add_action(label);
        assert(self@ =~= after_pull_request(old(self)@, action@, pull_request@));
    }

    fn absorb_review(
        &mut self,
        login: &str,
        counted: &str,
        action: &String,
        pull_request: &PullRequest,
    )
        requires
            old(self).wf(),
        ensures
            final(self).wf(),
            final(self)@ == after_review(old(self)@, login@, counted@, action@, pull_request@),
    {
        if same_text(action.as_str(), counted) && !same_text(
            pull_request.author_login.as_str(),
            login,
        ) {
            let mut reviewed = Entry::new(
                EntryKind::PullRequest,
                pull_request.title.clone(),
                Some(pull_request.url.clone()),
            );
            reviewed.add_action("reviewed".to_owned());
            assert(reviewed@.actions =~= seq!["reviewed"@]);
            self.note(pull_request.number, reviewed);
        }
    }

    fn absorb_pushed(&mut self, found: &Vec<PullRequest>)
        requires
            old(self).wf(),
        ensures
            final(self).wf(),
            final(self)@ == after_push(old(self)@, crate::event::pull_request_views(found@)),
    {
        let ghost all = crate::event::pull_request_views(found@);
        let mut i: usize = 0;
        while i < found.len()
            invariant
                self.wf(),
                i <= found.len(),
                all == crate::event::pull_request_views(found@),
                self@ == after_push(old(self)@, all.take(i as int)),
            decreases found.len() - i,
        {
            let pr = &found[i];
            let mut pushed = Entry::new(
                EntryKind::PullRequest,
                pr.title.clone(),
                Some(pr.url.clone()),
            );
            pushed.add_action("pushed".to_owned());
            assert(pushed@.actions =~= seq!["pushed"@]);
            proof {
                assert(all.take(i + 1).drop_last() =~= all.take(i as int));
                assert(all.take(i + 1).last() == pr@);
            }
            self.note(pr.number, pushed);
            i += 1;
        }
        assert(all.take(found.len() as int) =~= all);
    }

    /// The gathered entries, in the order in which their numbers came up.
    pub fn into_entries(self) -> (entries: Vec<Entry>)
        requires
            self.wf(),
        ensures
            entry_views(entries@) == entries_of(self@),
            forall|i: int| 0 <= i < entries@.len() ==> (#[trigger] entries@[i]).wf(),
    {
        assert(entry_views(self.entries@) =~= entries_of(self@));
        assert forall|i: int| 0 <= i < self.entries@.len() implies (
        #[trigger] self.entries@[i]).wf() by {
            assert(self@[i].entry.wf());
        }
        self.entries
    }
}

/// Folds one repository's events, oldest first, into report entries.
///
/// The entries come in the order in which their numbers first came up. The
/// answer is a failure exactly if some event cannot be classified: a comment
/// created on something whose web address does not say what it is.
pub fn classify(login: &str, include_issue_comments: bool, events: &[EventPayload]) -> (outcome:
    Result<Vec<Entry>, Failure>)
    ensures
        match outcome {
            Ok(entries) => {
                &&& all_decidable(payload_views(events@))
                &&& entry_views(entries@) == classified(
                    login@,
                    include_issue_comments,
                    payload_views(events@),
                )
                &&& forall|i: int| 0 <= i < entries@.len() ==> (#[trigger] entries@[i]).wf()
            },
            Err(failure) => {
                &&& !all_decidable(payload_views(events@))
                &&& failure@ == undecidable_failure()
            },
        },
{
    let ghost all = payload_views(events@);
    let mut gathering = Aggregation::new();
    let mut i: usize = 0;
    while i < events.len()
        invariant
            i <= events.len(),
            all == payload_views(events@),
            gathering.wf(),
            gathering@ == gathered(login@, include_issue_comments, all.take(i as int)),
            all_decidable(all.take(i as int)),
        decreases events.len() - i,
    {
        proof {
            assert(all.take(i + 1).drop_last() =~= all.take(i as int));
            assert(all.take(i + 1).last() == events@[i as int]@);
        }
        match gathering.absorb(login, include_issue_comments, &events[i]) {
            Ok(_) => {},
            Err(failure) => {
                assert(undecidable(all[i as int]));
                return Err(failure);
            },
        }
        assert forall|j: int| 0 <= j < i + 1 implies !undecidable(
            #[trigger] all.take(i + 1)[j],
        ) by {
            if j < i {
                assert(all.take(i as int)[j] == all.take(i + 1)[j]);
            }
        }
        i += 1;
    }
    assert(all.take(events.len() as int) =~= all);
    Ok(gathering.into_entries())
}

} // verus!
