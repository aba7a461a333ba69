//! What holds of classification whatever the events are.

use vstd::prelude::*;
use crate::classify::{
    about_pull_request, after_pull_request, after_push, classified, entries_of, fresh, gathered,
    holds, ledger_wf, noted, place, resolved_action, step, Slot,
};
use crate::event::{IssueView, PayloadView, PullRequestView};
use crate::report::{lemma_without_label, EntryKind, EntryView};

verus! {

/// In well-formed slots a number stands at one place only.
pub proof fn lemma_place_unique(slots: Seq<Slot>, number: u64, at: int)
    requires
        ledger_wf(slots),
        0 <= at < slots.len(),
        slots[at].number == number,
    ensures
        holds(slots, number),
        place(slots, number) == at,
{
    let chosen = place(slots, number);
    assert(0 <= chosen < slots.len() && slots[chosen].number == number);
    if chosen < at {
        assert(slots[chosen].number != slots[at].number);
    } else if at < chosen {
        assert(slots[at].number != slots[chosen].number);
    }
}

/// Noting an entry keeps what was there, keeps the slots well formed, and
/// leaves the number with an entry.
pub proof fn lemma_noted(slots: Seq<Slot>, number: u64, entry: EntryView)
    requires
        ledger_wf(slots),
        entry.wf(),
    ensures
        ledger_wf(noted(slots, number, entry)),
        holds(noted(slots, number, entry), number),
        forall|n: u64| holds(slots, n) ==> holds(noted(slots, number, entry), n),
        forall|n: u64|
            holds(slots, n) ==> place(noted(slots, number, entry), n) == place(slots, n),
        forall|i: int| 0 <= i < slots.len() ==> noted(slots, number, entry)[i] == slots[i],
        noted(slots, number, entry).len() >= slots.len(),
{
    let after = noted(slots, number, entry);
    if holds(slots, number) {
    } else {
        assert(after[slots.len() as int].number == number);
        assert forall|i: int, j: int| 0 <= i < j < after.len() implies (#[trigger] after[i]).number
            != (#[trigger] after[j]).number by {
            if j == slots.len() {
                assert(slots[i].number != number);
            } else {
                assert(slots[i].number != slots[j].number);
            }
        }
        assert forall|i: int| 0 <= i < after.len() implies (#[trigger] after[i]).entry.wf() by {
            if i < slots.len() {
                assert(slots[i].entry.wf());
            }
        }
        assert forall|n: u64| holds(slots, n) implies holds(after, n) && place(after, n) == place(
            slots,
            n,
        ) by {
            let at = place(slots, n);
            assert(after[at].number == n);
            lemma_place_unique(after, n, at);
        }
    }
}

/// Rewriting the entry of a number in place keeps the slots well formed.
pub proof fn lemma_revised(slots: Seq<Slot>, number: u64, entry: EntryView)
    requires
        ledger_wf(slots),
        holds(slots, number),
        entry.wf(),
    ensures
        ledger_wf(slots.update(place(slots, number), Slot { number, entry })),
        forall|n: u64|
            holds(slots, n) <==> holds(
                slots.update(place(slots, number), Slot { number, entry }),
                n,
            ),
        forall|n: u64|
            holds(slots, n) ==> place(
                slots.update(place(slots, number), Slot { number, entry }),
                n,
            ) == place(slots, n),
{
    let at = place(slots, number);
    let after = slots.update(at, Slot { number, entry });
    assert forall|i: int, j: int| 0 <= i < j < after.len() implies (#[trigger] after[i]).number
        != (#[trigger] after[j]).number by {
        assert(slots[i].number != slots[j].number);
    }
    assert forall|i: int| 0 <= i < after.len() implies (#[trigger] after[i]).entry.wf() by {
        if i != at {
            assert(slots[i].entry.wf());
        }
    }
    assert forall|n: u64| holds(slots, n) implies holds(after, n) && place(after, n) == place(
        slots,
        n,
    ) by {
        let p = place(slots, n);
        assert(after[p].number == n);
        lemma_place_unique(after, n, p);
    }
    assert forall|n: u64| holds(after, n) implies holds(slots, n) by {
        let p = place(after, n);
        assert(slots[p].number == n);
    }
}

/// Recording an action keeps an entry free of repeated actions.
pub proof fn lemma_with_action_wf(entry: EntryView, label: Seq<char>)
    requires
        entry.wf(),
    ensures
        entry.with_action(label).wf(),
        entry.with_action(label).actions.contains(label),
        entry.with_action(label).with_action(label) == entry.with_action(label),
{
    let after = entry.with_action(label);
    if !entry.actions.contains(label) {
        assert(after.actions[entry.actions.len() as int] == label);
        assert forall|i: int, j: int|
            0 <= i < after.actions.len() && 0 <= j < after.actions.len() && i
                != j implies after.actions[i] != after.actions[j] by {
            if i == entry.actions.len() {
                assert(entry.actions.contains(entry.actions[j]));
            } else if j == entry.actions.len() {
                assert(entry.actions.contains(entry.actions[i]));
            }
        }
    }
}

/// The pushes of a list of pull requests keep the slots well formed, keep
/// what was there, and leave every pull request of the list with an entry.
pub proof fn lemma_after_push(slots: Seq<Slot>, found: Seq<PullRequestView>)
    requires
        ledger_wf(slots),
    ensures
        ledger_wf(after_push(slots, found)),
        forall|n: u64| holds(slots, n) ==> holds(after_push(slots, found), n),
        forall|k: int| 0 <= k < found.len() ==> holds(after_push(slots, found), found[k].number),
    decreases found.len(),
{
    if found.len() > 0 {
        let pr = found.last();
        let front = found.drop_last();
        let before = after_push(slots, front);
        let entry = fresh(EntryKind::PullRequest, pr.title, pr.url, seq!["pushed"@]);
        lemma_after_push(slots, front);
        lemma_noted(before, pr.number, entry);
        assert forall|k: int| 0 <= k < found.len() implies holds(
            after_push(slots, found),
            found[k].number,
        ) by {
            if k < front.len() {
                assert(front[k] == found[k]);
            }
        }
    }
}

/// Pushes of pull requests that all have their entries add nothing.
pub proof fn lemma_after_push_known(slots: Seq<Slot>, found: Seq<PullRequestView>)
    requires
        forall|k: int| 0 <= k < found.len() ==> holds(slots, #[trigger] found[k].number),
    ensures
        after_push(slots, found) == slots,
    decreases found.len(),
{
    if found.len() > 0 {
        let front = found.drop_last();
        assert forall|k: int| 0 <= k < front.len() implies holds(
            slots,
            #[trigger] front[k].number,
        ) by {
            assert(front[k] == found[k]);
        }
        lemma_after_push_known(slots, front);
        assert(holds(slots, found[found.len() - 1].number));
    }
}

/// The rule for pull-request events keeps the slots well formed.
pub proof fn lemma_after_pull_request_wf(
    slots: Seq<Slot>,
    action: Seq<char>,
    pr: PullRequestView,
)
    requires
        ledger_wf(slots),
    ensures
        ledger_wf(after_pull_request(slots, action, pr)),
{
    match resolved_action(action, pr.merged) {
        None => {},
        Some(label) => {
            let blank = fresh(EntryKind::PullRequest, pr.title, pr.url, Seq::empty());
            let known = noted(slots, pr.number, blank);
            lemma_noted(slots, pr.number, blank);
            let at = place(known, pr.number);
            let had = known[at].entry;
            assert(had.wf());
            lemma_without_label(had.actions, "pushed"@);
            let cleared = if label == "opened"@ {
                had.without_action("pushed"@)
            } else {
                had
            };
            lemma_with_action_wf(cleared, label);
            lemma_revised(known, pr.number, cleared.with_action(label));
        },
    }
}

/// Every rule keeps the slots well formed.
pub proof fn lemma_step_wf(
    slots: Seq<Slot>,
    login: Seq<char>,
    include_issue_comments: bool,
    event: PayloadView,
)
    requires
        ledger_wf(slots),
    ensures
        ledger_wf(step(slots, login, include_issue_comments, event)),
{
    match event {
        PayloadView::PullRequest { action, pull_request } => {
            lemma_after_pull_request_wf(slots, action, pull_request);
        },
        PayloadView::Review { action, pull_request } => {
            lemma_noted(
                slots,
                pull_request.number,
                fresh(
                    EntryKind::PullRequest,
                    pull_request.title,
                    pull_request.url,
                    seq!["reviewed"@],
                ),
            );
        },
        PayloadView::ReviewComment { action, pull_request } => {
            lemma_noted(
                slots,
                pull_request.number,
                fresh(
                    EntryKind::PullRequest,
                    pull_request.title,
                    pull_request.url,
                    seq!["reviewed"@],
                ),
            );
        },
        PayloadView::Issue { action, issue } => {
            if action == "opened"@ {
                let blank = fresh(EntryKind::Issue, issue.title, issue.url, Seq::empty());
                let known = noted(slots, issue.number, blank);
                lemma_noted(slots, issue.number, blank);
                let at = place(known, issue.number);
                assert(known[at].entry.wf());
                lemma_with_action_wf(known[at].entry, "opened"@);
                lemma_revised(known, issue.number, known[at].entry.with_action("opened"@));
            }
        },
        PayloadView::IssueComment { action, issue } => {
            lemma_noted(
                slots,
                issue.number,
                fresh(EntryKind::PullRequest, issue.title, issue.url, seq!["reviewed"@]),
            );
            lemma_noted(
                slots,
                issue.number,
                fresh(EntryKind::Issue, issue.title, issue.url, seq!["commented"@]),
            );
        },
        PayloadView::Push { git_ref, resolved } => {
            match resolved {
                Some(found) => {
                    lemma_after_push(slots, found);
                },
                None => {},
            }
        },
    }
}

/// Whatever the events, no number has two entries in what they amount to,
/// and no entry records an action twice.
pub proof fn lemma_gathered_wf(
    login: Seq<char>,
    include_issue_comments: bool,
    events: Seq<PayloadView>,
)
    ensures
        ledger_wf(gathered(login, include_issue_comments, events)),
    decreases events.len(),
{
    if events.len() > 0 {
        lemma_gathered_wf(login, include_issue_comments, events.drop_last());
        lemma_step_wf(
            gathered(login, include_issue_comments, events.drop_last()),
            login,
            include_issue_comments,
            events.last(),
        );
    }
}

/// What a single event amounts to, and what two events amount to.
pub proof fn lemma_gathered_few(
    login: Seq<char>,
    include_issue_comments: bool,
    first: PayloadView,
    second: PayloadView,
)
    ensures
        gathered(login, include_issue_comments, seq![first]) == step(
            Seq::empty(),
            login,
            include_issue_comments,
            first,
        ),
        gathered(login, include_issue_comments, seq![first, second]) == step(
            step(Seq::empty(), login, include_issue_comments, first),
            login,
            include_issue_comments,
            second,
        ),
{
    reveal_with_fuel(gathered, 3);
    assert(seq![first].drop_last() =~= Seq::<PayloadView>::empty());
    assert(seq![first, second].drop_last() =~= seq![first]);
}

/// An event that is taken into account a second time, right after the
/// first, changes nothing.
pub proof fn lemma_step_repeated(
    slots: Seq<Slot>,
    login: Seq<char>,
    include_issue_comments: bool,
    event: PayloadView,
)
    requires
        ledger_wf(slots),
    ensures
        step(
            step(slots, login, include_issue_comments, event),
            login,
            include_issue_comments,
            event,
        ) == step(slots, login, include_issue_comments, event),
{
    let once = step(slots, login, include_issue_comments, event);
    lemma_step_wf(slots, login, include_issue_comments, event);
    match event {
        PayloadView::PullRequest { action, pull_request } => {
            match resolved_action(action, pull_request.merged) {
                None => {},
                Some(label) => {
                    let pr = pull_request;
                    let blank = fresh(EntryKind::PullRequest, pr.title, pr.url, Seq::empty());
                    let known = noted(slots, pr.number, blank);
                    lemma_noted(slots, pr.number, blank);
                    let at = place(known, pr.number);
                    let had = known[at].entry;
                    assert(had.wf());
                    lemma_without_label(had.actions, "pushed"@);
                    let cleared = if label == "opened"@ {
                        had.without_action("pushed"@)
                    } else {
                        had
                    };
                    let kept = cleared.with_action(label);
                    lemma_with_action_wf(cleared, label);
                    lemma_revised(known, pr.number, kept);
                    assert(once == known.update(at, Slot { number: pr.number, entry: kept }));
                    assert(holds(once, pr.number));
                    assert(noted(once, pr.number, blank) == once);
                    assert(place(once, pr.number) == at);
                    assert(once[at].entry == kept);
                    if label == "opened"@ {
                        lemma_distinct_labels();
                        assert(!kept.actions.contains("pushed"@)) by {
                            if kept.actions.contains("pushed"@) {
                                let i = choose|i: int|
                                    0 <= i < kept.actions.len() && kept.actions[i] == "pushed"@;
                                if i < cleared.actions.len() {
                                    assert(cleared.actions.contains(cleared.actions[i]));
                                }
                            }
                        }
                        lemma_without_label(kept.actions, "pushed"@);
                        assert(kept.without_action("pushed"@) == kept);
                    }
                    assert(once.update(at, Slot { number: pr.number, entry: kept }) =~= once);
                },
            }
        },
        PayloadView::Review { action, pull_request } => {
            lemma_noted(
                slots,
                pull_request.number,
                fresh(
                    EntryKind::PullRequest,
                    pull_request.title,
                    pull_request.url,
                    seq!["reviewed"@],
                ),
            );
        },
        PayloadView::ReviewComment { action, pull_request } => {
            lemma_noted(
                slots,
                pull_request.number,
                fresh(
                    EntryKind::PullRequest,
                    pull_request.title,
                    pull_request.url,
                    seq!["reviewed"@],
                ),
            );
        },
        PayloadView::Issue { action, issue } => {
            if action == "opened"@ {
                let blank = fresh(EntryKind::Issue, issue.title, issue.url, Seq::empty());
                let known = noted(slots, issue.number, blank);
                lemma_noted(slots, issue.number, blank);
                let at = place(known, issue.number);
                let had = known[at].entry;
                assert(had.wf());
                let kept = had.with_action("opened"@);
                lemma_with_action_wf(had, "opened"@);
                lemma_revised(known, issue.number, kept);
                assert(holds(once, issue.number));
                assert(place(once, issue.number) == at);
                assert(once.update(at, Slot { number: issue.number, entry: kept }) =~= once);
            }
        },
        PayloadView::IssueComment { action, issue } => {
            lemma_noted(
                slots,
                issue.number,
                fresh(EntryKind::PullRequest, issue.title, issue.url, seq!["reviewed"@]),
            );
            lemma_noted(
                slots,
                issue.number,
                fresh(EntryKind::Issue, issue.title, issue.url, seq!["commented"@]),
            );
        },
        PayloadView::Push { git_ref, resolved } => {
            match resolved {
                Some(found) => {
                    lemma_after_push(slots, found);
                    lemma_after_push_known(once, found);
                },
                None => {},
            }
        },
    }
}

/// The action labels that the rules tell apart are different texts.
pub proof fn lemma_distinct_labels()
    ensures
        "opened"@ != "pushed"@,
        "opened"@ != "closed"@,
        "merged"@ != "closed"@,
        "merged"@ != "opened"@,
        "reviewed"@ != "pushed"@,
{
    reveal_strlit("opened");
    reveal_strlit("pushed");
    reveal_strlit("closed");
    reveal_strlit("merged");
    reveal_strlit("reviewed");
    assert("opened"@[0] != "pushed"@[0]);
    assert("opened"@[0] != "closed"@[0]);
    assert("merged"@[0] != "closed"@[0]);
    assert("merged"@[0] != "opened"@[0]);
    assert("reviewed"@.len() != "pushed"@.len());
}

/// Classifying an event twice in a row gives what classifying it once gives:
/// no action is recorded a second time and no entry is made twice.
pub proof fn lemma_repeated_event(
    login: Seq<char>,
    include_issue_comments: bool,
    events: Seq<PayloadView>,
    event: PayloadView,
)
    ensures
        classified(login, include_issue_comments, events.push(event).push(event)) == classified(
            login,
            include_issue_comments,
            events.push(event),
        ),
{
    let once = events.push(event);
    let twice = once.push(event);
    assert(once.drop_last() =~= events);
    assert(twice.drop_last() =~= once);
    lemma_gathered_wf(login, include_issue_comments, events);
    lemma_step_repeated(
        gathered(login, include_issue_comments, events),
        login,
        include_issue_comments,
        event,
    );
}

/// Two comments created in the review of somebody else's pull request make
/// one entry with the one action `reviewed`.
pub proof fn lemma_review_comments_counted_once(
    login: Seq<char>,
    include_issue_comments: bool,
    pr: PullRequestView,
)
    requires
        pr.author_login != login,
    ensures
        classified(
            login,
            include_issue_comments,
            seq![
                PayloadView::ReviewComment { action: "created"@, pull_request: pr },
                PayloadView::ReviewComment { action: "created"@, pull_request: pr },
            ],
        ) == seq![fresh(EntryKind::PullRequest, pr.title, pr.url, seq!["reviewed"@])],
{
    let comment = PayloadView::ReviewComment { action: "created"@, pull_request: pr };
    let entry = fresh(EntryKind::PullRequest, pr.title, pr.url, seq!["reviewed"@]);
    lemma_gathered_few(login, include_issue_comments, comment, comment);
    let once = step(Seq::empty(), login, include_issue_comments, comment);
    assert(!holds(Seq::<Slot>::empty(), pr.number));
    assert(once == seq![Slot { number: pr.number, entry }]);
    assert(once[0].number == pr.number);
    assert(holds(once, pr.number));
    assert(entries_of(once) =~= seq![entry]);
}

/// Opening a pull request leaves its entry with the action `opened` and
/// without the action `pushed`, whatever was recorded before.
pub proof fn lemma_opened_clears_pushed(slots: Seq<Slot>, pr: PullRequestView)
    requires
        ledger_wf(slots),
    ensures
        ({
            let after = after_pull_request(slots, "opened"@, pr);
            &&& holds(after, pr.number)
            &&& after[place(after, pr.number)].entry.actions.contains("opened"@)
            &&& !after[place(after, pr.number)].entry.actions.contains("pushed"@)
        }),
{
    lemma_distinct_labels();
    let blank = fresh(EntryKind::PullRequest, pr.title, pr.url, Seq::empty());
    let known = noted(slots, pr.number, blank);
    lemma_noted(slots, pr.number, blank);
    let at = place(known, pr.number);
    let had = known[at].entry;
    assert(had.wf());
    lemma_without_label(had.actions, "pushed"@);
    let cleared = had.without_action("pushed"@);
    let kept = cleared.with_action("opened"@);
    lemma_with_action_wf(cleared, "opened"@);
    lemma_revised(known, pr.number, kept);
    let after = after_pull_request(slots, "opened"@, pr);
    assert(after == known.update(at, Slot { number: pr.number, entry: kept }));
    assert(place(after, pr.number) == at);
    assert(!kept.actions.contains("pushed"@)) by {
        if kept.actions.contains("pushed"@) {
            let i = choose|i: int| 0 <= i < kept.actions.len() && kept.actions[i] == "pushed"@;
            if i < cleared.actions.len() {
                assert(cleared.actions.contains(cleared.actions[i]));
            }
        }
    }
}

/// A push to a branch and then the opening of the branch's pull request
/// make one entry, whose only action is `opened`.
pub proof fn lemma_opened_after_push(
    login: Seq<char>,
    include_issue_comments: bool,
    git_ref: Seq<char>,
    pr: PullRequestView,
)
    ensures
        classified(
            login,
            include_issue_comments,
            seq![
                PayloadView::Push { git_ref, resolved: Some(seq![pr]) },
                PayloadView::PullRequest { action: "opened"@, pull_request: pr },
            ],
        ) == seq![fresh(EntryKind::PullRequest, pr.title, pr.url, seq!["opened"@])],
{
    lemma_distinct_labels();
    let push = PayloadView::Push { git_ref, resolved: Some(seq![pr]) };
    let opening = PayloadView::PullRequest { action: "opened"@, pull_request: pr };
    lemma_gathered_few(login, include_issue_comments, push, opening);
    let nothing = Seq::<Slot>::empty();
    let pushed = fresh(EntryKind::PullRequest, pr.title, pr.url, seq!["pushed"@]);
    reveal_with_fuel(after_push, 3);
    assert(seq![pr].drop_last() =~= Seq::<PullRequestView>::empty());
    assert(!holds(nothing, pr.number));
    let first = step(nothing, login, include_issue_comments, push);
    assert(first == seq![Slot { number: pr.number, entry: pushed }]);
    assert(first[0].number == pr.number);
    assert(ledger_wf(first)) by {
        lemma_step_wf(nothing, login, include_issue_comments, push);
    }
    lemma_place_unique(first, pr.number, 0);
    reveal_with_fuel(Seq::filter, 3);
    assert(seq!["pushed"@].drop_last() =~= Seq::<Seq<char>>::empty());
    let cleared = pushed.without_action("pushed"@);
    assert(cleared.actions =~= Seq::<Seq<char>>::empty());
    let kept = cleared.with_action("opened"@);
    assert(kept.actions =~= seq!["opened"@]);
    let second = step(first, login, include_issue_comments, opening);
    assert(second =~= seq![Slot { number: pr.number, entry: kept }]);
    assert(entries_of(second) =~= seq![kept]);
}

/// A review of one's own pull request, and a comment in it, leave no trace.
pub proof fn lemma_own_review_ignored(
    slots: Seq<Slot>,
    login: Seq<char>,
    include_issue_comments: bool,
    action: Seq<char>,
    pr: PullRequestView,
)
    requires
        pr.author_login == login,
    ensures
        step(
            slots,
            login,
            include_issue_comments,
            PayloadView::Review { action, pull_request: pr },
        ) == slots,
        step(
            slots,
            login,
            include_issue_comments,
            PayloadView::ReviewComment { action, pull_request: pr },
        ) == slots,
        classified(
            login,
            include_issue_comments,
            seq![PayloadView::Review { action, pull_request: pr }],
        ) == Seq::<EntryView>::empty(),
{
    let review = PayloadView::Review { action, pull_request: pr };
    lemma_gathered_few(login, include_issue_comments, review, review);
    assert(entries_of(Seq::<Slot>::empty()) =~= Seq::<EntryView>::empty());
}

/// The closing of a pull request that was not merged leaves no trace: no
/// action, and no entry if there was none.
pub proof fn lemma_closed_unmerged_ignored(
    slots: Seq<Slot>,
    login: Seq<char>,
    include_issue_comments: bool,
    pr: PullRequestView,
)
    requires
        !pr.merged,
    ensures
        step(
            slots,
            login,
            include_issue_comments,
            PayloadView::PullRequest { action: "closed"@, pull_request: pr },
        ) == slots,
        classified(
            login,
            include_issue_comments,
            seq![PayloadView::PullRequest { action: "closed"@, pull_request: pr }],
        ) == Seq::<EntryView>::empty(),
{
    let closing = PayloadView::PullRequest { action: "closed"@, pull_request: pr };
    lemma_gathered_few(login, include_issue_comments, closing, closing);
    assert(entries_of(Seq::<Slot>::empty()) =~= Seq::<EntryView>::empty());
}

/// A comment created on somebody else's pull request counts as a review of
/// it, whether or not comments on issues are asked for: it makes an entry
/// for a pull request with the action `reviewed`, never one for an issue.
pub proof fn lemma_comment_on_pull_request(
    slots: Seq<Slot>,
    login: Seq<char>,
    include_issue_comments: bool,
    issue: IssueView,
)
    requires
        about_pull_request(issue.url),
        issue.author_login != login,
    ensures
        step(
            slots,
            login,
            include_issue_comments,
            PayloadView::IssueComment { action: "created"@, issue },
        ) == noted(
            slots,
            issue.number,
            fresh(EntryKind::PullRequest, issue.title, issue.url, seq!["reviewed"@]),
        ),
        classified(
            login,
            include_issue_comments,
            seq![PayloadView::IssueComment { action: "created"@, issue }],
        ) == seq![fresh(EntryKind::PullRequest, issue.title, issue.url, seq!["reviewed"@])],
{
    let comment = PayloadView::IssueComment { action: "created"@, issue };
    let entry = fresh(EntryKind::PullRequest, issue.title, issue.url, seq!["reviewed"@]);
    lemma_gathered_few(login, include_issue_comments, comment, comment);
    assert(!holds(Seq::<Slot>::empty(), issue.number));
    let once = step(Seq::empty(), login, include_issue_comments, comment);
    assert(once == seq![Slot { number: issue.number, entry }]);
    assert(entries_of(once) =~= seq![entry]);
}

} // verus!
