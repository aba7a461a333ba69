//! Report entries: one aggregated line of the standup report.

use vstd::prelude::*;
use vstd::string::StringExecFns;
use crate::text::{clone_texts, join, joined, lemma_texts_push, optional_text, texts};

verus! {

/// What a report entry is about.
#[derive(Clone, Copy, Debug, PartialEq, Eq, Structural)]
pub enum EntryKind {
    PullRequest,
    Issue,
    Meeting,
}

impl EntryKind {
    /// The tag printed for the kind.
    pub open spec fn label(self) -> Seq<char> {
        match self {
            EntryKind::PullRequest => "PR"@,
            EntryKind::Issue => "Issue"@,
            EntryKind::Meeting => "Meeting"@,
        }
    }

    /// The tag printed for the kind.
    pub fn tag(self) -> (text: &'static str)
        ensures
            text@ == self.label(),
    {
        match self {
            EntryKind::PullRequest => "PR",
            EntryKind::Issue => "Issue",
            EntryKind::Meeting => "Meeting",
        }
    }
}

/// Whether an action label is another one than `label`.
pub open spec fn other_than(label: Seq<char>) -> spec_fn(Seq<char>) -> bool {
    |a: Seq<char>| a != label
}

/// Taking a label out of a list leaves the other labels in their order: it
/// neither brings the label back nor makes a label occur twice.
pub proof fn lemma_without_label(actions: Seq<Seq<char>>, label: Seq<char>)
    ensures
        !actions.filter(other_than(label)).contains(label),
        actions.no_duplicates() ==> actions.filter(other_than(label)).no_duplicates(),
        forall|a: Seq<char>|
            a != label ==> (#[trigger] actions.filter(other_than(label)).contains(a)
                <==> actions.contains(a)),
        !actions.contains(label) ==> actions.filter(other_than(label)) == actions,
    decreases actions.len(),
{
    reveal(Seq::filter);
    let kept = actions.filter(other_than(label));
    if actions.len() > 0 {
        let front = actions.drop_last();
        let last = actions.last();
        lemma_without_label(front, label);
        let kept_front = front.filter(other_than(label));
        assert(actions =~= front.push(last));
        assert forall|a: Seq<char>| a != label implies (#[trigger] kept.contains(a)
            <==> actions.contains(a)) by {
            if actions.contains(a) {
                let i = choose|i: int| 0 <= i < actions.len() && actions[i] == a;
                if i < front.len() {
                    assert(front[i] == a);
                    assert(front.contains(a));
                    assert(kept_front.contains(a));
                    let j = choose|j: int| 0 <= j < kept_front.len() && kept_front[j] == a;
                    assert(kept[j] == a);
                } else {
                    assert(kept[kept.len() - 1] == a);
                }
            }
            if kept.contains(a) {
                let j = choose|j: int| 0 <= j < kept.len() && kept[j] == a;
                if j < kept_front.len() {
                    assert(kept_front[j] == a);
                    assert(kept_front.contains(a));
                    let i = choose|i: int| 0 <= i < front.len() && front[i] == a;
                    assert(actions[i] == a);
                } else {
                    assert(actions[actions.len() - 1] == a);
                }
            }
        }
        if actions.no_duplicates() {
            assert(front.no_duplicates());
            if last != label {
                assert(!front.contains(last)) by {
                    if front.contains(last) {
                        let i = choose|i: int| 0 <= i < front.len() && front[i] == last;
                        assert(actions[i] == actions[actions.len() - 1]);
                    }
                }
                assert(!kept_front.contains(last));
            }
        }
        if !actions.contains(label) {
            assert(!front.contains(label)) by {
                if front.contains(label) {
                    let i = choose|i: int| 0 <= i < front.len() && front[i] == label;
                    assert(actions[i] == label);
                }
            }
            assert(last != label) by {
                assert(actions[actions.len() - 1] == last);
            }
            assert(kept =~= actions);
        }
    } else {
        assert(kept =~= actions);
    }
}

/// One line of the report: a pull request, an issue or a meeting, with the
/// actions recorded for it in the order in which they were first seen.
pub struct Entry {
    pub kind: EntryKind,
    pub title: String,
    pub url: Option<String>,
    pub actions: Vec<String>,
}

/// The value of an [`Entry`].
pub struct EntryView {
    pub kind: EntryKind,
    pub title: Seq<char>,
    pub url: Option<Seq<char>>,
    pub actions: Seq<Seq<char>>,
}

impl View for Entry {
    type V = EntryView;

    open spec fn view(&self) -> EntryView {
        EntryView {
            kind: self.kind,
            title: self.title@,
            url: optional_text(self.url),
            actions: texts(self.actions@),
        }
    }
}

impl Clone for Entry {
    fn clone(&self) -> (copy: Entry)
        ensures
            copy@ == self@,
    {
        Entry {
            kind: self.kind,
            title: self.title.clone(),
            url: match &self.url {
                Some(url) => Some(url.clone()),
                None => None,
            },
            actions: clone_texts(&self.actions),
        }
    }
}

/// The values of a sequence of entries.
pub open spec fn entry_views(v: Seq<Entry>) -> Seq<EntryView> {
    v.map_values(|e: Entry| e@)
}

impl EntryView {
    /// No action label occurs twice.
    pub open spec fn wf(self) -> bool {
        self.actions.no_duplicates()
    }

    /// The entry with `label` appended, unless it is already recorded.
    pub open spec fn with_action(self, label: Seq<char>) -> EntryView {
        if self.actions.contains(label) {
            self
        } else {
            EntryView { actions: self.actions.push(label), ..self }
        }
    }

    /// The line that stands for the entry in a report: the kind in square
    /// brackets, the actions in round brackets and separated by commas, the
    /// title and the web address. An entry without actions has no round
    /// brackets, and one without an address ends with the blank after the
    /// title.
    pub open spec fn rendered(self) -> Seq<char> {
        "["@ + self.kind.label() + "] "@ + (if self.actions.len() > 0 {
            "("@ + joined(self.actions, ", "@) + ") "@
        } else {
            Seq::empty()
        }) + self.title + " "@ + (match self.url {
            Some(url) => url,
            None => Seq::empty(),
        })
    }

    /// The entry with every occurrence of `label` taken out.
    pub open spec fn without_action(self, label: Seq<char>) -> EntryView {
        EntryView { actions: self.actions.filter(other_than(label)), ..self }
    }
}

impl Entry {
    /// No action label occurs twice.
    pub open spec fn wf(&self) -> bool {
        self@.wf()
    }

    /// An entry without actions.
    pub fn new(kind: EntryKind, title: String, url: Option<String>) -> (entry: Entry)
        ensures
            entry@ == (EntryView {
                kind,
                title: title@,
                url: optional_text(url),
                actions: Seq::empty(),
            }),
            entry.wf(),
    {
        let entry = Entry { kind, title, url, actions: Vec::new() };
        assert(entry@.actions =~= Seq::empty());
        entry
    }

    /// Whether `label` is among the recorded actions.
    pub fn has_action(&self, label: &str) -> (found: bool)
        ensures
            found == self@.actions.contains(label@),
    {
        let wanted = label.to_owned();
        let mut i: usize = 0;
        while i < self.actions.len()
            invariant
                i <= self.actions.len(),
                wanted@ == label@,
                forall|j: int| 0 <= j < i ==> self@.actions[j] != label@,
            decreases self.actions.len() - i,
        {
            if self.actions[i] == wanted {
                assert(self@.actions[i as int] == label@);
                return true;
            }
            i += 1;
        }
        false
    }

    /// The line that stands for the entry in a report.
    pub fn render(&self) -> (line: String)
        ensures
            line@ == self@.rendered(),
    {
        let mut line = "[".to_owned();
        line.append(self.kind.tag());
        line.append("] ");
        if self.actions.len() > 0 {
            line.append("(");
            let actions = join(&self.actions, ", ");
            line.append(actions.as_str());
            line.append(") ");
        }
        line.append(self.title.as_str());
        line.append(" ");
        match &self.url {
            Some(url) => {
                line.append(url.as_str());
            },
            None => {},
        }
        assert(line@ =~= self@.rendered());
        line
    }

    /// Records `label` behind the actions already there, unless it is one of
    /// them.
    pub fn add_action(&mut self, label: String)
        ensures
            final(self)@ == old(self)@.with_action(label@),
            old(self).wf() ==> final(self).wf(),
    {
        if !self.has_action(label.as_str()) {
            proof {
                lemma_texts_push(self.actions@, label);
            }
            self.actions.push(label);
        }
    }

    /// Takes `label` out of the recorded actions; the others keep their order.
    pub fn drop_action(&mut self, label: &str)
        ensures
            final(self)@ == old(self)@.without_action(label@),
            old(self).wf() ==> final(self).wf(),
    {
        let wanted = label.to_owned();
        let mut kept: Vec<String> = Vec::new();
        let mut i: usize = 0;
        while i < self.actions.len()
            invariant
                i <= self.actions.len(),
                wanted@ == label@,
                texts(kept@) == texts(self.actions@).take(i as int).filter(other_than(label@)),
            decreases self.actions.len() - i,
        {
            proof {
                reveal(Seq::filter);
                let all = texts(self.actions@);
                assert(all.take(i + 1).drop_last() =~= all.take(i as int));
                assert(all.take(i + 1).last() == self.actions@[i as int]@);
            }
            if !(self.actions[i] == wanted) {
                let label_copy = self.actions[i].clone();
                proof {
                    lemma_texts_push(kept@, label_copy);
                }
                kept.push(label_copy);
            }
            i += 1;
        }
        proof {
            let all = texts(self.actions@);
            assert(all.take(self.actions.len() as int) =~= all);
            lemma_without_label(all, label@);
        }
        self.actions = kept;
    }
}

} // verus!
