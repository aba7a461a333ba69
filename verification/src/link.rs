//! The `Link` header by which the service announces further pages.
//!
//! The header's value is a list of items separated by commas. An item names
//! a target in angle brackets and, behind a semicolon, the relation that the
//! target has to the page at hand:
//!
//! ```text
//! <https://api.github.com/user/1/events?page=2>; rel="next", <...>; rel="last"
//! ```

use vstd::prelude::*;
use vstd::string::StrSliceExecFns;
use crate::text::{
    chars_of, optional_text, same_text, split, split_text, texts, trim_bounds, trimmed,
};

verus! {

/// Where `sep` first occurs in `s`; the length of `s` if it does not occur.
pub open spec fn first_index(s: Seq<char>, sep: char) -> int
    decreases s.len(),
{
    if s.len() == 0 || s.first() == sep {
        0
    } else {
        1 + first_index(s.drop_first(), sep)
    }
}

/// The relation that marks the item of the following page.
pub open spec fn next_relation() -> Seq<char> {
    "rel=\"next\""@
}

/// `s` without its first and its last character, if it has both.
pub open spec fn unwrapped(s: Seq<char>) -> Option<Seq<char>> {
    if s.len() >= 2 {
        Some(s.subrange(1, s.len() - 1))
    } else {
        None
    }
}

/// The target of an item, if the item announces the following page: the
/// item has a semicolon, what follows the first semicolon is, white space
/// around it apart, the relation `rel="next"`, and what stands before the
/// semicolon is, white space apart, a target between two characters.
pub open spec fn next_target(item: Seq<char>) -> Option<Seq<char>> {
    let at = first_index(item, ';');
    if at < item.len() && trimmed(item.skip(at + 1)) == next_relation() {
        unwrapped(trimmed(item.take(at)))
    } else {
        None
    }
}

/// The target of the first of the items that announces the following page.
pub open spec fn first_next(items: Seq<Seq<char>>) -> Option<Seq<char>>
    decreases items.len(),
{
    if items.len() == 0 {
        None
    } else {
        match next_target(items.first()) {
            Some(target) => Some(target),
            None => first_next(items.drop_first()),
        }
    }
}

/// The address of the following page that a header value announces.
pub open spec fn next_link(value: Seq<char>) -> Option<Seq<char>> {
    first_next(split(value, ','))
}

/// What a `Link` header says of the pages around the one at hand.
pub struct LinkHeader {
    /// The address of the following page.
    pub next: Option<String>,
}

/// What `first_index` finds: the place of the first `sep`.
proof fn lemma_first_index(s: Seq<char>, sep: char, at: int)
    requires
        0 <= at <= s.len(),
        forall|j: int| 0 <= j < at ==> s[j] != sep,
        at < s.len() ==> s[at] == sep,
    ensures
        first_index(s, sep) == at,
    decreases s.len(),
{
    if s.len() > 0 && at > 0 {
        let rest = s.drop_first();
        assert(s.first() == s[0]);
        assert forall|j: int| 0 <= j < at - 1 implies rest[j] != sep by {
            assert(rest[j] == s[j + 1]);
        }
        if at < s.len() {
            assert(rest[at - 1] == s[at]);
        }
        lemma_first_index(rest, sep, at - 1);
    }
}

/// The target of an item that announces the following page.
pub fn next_target_of(item: &str) -> (target: Option<String>)
    ensures
        optional_text(target) == next_target(item@),
{
    let chars = chars_of(item);
    let n = chars.len();
    let mut at: usize = 0;
    while at < n && chars[at] != ';'
        invariant
            at <= n,
            n == chars@.len(),
            forall|j: int| 0 <= j < at ==> chars@[j] != ';',
        decreases n - at,
    {
        at += 1;
    }
    proof {
        lemma_first_index(item@, ';', at as int);
    }
    if at >= n {
        return None;
    }
    let (from, to) = trim_bounds(&chars, at + 1, n);
    proof {
        assert(item@.skip(at + 1) =~= item@.subrange(at + 1, n as int));
    }
    if !same_text(item.substring_char(from, to), "rel=\"next\"") {
        return None;
    }
    let (start, end) = trim_bounds(&chars, 0, at);
    proof {
        assert(item@.take(at as int) =~= item@.subrange(0, at as int));
    }
    if end - start < 2 {
        return None;
    }
    let target = item.substring_char(start + 1, end - 1).to_owned();
    proof {
        let inner = item@.subrange(start as int, end as int);
        assert(inner.subrange(1, inner.len() - 1) =~= item@.subrange(start + 1, end - 1));
    }
    Some(target)
}

impl LinkHeader {
    /// Reads the value of a `Link` header.
    ///
    /// `next` is the target of the first item that announces the following
    /// page. An item that is not of that form is passed over.
    pub fn from_str(value: &str) -> (header: LinkHeader)
        ensures
            optional_text(header.next) == next_link(value@),
    {
        let items = split_text(value, ',');
        let ghost all = texts(items@);
        let mut i: usize = 0;
        assert(all.skip(0) =~= all);
        while i < items.len()
            invariant
                i <= items.len(),
                all == texts(items@),
                all == split(value@, ','),
                first_next(all) == first_next(all.skip(i as int)),
            decreases items.len() - i,
        {
            proof {
                let rest = all.skip(i as int);
                assert(rest.first() == items@[i as int]@);
                assert(rest.drop_first() =~= all.skip(i + 1));
            }
            match next_target_of(items[i].as_str()) {
                Some(target) => {
                    return LinkHeader { next: Some(target) };
                },
                None => {},
            }
            i += 1;
        }
        LinkHeader { next: None }
    }
}

/// Whether an answer announces a following page: it has a `Link` header, and
/// the header has an item for the following page.
pub fn has_next_page(link: Option<&str>) -> (more: bool)
    ensures
        more == (link matches Some(value) && next_link(value@) is Some),
{
    match link {
        Some(value) => LinkHeader::from_str(value).next.is_some(),
        None => false,
    }
}

} // verus!
