//! Text as sequences of characters: the few operations that the pipeline
//! needs on names, references and web addresses.

use vstd::prelude::*;
use vstd::std_specs::iter::IteratorSpec;
use vstd::string::StrSliceExecFns;
use vstd::string::StringExecFns;

verus! {

/// The contents of a sequence of strings.
pub open spec fn texts(v: Seq<String>) -> Seq<Seq<char>> {
    v.map_values(|s: String| s@)
}

/// The contents of a list that grew by one string.
pub proof fn lemma_texts_push(v: Seq<String>, s: String)
    ensures
        texts(v.push(s)) == texts(v).push(s@),
{
    assert(texts(v.push(s)) =~= texts(v).push(s@));
}

/// A copy of a list of strings.
pub fn clone_texts(list: &Vec<String>) -> (copy: Vec<String>)
    ensures
        copy@ == list@,
{
    let mut copy: Vec<String> = Vec::new();
    let mut i: usize = 0;
    while i < list.len()
        invariant
            i <= list.len(),
            copy@ == list@.take(i as int),
        decreases list.len() - i,
    {
        copy.push(list[i].clone());
        assert(list@.take(i + 1) =~= list@.take(i as int).push(list@[i as int]));
        i += 1;
    }
    assert(list@.take(list.len() as int) =~= list@);
    copy
}

/// The texts of `parts` in a row, with `sep` between each two neighbours.
pub open spec fn joined(parts: Seq<Seq<char>>, sep: Seq<char>) -> Seq<char>
    decreases parts.len(),
{
    if parts.len() == 0 {
        Seq::empty()
    } else if parts.len() == 1 {
        parts[0]
    } else {
        joined(parts.drop_last(), sep) + sep + parts.last()
    }
}

/// The strings of `parts` in a row, with `sep` between each two neighbours.
pub fn join(parts: &Vec<String>, sep: &str) -> (text: String)
    ensures
        text@ == joined(texts(parts@), sep@),
{
    let mut text = String::new();
    let ghost all = texts(parts@);
    let mut i: usize = 0;
    while i < parts.len()
        invariant
            i <= parts.len(),
            all == texts(parts@),
            text@ == joined(all.take(i as int), sep@),
        decreases parts.len() - i,
    {
        proof {
            assert(all.take(i + 1).drop_last() =~= all.take(i as int));
            assert(all.take(i + 1).last() == parts@[i as int]@);
            if i == 0 {
                assert(text@ + parts@[0]@ =~= parts@[0]@);
            }
        }
        if i > 0 {
            text.append(sep);
        }
        text.append(parts[i].as_str());
        i += 1;
    }
    assert(all.take(parts.len() as int) =~= all);
    text
}

/// The contents of an optional string.
pub open spec fn optional_text(s: Option<String>) -> Option<Seq<char>> {
    match s {
        Some(t) => Some(t@),
        None => None,
    }
}

/// The characters of `s`, in order.
pub fn chars_of(s: &str) -> (chars: Vec<char>)
    ensures
        chars@ == s@,
{
    let mut chars: Vec<char> = Vec::new();
    let mut rest = s.chars();
    loop
        invariant
            rest.obeys_prophetic_iter_laws(),
            rest.decrease() is Some,
            chars@ + rest.remaining() == s@,
        ensures
            chars@ == s@,
        decreases rest.decrease()->0,
    {
        broadcast use vstd::string::group_string_axioms;
        match rest.next() {
            Some(c) => {
                chars.push(c);
            },
            None => {
                assert(chars@ + rest.remaining() =~= chars@);
                break;
            },
        }
    }
    chars
}

/// Whether two texts hold the same characters.
pub fn same_text(a: &str, b: &str) -> (same: bool)
    ensures
        same == (a@ == b@),
{
    let left = a.to_owned();
    let right = b.to_owned();
    left == right
}

/// The pieces of `s` between the occurrences of `sep`, in order. There is
/// always at least one piece, and a piece may be empty: a text with `k`
/// separators has `k + 1` pieces.
pub open spec fn split(s: Seq<char>, sep: char) -> Seq<Seq<char>>
    decreases s.len(),
{
    if s.len() == 0 {
        seq![Seq::empty()]
    } else {
        let before = split(s.drop_last(), sep);
        if s.last() == sep {
            before.push(Seq::empty())
        } else {
            before.update(before.len() - 1, before.last().push(s.last()))
        }
    }
}

/// A text always splits into at least one piece.
pub proof fn lemma_split_nonempty(s: Seq<char>, sep: char)
    ensures
        split(s, sep).len() >= 1,
    decreases s.len(),
{
    if s.len() > 0 {
        lemma_split_nonempty(s.drop_last(), sep);
    }
}

/// The pieces of a text, put in a row again with the separator between them,
/// are the text.
pub proof fn lemma_split_joined(s: Seq<char>, sep: char)
    ensures
        joined(split(s, sep), seq![sep]) == s,
    decreases s.len(),
{
    if s.len() == 0 {
        assert(joined(seq![Seq::<char>::empty()], seq![sep]) =~= s);
    } else {
        let front = s.drop_last();
        let before = split(front, sep);
        lemma_split_nonempty(front, sep);
        lemma_split_joined(front, sep);
        let after = split(s, sep);
        if s.last() == sep {
            assert(after.drop_last() =~= before);
            assert(joined(after, seq![sep]) =~= front + seq![sep] + Seq::<char>::empty());
            assert(front + seq![sep] + Seq::<char>::empty() =~= s);
        } else if before.len() == 1 {
            assert(joined(after, seq![sep]) =~= before[0].push(s.last()));
            assert(before[0].push(s.last()) =~= s);
        } else {
            assert(after.drop_last() =~= before.drop_last());
            assert(joined(after, seq![sep]) =~= (joined(before.drop_last(), seq![sep]) + seq![
                sep,
            ] + before.last()).push(s.last()));
            assert(front.push(s.last()) =~= s);
        }
    }
}

/// No piece of a split holds the separator.
pub proof fn lemma_split_pieces(s: Seq<char>, sep: char, k: int)
    requires
        0 <= k < split(s, sep).len(),
    ensures
        !split(s, sep)[k].contains(sep),
    decreases s.len(),
{
    if s.len() > 0 {
        let before = split(s.drop_last(), sep);
        lemma_split_nonempty(s.drop_last(), sep);
        if s.last() == sep {
            if k < before.len() {
                lemma_split_pieces(s.drop_last(), sep, k);
            }
        } else {
            if k < before.len() - 1 {
                lemma_split_pieces(s.drop_last(), sep, k);
            } else {
                lemma_split_pieces(s.drop_last(), sep, before.len() - 1);
                let last = before.last();
                assert forall|j: int| 0 <= j < last.push(s.last()).len() implies last.push(
                    s.last(),
                )[j] != sep by {
                    if j < last.len() {
                        assert(last.contains(last[j]));
                    }
                }
            }
        }
    }
}

/// Splits `s` at every occurrence of `sep`.
pub fn split_text(s: &str, sep: char) -> (pieces: Vec<String>)
    ensures
        texts(pieces@) == split(s@, sep),
{
    let chars = chars_of(s);
    let n = chars.len();
    let mut pieces: Vec<String> = Vec::new();
    let mut start: usize = 0;
    let mut i: usize = 0;
    while i < n
        invariant
            chars@ == s@,
            n == chars@.len(),
            start <= i <= n,
            split(s@.take(i as int), sep).len() == pieces@.len() + 1,
            texts(pieces@) == split(s@.take(i as int), sep).drop_last(),
            split(s@.take(i as int), sep).last() == s@.subrange(start as int, i as int),
        decreases n - i,
    {
        let ghost prefix = s@.take(i as int);
        let ghost longer = s@.take(i + 1);
        assert(longer.drop_last() == prefix);
        assert(longer.last() == s@[i as int]);
        if chars[i] == sep {
            let piece = s.substring_char(start, i).to_owned();
            proof {
                lemma_texts_push(pieces@, piece);
                let before = split(prefix, sep);
                assert(before =~= before.drop_last().push(before.last()));
                assert(split(longer, sep).drop_last() =~= before);
            }
            pieces.push(piece);
            start = i + 1;
            assert(s@.subrange(start as int, i + 1) =~= Seq::<char>::empty());
        } else {
            assert(texts(pieces@) =~= split(longer, sep).drop_last());
            assert(s@.subrange(start as int, i + 1) =~= s@.subrange(start as int, i as int).push(
                s@[i as int],
            ));
        }
        i += 1;
    }
    assert(s@.take(n as int) == s@);
    let piece = s.substring_char(start, n).to_owned();
    proof {
        lemma_texts_push(pieces@, piece);
        let whole = split(s@, sep);
        assert(whole =~= whole.drop_last().push(whole.last()));
    }
    pieces.push(piece);
    pieces
}

/// The piece of `s` at position `index` among those that `sep` separates,
/// if there are that many.
pub open spec fn segment(s: Seq<char>, sep: char, index: int) -> Option<Seq<char>> {
    let pieces = split(s, sep);
    if 0 <= index < pieces.len() {
        Some(pieces[index])
    } else {
        None
    }
}

/// The piece of `s` at position `index` among those that `sep` separates.
pub fn segment_of(s: &str, sep: char, index: usize) -> (piece: Option<String>)
    ensures
        crate::text::optional_text(piece) == segment(s@, sep, index as int),
{
    let pieces = split_text(s, sep);
    if index < pieces.len() {
        let piece = pieces[index].clone();
        assert(texts(pieces@)[index as int] == pieces@[index as int]@);
        Some(piece)
    } else {
        None
    }
}

/// White space, as Unicode defines it.
pub open spec fn is_space(c: char) -> bool {
    let code = c as u32;
    ||| 0x09 <= code <= 0x0D
    ||| code == 0x20
    ||| code == 0x85
    ||| code == 0xA0
    ||| code == 0x1680
    ||| 0x2000 <= code <= 0x200A
    ||| code == 0x2028
    ||| code == 0x2029
    ||| code == 0x202F
    ||| code == 0x205F
    ||| code == 0x3000
}

/// Whether `c` is white space.
pub fn is_space_char(c: char) -> (space: bool)
    ensures
        space == is_space(c),
{
    let code = c as u32;
    (0x09 <= code && code <= 0x0D) || code == 0x20 || code == 0x85 || code == 0xA0 || code
        == 0x1680 || (0x2000 <= code && code <= 0x200A) || code == 0x2028 || code == 0x2029
        || code == 0x202F || code == 0x205F || code == 0x3000
}

/// `s` without the white space it starts with.
pub open spec fn trim_start(s: Seq<char>) -> Seq<char>
    decreases s.len(),
{
    if s.len() > 0 && is_space(s.first()) {
        trim_start(s.drop_first())
    } else {
        s
    }
}

/// `s` without the white space it ends with.
pub open spec fn trim_end(s: Seq<char>) -> Seq<char>
    decreases s.len(),
{
    if s.len() > 0 && is_space(s.last()) {
        trim_end(s.drop_last())
    } else {
        s
    }
}

/// `s` without the white space around it.
pub open spec fn trimmed(s: Seq<char>) -> Seq<char> {
    trim_end(trim_start(s))
}

/// The bounds of what is left of the characters from `from` up to `to` when
/// the white space around them is taken off.
pub(crate) fn trim_bounds(chars: &Vec<char>, from: usize, to: usize) -> (bounds: (usize, usize))
    requires
        from <= to <= chars@.len(),
    ensures
        from <= bounds.0 <= bounds.1 <= to,
        chars@.subrange(bounds.0 as int, bounds.1 as int) == trimmed(
            chars@.subrange(from as int, to as int),
        ),
{
    let ghost s = chars@;
    let mut a = from;
    while a < to && is_space_char(chars[a])
        invariant
            from <= a <= to <= chars@.len(),
            s == chars@,
            trim_start(s.subrange(from as int, to as int)) == trim_start(
                s.subrange(a as int, to as int),
            ),
        decreases to - a,
    {
        proof {
            let here = s.subrange(a as int, to as int);
            assert(here.first() == s[a as int]);
            assert(here.drop_first() =~= s.subrange(a + 1, to as int));
        }
        a += 1;
    }
    proof {
        let here = s.subrange(a as int, to as int);
        if a < to {
            assert(here.first() == s[a as int]);
        }
        assert(trim_start(here) == here);
    }
    let mut b = to;
    while b > a && is_space_char(chars[b - 1])
        invariant
            a <= b <= to <= chars@.len(),
            s == chars@,
            trim_end(s.subrange(a as int, to as int)) == trim_end(
                s.subrange(a as int, b as int),
            ),
        decreases b - a,
    {
        proof {
            let here = s.subrange(a as int, b as int);
            assert(here.last() == s[b - 1]);
            assert(here.drop_last() =~= s.subrange(a as int, b - 1));
        }
        b -= 1;
    }
    proof {
        let here = s.subrange(a as int, b as int);
        if b > a {
            assert(here.last() == s[b - 1]);
        }
        assert(trim_end(here) == here);
    }
    (a, b)
}

/// `s` without the white space around it.
pub fn trim_text(s: &str) -> (inner: String)
    ensures
        inner@ == trimmed(s@),
{
    let chars = chars_of(s);
    let (from, to) = trim_bounds(&chars, 0, chars.len());
    assert(s@.subrange(0, s@.len() as int) =~= s@);
    s.substring_char(from, to).to_owned()
}

/// The words of `s`: the stretches of characters that are not white space,
/// in their order.
pub open spec fn words(s: Seq<char>) -> Seq<Seq<char>>
    decreases s.len(),
{
    if s.len() == 0 {
        Seq::empty()
    } else {
        let before = words(s.drop_last());
        if is_space(s.last()) {
            before
        } else if s.len() >= 2 && !is_space(s[s.len() - 2]) {
            before.update(before.len() - 1, before.last().push(s.last()))
        } else {
            before.push(seq![s.last()])
        }
    }
}

/// What is left of a text when the white space around it is taken off
/// neither starts nor ends with white space.
pub proof fn lemma_trimmed_edges(s: Seq<char>)
    ensures
        trimmed(s).len() > 0 ==> !is_space(trimmed(s).first()) && !is_space(trimmed(s).last()),
{
    lemma_trim_start_edge(s);
    lemma_trim_end_edge(trim_start(s));
}

proof fn lemma_trim_start_edge(s: Seq<char>)
    ensures
        trim_start(s).len() > 0 ==> !is_space(trim_start(s).first()),
    decreases s.len(),
{
    if s.len() > 0 && is_space(s.first()) {
        lemma_trim_start_edge(s.drop_first());
    }
}

proof fn lemma_trim_end_edge(s: Seq<char>)
    ensures
        trim_end(s).len() > 0 ==> !is_space(trim_end(s).last()),
        s.len() > 0 && !is_space(s.first()) ==> trim_end(s).len() > 0 && trim_end(s).first()
            == s.first(),
    decreases s.len(),
{
    if s.len() > 0 && is_space(s.last()) {
        lemma_trim_end_edge(s.drop_last());
        if !is_space(s.first()) {
            assert(s.len() > 1);
            assert(s.drop_last().first() == s.first());
        }
    }
}

/// A word has at least one character, and none that is white space.
pub proof fn lemma_words_solid(s: Seq<char>, k: int)
    requires
        0 <= k < words(s).len(),
    ensures
        words(s)[k].len() > 0,
        forall|j: int| 0 <= j < words(s)[k].len() ==> !is_space(#[trigger] words(s)[k][j]),
    decreases s.len(),
{
    if s.len() > 0 {
        let front = s.drop_last();
        let before = words(front);
        if is_space(s.last()) {
            lemma_words_solid(front, k);
        } else if s.len() >= 2 && !is_space(s[s.len() - 2]) {
            assert(front.last() == s[s.len() - 2]);
            lemma_words_nonempty(front);
            if k < before.len() - 1 {
                lemma_words_solid(front, k);
            } else {
                lemma_words_solid(front, before.len() - 1);
            }
        } else {
            if k < before.len() {
                lemma_words_solid(front, k);
            }
        }
    }
}

/// A text that ends in a character that is not white space ends in a word.
pub proof fn lemma_words_nonempty(s: Seq<char>)
    requires
        s.len() > 0,
        !is_space(s.last()),
    ensures
        words(s).len() >= 1,
    decreases s.len(),
{
    if s.len() >= 2 && !is_space(s[s.len() - 2]) {
        assert(s.drop_last().last() == s[s.len() - 2]);
        lemma_words_nonempty(s.drop_last());
    }
}

/// The words of `s`.
pub fn words_of(s: &str) -> (found: Vec<String>)
    ensures
        texts(found@) == words(s@),
{
    let chars = chars_of(s);
    let n = chars.len();
    let mut found: Vec<String> = Vec::new();
    let mut start: usize = 0;
    let mut i: usize = 0;
    proof {
        assert(s@.take(0) =~= Seq::<char>::empty());
        assert(texts(found@) =~= Seq::<Seq<char>>::empty());
    }
    while i < n
        invariant
            chars@ == s@,
            n == chars@.len(),
            start <= i <= n,
            // outside a word, `start` is where the scan stands
            (i == 0 || is_space(s@[i - 1])) ==> start == i && texts(found@) == words(
                s@.take(i as int),
            ),
            // inside a word, the word began at `start` and is not yet taken
            (i > 0 && !is_space(s@[i - 1])) ==> start < i && words(s@.take(i as int)).len()
                == found@.len() + 1 && texts(found@) == words(s@.take(i as int)).drop_last()
                && words(s@.take(i as int)).last() == s@.subrange(start as int, i as int),
        decreases n - i,
    {
        let ghost prefix = s@.take(i as int);
        let ghost longer = s@.take(i + 1);
        proof {
            assert(longer.drop_last() =~= prefix);
            assert(longer.last() == s@[i as int]);
            if i > 0 {
                assert(longer[longer.len() - 2] == s@[i - 1]);
            }
        }
        let in_word = i > start;
        if is_space_char(chars[i]) {
            if in_word {
                let word = s.substring_char(start, i).to_owned();
                proof {
                    lemma_texts_push(found@, word);
                    let before = words(prefix);
                    assert(before =~= before.drop_last().push(before.last()));
                }
                found.push(word);
            }
            start = i + 1;
        } else {
            proof {
                if in_word {
                    assert(texts(found@) =~= words(longer).drop_last());
                    assert(s@.subrange(start as int, i + 1) =~= s@.subrange(
                        start as int,
                        i as int,
                    ).push(s@[i as int]));
                } else {
                    assert(words(longer).drop_last() =~= words(prefix));
                    assert(s@.subrange(start as int, i + 1) =~= seq![s@[i as int]]);
                }
            }
        }
        i += 1;
    }
    assert(s@.take(n as int) == s@);
    if n > start {
        let word = s.substring_char(start, n).to_owned();
        proof {
            lemma_texts_push(found@, word);
            let whole = words(s@);
            assert(whole =~= whole.drop_last().push(whole.last()));
        }
        found.push(word);
    }
    found
}

} // verus!
