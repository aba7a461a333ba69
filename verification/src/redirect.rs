//! The redirect by which an authorization comes back.
//!
//! After the user has granted access, the browser is sent to a local
//! address that carries the authorization code in its query. What arrives is
//! the first line of an HTTP request, such as
//!
//! ```text
//! GET /?state=xyz&code=4%2FabcDEF HTTP/1.1
//! ```

use vstd::prelude::*;
use vstd::string::StringExecFns;
use crate::request::{decimal, to_decimal};
use crate::text::{optional_text, same_text, texts, words, words_of};

verus! {

/// A name of a query and the value given to it.
pub struct QueryPair {
    pub name: String,
    pub value: String,
}

/// The value of a [`QueryPair`].
pub struct QueryPairView {
    pub name: Seq<char>,
    pub value: Seq<char>,
}

impl View for QueryPair {
    type V = QueryPairView;

    open spec fn view(&self) -> QueryPairView {
        QueryPairView { name: self.name@, value: self.value@ }
    }
}

/// The values of a sequence of pairs.
pub open spec fn pair_views(pairs: Seq<QueryPair>) -> Seq<QueryPairView> {
    pairs.map_values(|p: QueryPair| p@)
}

/// The pairs of names and values in the query of the address `address`, as
/// the url crate reads them, in the order of the query; `None` for a text
/// that the crate does not take for an absolute address.
pub uninterp spec fn query_of(address: Seq<char>) -> Option<Seq<QueryPairView>>;

/// Calls the url crate: `Url::parse` reads the address, and the pairs that
/// `Url::query_pairs` hands out are copied one by one. The pairs are a
/// function of the text alone; they are believed to be the ones that
/// `query_of` names.
#[verifier::external_body]
fn query_pairs(address: &str) -> (pairs: Option<Vec<QueryPair>>)
    ensures
        match pairs {
            Some(list) => query_of(address@) == Some(pair_views(list@)),
            None => query_of(address@) is None,
        },
{
    match url::Url::parse(address) {
        Ok(parsed) => {
            let mut pairs = Vec::new();
            for (name, value) in parsed.query_pairs() {
                pairs.push(QueryPair { name: name.into_owned(), value: value.into_owned() });
            }
            Some(pairs)
        },
        Err(_) => None,
    }
}

/// The value of the first pair called `name`.
pub open spec fn first_value(pairs: Seq<QueryPairView>, name: Seq<char>) -> Option<Seq<char>>
    decreases pairs.len(),
{
    if pairs.len() == 0 {
        None
    } else if pairs.first().name == name {
        Some(pairs.first().value)
    } else {
        first_value(pairs.drop_first(), name)
    }
}

/// The value of the first pair called `name`.
pub fn value_of(pairs: &Vec<QueryPair>, name: &str) -> (value: Option<String>)
    ensures
        optional_text(value) == first_value(pair_views(pairs@), name@),
{
    let ghost all = pair_views(pairs@);
    let mut i: usize = 0;
    assert(all.skip(0) =~= all);
    while i < pairs.len()
        invariant
            i <= pairs.len(),
            all == pair_views(pairs@),
            first_value(all, name@) == first_value(all.skip(i as int), name@),
        decreases pairs.len() - i,
    {
        proof {
            let rest = all.skip(i as int);
            assert(rest.first() == pairs@[i as int]@);
            assert(rest.drop_first() =~= all.skip(i + 1));
        }
        if same_text(pairs[i].name.as_str(), name) {
            return Some(pairs[i].value.clone());
        }
        i += 1;
    }
    None
}

/// The address that a request line asks for: its second word.
pub open spec fn requested(request_line: Seq<char>) -> Option<Seq<char>> {
    if words(request_line).len() > 1 {
        Some(words(request_line)[1])
    } else {
        None
    }
}

/// The local address under which the redirect arrives.
pub open spec fn local_address(path: Seq<char>) -> Seq<char> {
    "http://localhost"@ + path
}

/// The authorization code that a request line brings: the value called
/// `code` in the query of the address asked for.
pub open spec fn code_in(request_line: Seq<char>) -> Option<Seq<char>> {
    match requested(request_line) {
        Some(path) => match query_of(local_address(path)) {
            Some(pairs) => first_value(pairs, "code"@),
            None => None,
        },
        None => None,
    }
}

/// The authorization code that the first line of a request brings, if it
/// brings one.
pub fn authorization_code(request_line: &str) -> (code: Option<String>)
    ensures
        optional_text(code) == code_in(request_line@),
{
    let parts = words_of(request_line);
    if parts.len() < 2 {
        return None;
    }
    assert(texts(parts@)[1] == parts@[1]@);
    let mut address = "http://localhost".to_owned();
    address.append(parts[1].as_str());
    match query_pairs(address.as_str()) {
        Some(pairs) => value_of(&pairs, "code"),
        None => None,
    }
}

/// What the browser is answered: a page with `message` and nothing else.
pub open spec fn answer_text(message: Seq<char>, length: nat) -> Seq<char> {
    "HTTP/1.1 200 OK\r\ncontent-length: "@ + decimal(length) + "\r\n\r\n"@ + message
}

/// The answer to the browser: a page with `message`, announced with the
/// number of bytes that the message takes.
pub fn answer_page(message: &str) -> (page: String)
    ensures
        page@ == answer_text(message@, message.len() as nat),
{
    let mut page = "HTTP/1.1 200 OK\r\ncontent-length: ".to_owned();
    let length = to_decimal(message.len() as u64);
    page.append(length.as_str());
    page.append("\r\n\r\n");
    page.append(message);
    page
}

} // verus!
