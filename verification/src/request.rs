//! The requests that the pipeline makes of the service, as text.

use vstd::prelude::*;
use vstd::string::StringExecFns;

verus! {

/// The address of the service.
pub open spec fn api_root() -> Seq<char> {
    "https://api.github.com"@
}

/// The character for a digit.
pub open spec fn digit(d: nat) -> char {
    if d == 0 {
        '0'
    } else if d == 1 {
        '1'
    } else if d == 2 {
        '2'
    } else if d == 3 {
        '3'
    } else if d == 4 {
        '4'
    } else if d == 5 {
        '5'
    } else if d == 6 {
        '6'
    } else if d == 7 {
        '7'
    } else if d == 8 {
        '8'
    } else {
        '9'
    }
}

/// A number in decimal digits, without sign and without leading zeros.
pub open spec fn decimal(n: nat) -> Seq<char>
    decreases n,
{
    if n < 10 {
        seq![digit(n)]
    } else {
        decimal(n / 10).push(digit(n % 10))
    }
}

fn digit_text(d: u64) -> (text: &'static str)
    requires
        d < 10,
    ensures
        text@ == seq![digit(d as nat)],
{
    proof {
        reveal_strlit("0");
        reveal_strlit("1");
        reveal_strlit("2");
        reveal_strlit("3");
        reveal_strlit("4");
        reveal_strlit("5");
        reveal_strlit("6");
        reveal_strlit("7");
        reveal_strlit("8");
        reveal_strlit("9");
    }
    let text = if d == 0 {
        "0"
    } else if d == 1 {
        "1"
    } else if d == 2 {
        "2"
    } else if d == 3 {
        "3"
    } else if d == 4 {
        "4"
    } else if d == 5 {
        "5"
    } else if d == 6 {
        "6"
    } else if d == 7 {
        "7"
    } else if d == 8 {
        "8"
    } else {
        "9"
    };
    assert(text@ =~= seq![digit(d as nat)]);
    text
}

/// Writes a number in decimal digits.
pub fn to_decimal(n: u64) -> (text: String)
    ensures
        text@ == decimal(n as nat),
    decreases n,
{
    if n < 10 {
        digit_text(n).to_owned()
    } else {
        let mut text = to_decimal(n / 10);
        text.append(digit_text(n % 10));
        assert(text@ =~= decimal(n as nat));
        text
    }
}

/// The request for a page of a user's events.
pub open spec fn events_address(user: Seq<char>, page: nat) -> Seq<char> {
    api_root() + "/users/"@ + user + "/events?page="@ + decimal(page) + "&per_page=100"@
}

/// The request for what is known of a repository.
pub open spec fn repository_address(full_name: Seq<char>) -> Seq<char> {
    api_root() + "/repos/"@ + full_name
}

/// The request for the pull requests of a repository, open and closed, that
/// have the given head.
pub open spec fn pulls_address(full_name: Seq<char>, head: Seq<char>) -> Seq<char> {
    api_root() + "/repos/"@ + full_name + "/pulls?state=all&head="@ + head
}

/// The value of the header by which a request shows its token.
pub open spec fn authorization(token: Seq<char>) -> Seq<char> {
    "token "@ + token
}

/// The address to ask for the page `page` of the events of `user`, a hundred
/// events to the page.
pub fn events_url(user: &str, page: u64) -> (url: String)
    ensures
        url@ == events_address(user@, page as nat),
{
    let mut url = "https://api.github.com".to_owned();
    url.append("/users/");
    url.append(user);
    url.append("/events?page=");
    let number = to_decimal(page);
    url.append(number.as_str());
    url.append("&per_page=100");
    url
}

/// The address to ask for the repository `full_name`.
pub fn repository_url(full_name: &str) -> (url: String)
    ensures
        url@ == repository_address(full_name@),
{
    let mut url = "https://api.github.com".to_owned();
    url.append("/repos/");
    url.append(full_name);
    url
}

/// The address to ask for the pull requests of `full_name` with the head
/// `head`.
pub fn pulls_url(full_name: &str, head: &str) -> (url: String)
    ensures
        url@ == pulls_address(full_name@, head@),
{
    let mut url = "https://api.github.com".to_owned();
    url.append("/repos/");
    url.append(full_name);
    url.append("/pulls?state=all&head=");
    url.append(head);
    url
}

/// The value of the authorization header for `token`.
pub fn authorization_value(token: &str) -> (value: String)
    ensures
        value@ == authorization(token@),
{
    let mut value = "token ".to_owned();
    value.append(token);
    value
}

} // verus!
