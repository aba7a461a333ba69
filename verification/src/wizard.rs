//! The decisions of the dialogue that sets a configuration up.

use vstd::prelude::*;
use vstd::string::StringExecFns;
use crate::calendar::ListItem;
use crate::text::{optional_text, same_text, trim_text, trimmed};

verus! {

/// What was answered in a line that was typed: the line without the white
/// space around it, if anything is left of it.
pub open spec fn answer_in(line: Seq<char>) -> Option<Seq<char>> {
    if trimmed(line).len() > 0 {
        Some(trimmed(line))
    } else {
        None
    }
}

/// What was answered in a line that was typed; `None` for a line of white
/// space, after which the question is asked again.
pub fn given_answer(line: &str) -> (answer: Option<String>)
    ensures
        optional_text(answer) == answer_in(line@),
{
    let inner = trim_text(line);
    if inner.as_str().is_empty() {
        None
    } else {
        Some(inner)
    }
}

/// What an answer to a yes-or-no question means, if it is one of the
/// answers that are understood: `y`, `yes` and `yep` for yes, `n`, `no` and
/// `nope` for no. The answer is taken as it is: in small letters and without
/// white space around it.
pub open spec fn yes_or_no_of(answer: Seq<char>) -> Option<bool> {
    if answer == "y"@ || answer == "yes"@ || answer == "yep"@ {
        Some(true)
    } else if answer == "n"@ || answer == "no"@ || answer == "nope"@ {
        Some(false)
    } else {
        None
    }
}

/// What an answer to a yes-or-no question means.
pub fn yes_or_no(answer: &str) -> (meant: Option<bool>)
    ensures
        meant == yes_or_no_of(answer@),
{
    if same_text(answer, "y") || same_text(answer, "yes") || same_text(answer, "yep") {
        Some(true)
    } else if same_text(answer, "n") || same_text(answer, "no") || same_text(answer, "nope") {
        Some(false)
    } else {
        None
    }
}

/// The complaint about an answer that names no calendar.
pub open spec fn incorrect_value(answer: Seq<char>) -> Seq<char> {
    "incorrect value: "@ + answer
}

/// The complaint about an answer that names no calendar.
pub fn incorrect_value_message(answer: &str) -> (message: String)
    ensures
        message@ == incorrect_value(answer@),
{
    let mut message = "incorrect value: ".to_owned();
    message.append(answer);
    message
}

/// The calendar that the user chose by its number in the list, the first
/// calendar having the number 1; `None` for a number that the list does not
/// have.
pub fn chosen_calendar(calendars: &Vec<ListItem>, number: usize) -> (id: Option<String>)
    ensures
        match id {
            Some(chosen) => 1 <= number <= calendars@.len() && chosen@ == calendars@[number
                - 1].id@,
            None => number < 1 || number > calendars@.len(),
        },
{
    if number > calendars.len() || number < 1 {
        None
    } else {
        Some(calendars[number - 1].id.clone())
    }
}

} // verus!
