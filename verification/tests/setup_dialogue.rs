use standup::calendar::ListItem;
use standup::redirect::{answer_page, authorization_code, value_of, QueryPair};
use standup::text::{trim_text, words_of};
use standup::window::{
    day_of, days_back, since_day, since_word, until_day, until_word, CalendarDay, Day, DayWord,
    Weekday,
};
use standup::wizard::{chosen_calendar, given_answer, incorrect_value_message, yes_or_no};

fn pair(name: &str, value: &str) -> QueryPair {
    QueryPair { name: String::from(name), value: String::from(value) }
}

fn calendars() -> Vec<ListItem> {
    vec![
        ListItem { id: String::from("first@group"), summary: String::from("Team") },
        ListItem { id: String::from("second@group"), summary: String::from("Holidays") },
    ]
}

#[test]
fn words_are_what_white_space_separates() {
    for line in [
        "GET /?code=abc HTTP/1.1",
        "  two   words  ",
        "one",
        "",
        "   ",
        "tab\tand\nnewline\r\n",
        "a b c d e",
    ] {
        let expected: Vec<&str> = line.split_whitespace().collect();
        assert_eq!(words_of(line), expected);
    }
}

#[test]
fn code_is_read_from_the_redirect() {
    assert_eq!(
        authorization_code("GET /?state=xyz&code=4%2FabcDEF HTTP/1.1\r\n"),
        Some(String::from("4/abcDEF"))
    );
}

#[test]
fn first_of_two_codes_is_taken() {
    assert_eq!(
        authorization_code("GET /?code=one&code=two HTTP/1.1"),
        Some(String::from("one"))
    );
}

#[test]
fn redirect_without_code_brings_none() {
    assert_eq!(authorization_code("GET /?error=access_denied HTTP/1.1"), None);
    assert_eq!(authorization_code("GET / HTTP/1.1"), None);
}

#[test]
fn request_line_of_one_word_brings_no_code() {
    assert_eq!(authorization_code("GET"), None);
    assert_eq!(authorization_code(""), None);
}

#[test]
fn value_is_found_by_its_name() {
    let pairs = vec![pair("state", "xyz"), pair("code", "abc"), pair("code", "def")];
    assert_eq!(value_of(&pairs, "code"), Some(String::from("abc")));
    assert_eq!(value_of(&pairs, "state"), Some(String::from("xyz")));
    assert_eq!(value_of(&pairs, "scope"), None);
    assert_eq!(value_of(&Vec::new(), "code"), None);
}

#[test]
fn browser_is_answered_with_the_length_in_bytes() {
    assert_eq!(
        answer_page("Go back to your terminal :)"),
        "HTTP/1.1 200 OK\r\ncontent-length: 27\r\n\r\nGo back to your terminal :)"
    );
    assert_eq!(answer_page("é"), "HTTP/1.1 200 OK\r\ncontent-length: 2\r\n\r\né");
}

#[test]
fn yes_and_no_are_understood_in_three_ways_each() {
    for answer in ["y", "yes", "yep"] {
        assert_eq!(yes_or_no(answer), Some(true));
    }
    for answer in ["n", "no", "nope"] {
        assert_eq!(yes_or_no(answer), Some(false));
    }
    for answer in ["", "maybe", "Y", "yes ", "yeah"] {
        assert_eq!(yes_or_no(answer), None);
    }
}

#[test]
fn calendar_is_chosen_by_its_number_from_one() {
    assert_eq!(chosen_calendar(&calendars(), 1), Some(String::from("first@group")));
    assert_eq!(chosen_calendar(&calendars(), 2), Some(String::from("second@group")));
    assert_eq!(chosen_calendar(&calendars(), 0), None);
    assert_eq!(chosen_calendar(&calendars(), 3), None);
    assert_eq!(chosen_calendar(&Vec::new(), 1), None);
}

#[test]
fn complaint_repeats_the_answer() {
    assert_eq!(incorrect_value_message("seven"), "incorrect value: seven");
}

#[test]
fn start_of_a_window_has_three_words() {
    assert_eq!(since_word("yesterday"), Some(DayWord::Yesterday));
    assert_eq!(since_word("friday"), Some(DayWord::Friday));
    assert_eq!(since_word("today"), Some(DayWord::Today));
    assert_eq!(since_word("2019-08-01"), None);
    assert_eq!(since_word("Friday"), None);
}

#[test]
fn end_of_a_window_has_one_word() {
    assert_eq!(until_word("today"), Some(DayWord::Today));
    assert_eq!(until_word("yesterday"), None);
    assert_eq!(until_word("friday"), None);
}

#[test]
fn days_are_counted_back_from_today() {
    assert_eq!(days_back(DayWord::Today, Weekday::Wednesday), 0);
    assert_eq!(days_back(DayWord::Yesterday, Weekday::Wednesday), 1);
    assert_eq!(days_back(DayWord::Friday, Weekday::Friday), 0);
    assert_eq!(days_back(DayWord::Friday, Weekday::Saturday), 1);
    assert_eq!(days_back(DayWord::Friday, Weekday::Sunday), 2);
    assert_eq!(days_back(DayWord::Friday, Weekday::Monday), 3);
    assert_eq!(days_back(DayWord::Friday, Weekday::Thursday), 6);
    assert_eq!(Weekday::Tuesday.days_since_friday(), 4);
}

#[test]
fn start_of_a_window_is_a_word_or_a_date() {
    assert_eq!(since_day("yesterday"), Some(Day::Named(DayWord::Yesterday)));
    assert_eq!(since_day("friday"), Some(Day::Named(DayWord::Friday)));
    assert_eq!(since_day("today"), Some(Day::Named(DayWord::Today)));
    assert_eq!(
        since_day("2019-08-01"),
        Some(Day::Dated(CalendarDay { year: 2019, month: 8, day: 1 }))
    );
    assert_eq!(since_day("2019-02-30"), None);
    assert_eq!(since_day("tomorrow"), None);
    assert_eq!(since_day(""), None);
}

#[test]
fn end_of_a_window_is_today_or_a_date() {
    assert_eq!(until_day("today"), Some(Day::Named(DayWord::Today)));
    assert_eq!(
        until_day("2020-12-31"),
        Some(Day::Dated(CalendarDay { year: 2020, month: 12, day: 31 }))
    );
    assert_eq!(until_day("yesterday"), None);
    assert_eq!(until_day("friday"), None);
}

#[test]
fn word_goes_before_a_date() {
    let date = CalendarDay { year: 2019, month: 8, day: 1 };
    assert_eq!(day_of(Some(DayWord::Today), Some(date)), Some(Day::Named(DayWord::Today)));
    assert_eq!(day_of(None, Some(date)), Some(Day::Dated(date)));
    assert_eq!(day_of(None, None), None);
}

#[test]
fn answer_is_the_line_without_the_white_space_around_it() {
    assert_eq!(given_answer("  octocat \n"), Some(String::from("octocat")));
    assert_eq!(given_answer("two words\r\n"), Some(String::from("two words")));
    assert_eq!(given_answer("\n"), None);
    assert_eq!(given_answer("   \t "), None);
    assert_eq!(given_answer(""), None);
}

#[test]
fn trimming_takes_off_what_std_takes_off() {
    for text in ["", " ", " a ", "\ta b\n", "\u{A0}x\u{3000}", "no space", "  \u{2003}é  "] {
        assert_eq!(trim_text(text), text.trim());
    }
}
