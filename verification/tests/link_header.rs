use standup::link::{has_next_page, next_target_of, LinkHeader};
use standup::text::{chars_of, is_space_char, same_text, segment_of, split_text};

#[test]
fn next_link_is_found_among_the_items() {
    let value = "<https://api.github.com/user/1/events?page=2>; rel=\"next\", \
                 <https://api.github.com/user/1/events?page=3>; rel=\"last\"";
    assert_eq!(
        LinkHeader::from_str(value).next,
        Some(String::from("https://api.github.com/user/1/events?page=2"))
    );
    assert!(has_next_page(Some(value)));
}

#[test]
fn next_link_need_not_come_first() {
    let value = "<https://a/?page=1>; rel=\"prev\", <https://a/?page=3>; rel=\"next\"";
    assert_eq!(LinkHeader::from_str(value).next, Some(String::from("https://a/?page=3")));
}

#[test]
fn first_of_two_next_links_is_taken() {
    let value = "<one>; rel=\"next\", <two>; rel=\"next\"";
    assert_eq!(LinkHeader::from_str(value).next, Some(String::from("one")));
}

#[test]
fn header_without_next_relation_has_no_next_page() {
    let value = "<https://a/?page=1>; rel=\"first\", <https://a/?page=2>; rel=\"prev\"";
    assert_eq!(LinkHeader::from_str(value).next, None);
    assert!(!has_next_page(Some(value)));
}

#[test]
fn missing_header_has_no_next_page() {
    assert!(!has_next_page(None));
}

#[test]
fn empty_header_has_no_next_page() {
    assert!(!has_next_page(Some("")));
}

#[test]
fn white_space_around_the_parts_is_ignored() {
    assert_eq!(next_target_of("  <https://a/>\t;   rel=\"next\"  "), Some(String::from("https://a/")));
}

#[test]
fn relation_is_what_follows_the_first_semicolon() {
    assert_eq!(next_target_of("<x>; rel=\"next\"; title=\"more\""), None);
    assert_eq!(next_target_of("<x>; rel=next"), None);
    assert_eq!(next_target_of("<x>; REL=\"next\""), None);
}

#[test]
fn item_without_semicolon_is_passed_over() {
    assert_eq!(next_target_of("<x> rel=\"next\""), None);
    assert_eq!(
        LinkHeader::from_str("garbage, <y>; rel=\"next\"").next,
        Some(String::from("y"))
    );
}

#[test]
fn item_without_room_for_a_target_is_passed_over() {
    assert_eq!(next_target_of("; rel=\"next\""), None);
    assert_eq!(next_target_of("<; rel=\"next\""), None);
    assert_eq!(next_target_of("<>; rel=\"next\""), Some(String::new()));
}

#[test]
fn white_space_is_what_unicode_says() {
    for c in [' ', '\t', '\n', '\r', '\u{0B}', '\u{0C}', '\u{85}', '\u{A0}', '\u{2003}', '\u{3000}'] {
        assert!(is_space_char(c));
        assert!(c.is_whitespace());
    }
    for c in ['a', '<', '0', '\u{200B}', '\u{FEFF}'] {
        assert!(!is_space_char(c));
        assert!(!c.is_whitespace());
    }
}

#[test]
fn splitting_keeps_empty_pieces() {
    assert_eq!(split_text("a,b,,c", ','), vec!["a", "b", "", "c"]);
    assert_eq!(split_text("", ','), vec![""]);
    assert_eq!(split_text("a,", ','), vec!["a", ""]);
    assert_eq!(split_text(",", ','), vec!["", ""]);
    assert_eq!(split_text("no separator", ','), vec!["no separator"]);
}

#[test]
fn splitting_goes_by_characters() {
    assert_eq!(split_text("grüße/äpfel", '/'), vec!["grüße", "äpfel"]);
    assert_eq!(chars_of("aä€"), vec!['a', 'ä', '€']);
}

#[test]
fn segment_is_counted_from_zero() {
    let url = "https://github.com/acme/tool/pull/12";
    assert_eq!(segment_of(url, '/', 0), Some(String::from("https:")));
    assert_eq!(segment_of(url, '/', 1), Some(String::new()));
    assert_eq!(segment_of(url, '/', 5), Some(String::from("pull")));
    assert_eq!(segment_of(url, '/', 6), Some(String::from("12")));
    assert_eq!(segment_of(url, '/', 7), None);
}

#[test]
fn texts_are_compared_by_their_characters() {
    assert!(same_text("pull", "pull"));
    assert!(!same_text("pull", "pulls"));
    assert!(!same_text("pull", "Pull"));
    assert!(same_text("", ""));
}
