use clipboard_history::clock::{moment_from, now_nanos};
use clipboard_history::entropy::number_from;
use clipboard_history::text::{contains_ignoring_case, make_preview, push_decimal, str_eq};
use clipboard_history::{ContentType, PREVIEW_LENGTH_CHARS};

#[test]
fn preview_of_short_content_is_the_content() {
    assert_eq!(make_preview("", 20), "");
    assert_eq!(make_preview("hello", 20), "hello");
    assert_eq!(make_preview("abcdefghijklmnopqrst", 20), "abcdefghijklmnopqrst");
}

#[test]
fn preview_of_twenty_five_distinct_characters_under_a_bound_of_twenty() {
    let content = "abcdefghijklmnopqrstuvwxy";
    assert_eq!(content.chars().count(), 25);
    let preview = make_preview(content, 20);
    assert_eq!(preview, "abcdefghijklmnopqrst...");
    assert_eq!(preview.chars().count(), 23);
}

#[test]
fn preview_counts_scalar_values_not_bytes() {
    let content = "äöü€🌍xyz";
    assert_eq!(make_preview(content, 5), "äöü€🌍...");
    assert_eq!(make_preview(content, 8), content);
    assert_eq!(make_preview(content, 4), "äöü€...");
    assert_eq!(make_preview("ab", 0), "...");
}

#[test]
fn preview_under_the_default_bound() {
    let exactly = "x".repeat(PREVIEW_LENGTH_CHARS);
    assert_eq!(make_preview(&exactly, PREVIEW_LENGTH_CHARS), exactly);
    let longer = "é".repeat(PREVIEW_LENGTH_CHARS + 1);
    let preview = make_preview(&longer, PREVIEW_LENGTH_CHARS);
    assert_eq!(preview.chars().count(), PREVIEW_LENGTH_CHARS + 3);
    assert!(preview.ends_with("..."));
    assert_eq!(preview, format!("{}...", "é".repeat(PREVIEW_LENGTH_CHARS)));
}

#[test]
fn text_equality() {
    assert!(str_eq("", ""));
    assert!(str_eq("héllo", "héllo"));
    assert!(!str_eq("hello", "hellp"));
    assert!(!str_eq("hello", "hell"));
    assert!(!str_eq("e", "é"));
}

#[test]
fn search_ignores_the_case_of_the_text() {
    assert!(contains_ignoring_case("Hello World", "world"));
    assert!(contains_ignoring_case("HELLO", "ell"));
    assert!(contains_ignoring_case("GRÜSSE", "üss"));
    assert!(contains_ignoring_case("anything", ""));
    assert!(!contains_ignoring_case("Hello World", "worlds"));
    assert!(!contains_ignoring_case("hello", "HELLO"));
}

#[test]
fn decimal_digits() {
    for (n, expected) in [(0u32, "0"), (7, "7"), (10, "10"), (4096, "4096"), (u32::MAX, "4294967295")] {
        let mut text = String::from("n=");
        push_decimal(&mut text, n);
        assert_eq!(text, format!("n={}", expected));
    }
}

#[test]
fn four_bytes_spell_a_number_lowest_first() {
    assert_eq!(number_from(&[0, 0, 0, 0]), 0);
    assert_eq!(number_from(&[1, 0, 0, 0]), 1);
    assert_eq!(number_from(&[0x78, 0x56, 0x34, 0x12]), 0x12345678);
    assert_eq!(number_from(&[255, 255, 255, 255]), u32::MAX);
}

#[test]
fn clock_reads_a_moment_of_this_century() {
    let first = now_nanos();
    let second = now_nanos();
    assert!(first > 1_600_000_000_000_000_000);
    assert!(second >= first);
}

#[test]
fn content_type_words() {
    assert_eq!(ContentType::Text.as_str(), "text");
    assert_eq!(ContentType::Image.as_str(), "image");
    assert_eq!(ContentType::Link.as_str(), "link");
    assert_eq!(ContentType::Color.as_str(), "color");
    for kind in [ContentType::Text, ContentType::Image, ContentType::Link, ContentType::Color] {
        assert_eq!(ContentType::from_str(kind.as_str()), Some(kind));
    }
    assert_eq!(ContentType::from_str("Text"), None);
    assert_eq!(ContentType::from_str(""), None);
    assert_eq!(ContentType::from_str("pinned"), None);
}

#[test]
fn a_missing_reading_of_the_clock_stands_for_the_epoch() {
    assert_eq!(moment_from(None), 0);
    assert_eq!(moment_from(Some(1_700_000_000_000_000_000)), 1_700_000_000_000_000_000);
    assert_eq!(moment_from(Some(-5)), -5);
    assert_eq!(moment_from(Some(i64::MAX)), i64::MAX);
}
