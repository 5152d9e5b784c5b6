use clipboard_history::codec::encrypt;
use clipboard_history::listing::{matches_search, row_to_clipboard_item, Filter};
use clipboard_history::{
    init, AppError, ClipboardHistoryManager, ClipboardItem, ContentType, InitOutcome, StoredRow,
};

const N1: [u8; 12] = [1u8; 12];
const N2: [u8; 12] = [2u8; 12];

fn sample() -> ClipboardHistoryManager {
    let mut m = ClipboardHistoryManager::new_for_test();
    let entries = [
        ("h1", ContentType::Text, "Alpha text"),
        ("h2", ContentType::Link, "https://example.org/alpha"),
        ("h3", ContentType::Color, "#ff8800"),
        ("h4", ContentType::Image, "image-0001.png"),
        ("h5", ContentType::Text, "Beta TEXT"),
        ("h6", ContentType::Link, "https://example.org/beta"),
    ];
    for (k, (hash, kind, content)) in entries.iter().enumerate() {
        m.add_item_at(
            hash.to_string(),
            *kind,
            content.to_string(),
            None,
            (k as i64 + 1) * 10,
            &N1,
            &N2,
        )
        .unwrap();
    }
    m.toggle_pin(2);
    m.toggle_pin(5);
    m
}

fn hashes(items: &[ClipboardItem]) -> Vec<&str> {
    items.iter().map(|i| i.hash.as_str()).collect()
}

#[test]
fn unfiltered_listing_is_most_recent_first() {
    let m = sample();
    let items = m.get_items("all".to_string(), None, 100, 0);
    assert_eq!(hashes(&items), vec!["h6", "h5", "h4", "h3", "h2", "h1"]);
    for pair in items.windows(2) {
        assert!(pair[0].last_copied_at >= pair[1].last_copied_at);
    }
}

#[test]
fn listing_shows_what_the_row_holds() {
    let m = sample();
    let items = m.get_items("all".to_string(), None, 1, 4);
    assert_eq!(items.len(), 1);
    let item = &items[0];
    assert_eq!(item.id, 2);
    assert_eq!(item.hash, "h2");
    assert_eq!(item.content_type, ContentType::Link);
    assert_eq!(item.content_value.as_deref(), Some("https://example.org/alpha"));
    assert_eq!(item.preview.as_deref(), Some("https://example.org/alpha"));
    assert_eq!(item.content_size_bytes, 25);
    assert_eq!(item.source_app_name, None);
    assert_eq!(item.first_copied_at, 20);
    assert_eq!(item.last_copied_at, 20);
    assert_eq!(item.times_copied, 1);
    assert!(item.is_pinned);
}

#[test]
fn pinned_filter_lists_pinned_rows_only() {
    let m = sample();
    let items = m.get_items("pinned".to_string(), None, 100, 0);
    assert_eq!(hashes(&items), vec!["h5", "h2"]);
    assert!(items.iter().all(|i| i.is_pinned));
}

#[test]
fn kind_filters_list_rows_of_their_kind_only() {
    let m = sample();
    let text = m.get_items("text".to_string(), None, 100, 0);
    assert_eq!(hashes(&text), vec!["h5", "h1"]);
    assert!(text.iter().all(|i| i.content_type == ContentType::Text));
    let link = m.get_items("link".to_string(), None, 100, 0);
    assert_eq!(hashes(&link), vec!["h6", "h2"]);
    let image = m.get_items("image".to_string(), None, 100, 0);
    assert_eq!(hashes(&image), vec!["h4"]);
    let color = m.get_items("color".to_string(), None, 100, 0);
    assert_eq!(hashes(&color), vec!["h3"]);
}

#[test]
fn an_unknown_filter_lists_every_row() {
    let m = sample();
    for word in ["", "everything", "Pinned", "TEXT", "texts"] {
        let items = m.get_items(word.to_string(), None, 100, 0);
        assert_eq!(hashes(&items), vec!["h6", "h5", "h4", "h3", "h2", "h1"]);
    }
}

#[test]
fn filter_words() {
    assert_eq!(Filter::from_str("pinned"), Filter::Pinned);
    assert_eq!(Filter::from_str("text"), Filter::Kind(ContentType::Text));
    assert_eq!(Filter::from_str("image"), Filter::Kind(ContentType::Image));
    assert_eq!(Filter::from_str("link"), Filter::Kind(ContentType::Link));
    assert_eq!(Filter::from_str("color"), Filter::Kind(ContentType::Color));
    assert_eq!(Filter::from_str("all"), Filter::All);
    assert_eq!(Filter::from_str("colour"), Filter::All);
}

#[test]
fn limit_and_offset_cut_a_page_after_ordering() {
    let m = sample();
    let page = |limit: u32, offset: u32| {
        let items = m.get_items("all".to_string(), None, limit, offset);
        items.iter().map(|i| i.hash.clone()).collect::<Vec<String>>()
    };
    assert_eq!(page(2, 0), vec!["h6", "h5"]);
    assert_eq!(page(2, 2), vec!["h4", "h3"]);
    assert_eq!(page(4, 4), vec!["h2", "h1"]);
    assert_eq!(page(0, 0), Vec::<String>::new());
    assert_eq!(page(3, 6), Vec::<String>::new());
    assert_eq!(page(3, 60), Vec::<String>::new());
    assert_eq!(page(u32::MAX, u32::MAX), Vec::<String>::new());
    assert_eq!(page(u32::MAX, 5), vec!["h1"]);
    let links = m.get_items("link".to_string(), None, 1, 1);
    assert_eq!(hashes(&links), vec!["h2"]);
}

#[test]
fn search_ignores_case() {
    let m = sample();
    let items = m.get_items("all".to_string(), Some("TEXT".to_string()), 100, 0);
    assert_eq!(hashes(&items), vec!["h5", "h1"]);
    let items = m.get_items("all".to_string(), Some("example.ORG".to_string()), 100, 0);
    assert_eq!(hashes(&items), vec!["h6", "h2"]);
    let items = m.get_items("link".to_string(), Some("beta".to_string()), 100, 0);
    assert_eq!(hashes(&items), vec!["h6"]);
    let items = m.get_items("all".to_string(), Some("no such thing".to_string()), 100, 0);
    assert!(items.is_empty());
}

#[test]
fn an_empty_search_term_keeps_the_page() {
    let m = sample();
    let items = m.get_items("all".to_string(), Some(String::new()), 3, 1);
    assert_eq!(hashes(&items), vec!["h5", "h4", "h3"]);
}

#[test]
fn search_looks_at_the_page_only() {
    let m = sample();
    let first_page = m.get_items("all".to_string(), Some("alpha".to_string()), 3, 0);
    assert!(first_page.is_empty());
    let second_page = m.get_items("all".to_string(), Some("alpha".to_string()), 3, 3);
    assert_eq!(hashes(&second_page), vec!["h2", "h1"]);
}

#[test]
fn search_reads_the_preview_before_the_content() {
    let key = [4u8; 32];
    let row = |id: i64, preview: Option<&str>, content: &str, size: u64, last: i64| StoredRow {
        id,
        hash: format!("h{}", id),
        content_type: ContentType::Text,
        encrypted_content: encrypt(content, &key).unwrap(),
        encrypted_preview: preview.map(|p| encrypt(p, &key).unwrap()),
        content_size_bytes: size,
        source_app_name: None,
        first_copied_at: last,
        last_copied_at: last,
        times_copied: 1,
        is_pinned: false,
    };
    let rows = vec![
        row(1, Some("shown words"), "hidden needle", 13, 40),
        row(2, None, "plain needle", 12, 30),
        row(3, None, "large needle", 1_000_000, 20),
        row(4, Some("needle in preview"), "other", 1_000_000, 10),
    ];
    let m = ClipboardHistoryManager::new(key, "dir".to_string(), rows, 4).unwrap();
    let found = m.get_items("all".to_string(), Some("needle".to_string()), 10, 0);
    assert_eq!(hashes(&found), vec!["h2", "h4"]);
    let everything = m.get_items("all".to_string(), None, 10, 0);
    assert_eq!(everything.len(), 4);
    assert_eq!(everything[2].content_value, None);
    assert_eq!(everything[2].preview, None);

    let shown = row_to_clipboard_item(&m.rows()[0], &key);
    assert!(matches_search(&shown, "shown"));
    assert!(!matches_search(&shown, "needle"));
    let bare = row_to_clipboard_item(&m.rows()[2], &key);
    assert!(!matches_search(&bare, ""));
}

#[test]
fn listing_does_not_change_the_history() {
    let m = sample();
    let before: Vec<(i64, i64, u64)> =
        m.rows().iter().map(|r| (r.id, r.last_copied_at, r.times_copied)).collect();
    let _ = m.get_items("all".to_string(), Some("alpha".to_string()), 10, 0);
    let _ = m.get_content_by_offset(0);
    let _ = m.get_item_content(1);
    let after: Vec<(i64, i64, u64)> =
        m.rows().iter().map(|r| (r.id, r.last_copied_at, r.times_copied)).collect();
    assert_eq!(before, after);
}

#[test]
fn init_builds_once() {
    let mut slot: Option<ClipboardHistoryManager> = None;
    let mut calls = 0;
    let outcome: InitOutcome<AppError> = init(&mut slot, || {
        calls += 1;
        Ok(ClipboardHistoryManager::new_for_test())
    });
    assert_eq!(outcome, InitOutcome::Started);
    assert!(slot.is_some());
    slot.as_mut()
        .unwrap()
        .add_item("h".to_string(), ContentType::Text, "kept".to_string(), None)
        .unwrap();
    let outcome: InitOutcome<AppError> = init(&mut slot, || {
        calls += 1;
        Ok(ClipboardHistoryManager::new_for_test())
    });
    assert_eq!(outcome, InitOutcome::AlreadyRunning);
    assert_eq!(calls, 1);
    assert_eq!(slot.as_ref().unwrap().len(), 1);
}

#[test]
fn init_leaves_the_slot_empty_on_failure_and_tries_again_later() {
    let mut slot: Option<ClipboardHistoryManager> = None;
    let outcome = init(&mut slot, || Err(AppError::InvalidRows));
    assert_eq!(outcome, InitOutcome::Failed(AppError::InvalidRows));
    assert!(slot.is_none());
    let outcome: InitOutcome<AppError> =
        init(&mut slot, || Ok(ClipboardHistoryManager::new_for_test()));
    assert_eq!(outcome, InitOutcome::Started);
    assert!(slot.is_some());
}
