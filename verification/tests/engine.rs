use clipboard_history::codec::encrypt;
use clipboard_history::{
    AppError, ClipboardHistoryManager, ContentType, StoredRow, INLINE_CONTENT_THRESHOLD_BYTES,
    PREVIEW_LENGTH_CHARS,
};

const N1: [u8; 12] = [1u8; 12];
const N2: [u8; 12] = [2u8; 12];

fn add(m: &mut ClipboardHistoryManager, hash: &str, kind: ContentType, content: &str, now: i64) {
    m.add_item_at(hash.to_string(), kind, content.to_string(), None, now, &N1, &N2)
        .unwrap();
}

fn list_all(m: &ClipboardHistoryManager) -> Vec<clipboard_history::ClipboardItem> {
    m.get_items("all".to_string(), None, 100, 0)
}

fn stored(key: &[u8; 32], id: i64, hash: &str, content: &str, last: i64, pinned: bool) -> StoredRow {
    StoredRow {
        id,
        hash: hash.to_string(),
        content_type: ContentType::Text,
        encrypted_content: encrypt(content, key).unwrap(),
        encrypted_preview: Some(encrypt(content, key).unwrap()),
        content_size_bytes: content.len() as u64,
        source_app_name: None,
        first_copied_at: last,
        last_copied_at: last,
        times_copied: 1,
        is_pinned: pinned,
    }
}

#[test]
fn a_test_history_starts_empty() {
    let m = ClipboardHistoryManager::new_for_test();
    assert_eq!(m.len(), 0);
    assert_eq!(m.last_id(), 0);
    assert!(m.rows().is_empty());
    let dir = m.image_dir();
    assert!(dir.starts_with("raycast_test_"));
    let suffix = &dir["raycast_test_".len()..];
    assert!(!suffix.is_empty());
    assert_eq!(suffix.parse::<u32>().unwrap().to_string(), suffix);
}

#[test]
fn first_copy_creates_one_row() {
    let mut m = ClipboardHistoryManager::new_for_test();
    m.add_item_at(
        "h-hello".to_string(),
        ContentType::Text,
        "hello".to_string(),
        Some("editor".to_string()),
        1_000,
        &N1,
        &N2,
    )
    .unwrap();
    assert_eq!(m.len(), 1);
    let row = &m.rows()[0];
    assert_eq!(row.id, 1);
    assert_eq!(row.hash, "h-hello");
    assert_eq!(row.content_type, ContentType::Text);
    assert_eq!(row.content_size_bytes, 5);
    assert_eq!(row.source_app_name.as_deref(), Some("editor"));
    assert_eq!(row.first_copied_at, 1_000);
    assert_eq!(row.last_copied_at, 1_000);
    assert_eq!(row.times_copied, 1);
    assert!(!row.is_pinned);
    assert_ne!(row.encrypted_content, "hello");
    assert_ne!(row.encrypted_preview.as_deref(), Some("hello"));
    assert_eq!(m.last_id(), 1);
}

#[test]
fn same_content_twice_yields_one_row_copied_twice() {
    let mut m = ClipboardHistoryManager::new_for_test();
    add(&mut m, "h", ContentType::Text, "hello", 1_000);
    let sealed_before = m.rows()[0].encrypted_content.clone();
    add(&mut m, "h", ContentType::Text, "hello", 2_000);
    assert_eq!(m.len(), 1);
    let row = &m.rows()[0];
    assert_eq!(row.times_copied, 2);
    assert_eq!(row.first_copied_at, 1_000);
    assert_eq!(row.last_copied_at, 2_000);
    assert!(row.last_copied_at > row.first_copied_at);
    assert_eq!(row.id, 1);
    assert_eq!(row.encrypted_content, sealed_before);
    assert_eq!(m.last_id(), 1);
}

#[test]
fn repeat_copy_leaves_content_and_kind_of_the_row() {
    let mut m = ClipboardHistoryManager::new_for_test();
    add(&mut m, "h", ContentType::Text, "first", 1_000);
    add(&mut m, "h", ContentType::Link, "second", 2_000);
    assert_eq!(m.len(), 1);
    assert_eq!(m.rows()[0].content_type, ContentType::Text);
    assert_eq!(m.get_item_content(1).unwrap(), "first");
}

#[test]
fn hello_hello_world_scenario() {
    let mut m = ClipboardHistoryManager::new_for_test();
    m.add_item("hash-hello".to_string(), ContentType::Text, "hello".to_string(), None)
        .unwrap();
    assert_eq!(m.len(), 1);
    assert_eq!(m.rows()[0].times_copied, 1);
    let first_seen = m.rows()[0].last_copied_at;

    m.add_item("hash-hello".to_string(), ContentType::Text, "hello".to_string(), None)
        .unwrap();
    assert_eq!(m.len(), 1);
    assert_eq!(m.rows()[0].times_copied, 2);
    assert!(m.rows()[0].last_copied_at >= first_seen);
    assert_eq!(m.rows()[0].first_copied_at, first_seen);

    m.add_item("hash-world".to_string(), ContentType::Text, "world".to_string(), None)
        .unwrap();
    assert_eq!(m.len(), 2);

    let items = m.get_items("all".to_string(), None, 10, 0);
    let contents: Vec<Option<&str>> = items.iter().map(|i| i.content_value.as_deref()).collect();
    assert_eq!(contents, vec![Some("world"), Some("hello")]);
}

#[test]
fn hello_hello_world_scenario_at_given_moments() {
    let mut m = ClipboardHistoryManager::new_for_test();
    add(&mut m, "hash-hello", ContentType::Text, "hello", 10);
    add(&mut m, "hash-hello", ContentType::Text, "hello", 20);
    assert_eq!(m.rows()[0].last_copied_at, 20);
    add(&mut m, "hash-world", ContentType::Text, "world", 30);
    let items = m.get_items("all".to_string(), None, 10, 0);
    assert_eq!(items.len(), 2);
    assert_eq!(items[0].content_value.as_deref(), Some("world"));
    assert_eq!(items[1].content_value.as_deref(), Some("hello"));
    assert_eq!(items[1].times_copied, 2);
    assert_eq!(items[0].times_copied, 1);
}

#[test]
fn hashes_and_ids_stay_distinct() {
    let mut m = ClipboardHistoryManager::new_for_test();
    for round in 0..3i64 {
        for k in 0..5i64 {
            add(&mut m, &format!("h{}", k), ContentType::Text, &format!("c{}", k), round * 10 + k);
        }
    }
    m.toggle_pin(2);
    m.delete_item(4);
    add(&mut m, "h2", ContentType::Text, "c2", 100);
    add(&mut m, "h9", ContentType::Text, "c9", 50);
    let rows = m.rows();
    for i in 0..rows.len() {
        assert!(rows[i].times_copied >= 1);
        assert!(rows[i].last_copied_at >= rows[i].first_copied_at);
        for j in (i + 1)..rows.len() {
            assert_ne!(rows[i].hash, rows[j].hash);
            assert_ne!(rows[i].id, rows[j].id);
            assert!(rows[i].last_copied_at >= rows[j].last_copied_at);
        }
    }
    assert_eq!(rows.len(), 5);
}

#[test]
fn a_later_copy_goes_before_rows_of_the_same_moment() {
    let mut m = ClipboardHistoryManager::new_for_test();
    add(&mut m, "a", ContentType::Text, "a", 5);
    add(&mut m, "b", ContentType::Text, "b", 5);
    add(&mut m, "c", ContentType::Text, "c", 3);
    add(&mut m, "d", ContentType::Text, "d", 9);
    let order: Vec<&str> = m.rows().iter().map(|r| r.hash.as_str()).collect();
    assert_eq!(order, vec!["d", "b", "a", "c"]);
    m.item_was_copied_at(3, 5);
    let order: Vec<&str> = m.rows().iter().map(|r| r.hash.as_str()).collect();
    assert_eq!(order, vec!["d", "c", "b", "a"]);
}

#[test]
fn ids_are_never_handed_out_twice() {
    let mut m = ClipboardHistoryManager::new_for_test();
    add(&mut m, "a", ContentType::Text, "a", 1);
    add(&mut m, "b", ContentType::Text, "b", 2);
    assert_eq!(m.delete_item(2), 1);
    add(&mut m, "c", ContentType::Text, "c", 3);
    assert_eq!(m.rows()[0].id, 3);
    assert_eq!(m.last_id(), 3);
}

#[test]
fn content_at_the_threshold_is_listed_and_above_it_withheld() {
    let mut m = ClipboardHistoryManager::new_for_test();
    let at = "a".repeat(INLINE_CONTENT_THRESHOLD_BYTES as usize);
    let above = "b".repeat(INLINE_CONTENT_THRESHOLD_BYTES as usize + 1);
    add(&mut m, "at", ContentType::Text, &at, 1);
    add(&mut m, "above", ContentType::Text, &above, 2);
    let items = list_all(&m);
    assert_eq!(items.len(), 2);
    assert_eq!(items[0].hash, "above");
    assert_eq!(items[0].content_size_bytes, INLINE_CONTENT_THRESHOLD_BYTES + 1);
    assert_eq!(items[0].content_value, None);
    assert!(items[0].preview.is_some());
    assert_eq!(items[1].hash, "at");
    assert_eq!(items[1].content_value.as_deref(), Some(at.as_str()));
    assert_eq!(m.get_item_content(items[0].id).unwrap(), above);
    assert_eq!(m.get_item_content(items[1].id).unwrap(), at);
    assert_eq!(m.get_content_by_offset(0).unwrap(), Some(above));
}

#[test]
fn size_counts_bytes_of_the_content() {
    let mut m = ClipboardHistoryManager::new_for_test();
    add(&mut m, "h", ContentType::Text, "äö€", 1);
    assert_eq!(m.rows()[0].content_size_bytes, 7);
}

#[test]
fn long_content_gets_a_cut_preview_and_stays_whole() {
    let mut m = ClipboardHistoryManager::new_for_test();
    let content: String = (0..PREVIEW_LENGTH_CHARS + 25)
        .map(|i| char::from_u32(0x4e00 + i as u32).unwrap())
        .collect();
    add(&mut m, "long", ContentType::Text, &content, 1);
    let items = list_all(&m);
    let preview = items[0].preview.clone().unwrap();
    assert_eq!(preview.chars().count(), PREVIEW_LENGTH_CHARS + 3);
    let head: String = content.chars().take(PREVIEW_LENGTH_CHARS).collect();
    assert_eq!(preview, format!("{}...", head));
    assert_eq!(m.get_item_content(items[0].id).unwrap(), content);
}

#[test]
fn short_content_is_its_own_preview() {
    let mut m = ClipboardHistoryManager::new_for_test();
    add(&mut m, "h", ContentType::Text, "short", 1);
    assert_eq!(list_all(&m)[0].preview.as_deref(), Some("short"));
}

#[test]
fn content_by_offset_follows_the_order_of_last_copy() {
    let mut m = ClipboardHistoryManager::new_for_test();
    add(&mut m, "a", ContentType::Text, "first", 1);
    add(&mut m, "b", ContentType::Text, "second", 2);
    add(&mut m, "a", ContentType::Text, "first", 3);
    assert_eq!(m.get_content_by_offset(0).unwrap().as_deref(), Some("first"));
    assert_eq!(m.get_content_by_offset(1).unwrap().as_deref(), Some("second"));
    assert_eq!(m.get_content_by_offset(2).unwrap(), None);
    assert_eq!(m.get_content_by_offset(u32::MAX).unwrap(), None);
}

#[test]
fn content_of_an_unknown_id_is_not_found() {
    let mut m = ClipboardHistoryManager::new_for_test();
    assert_eq!(m.get_item_content(1), Err(AppError::NotFound));
    add(&mut m, "a", ContentType::Text, "first", 1);
    assert_eq!(m.get_item_content(2), Err(AppError::NotFound));
    assert_eq!(m.get_item_content(-1), Err(AppError::NotFound));
    assert_eq!(m.get_item_content(1).unwrap(), "first");
}

#[test]
fn copying_an_item_again_bumps_it() {
    let mut m = ClipboardHistoryManager::new_for_test();
    add(&mut m, "a", ContentType::Text, "a", 1);
    add(&mut m, "b", ContentType::Text, "b", 2);
    assert_eq!(m.item_was_copied_at(1, 7), 1);
    assert_eq!(m.rows()[0].id, 1);
    assert_eq!(m.rows()[0].times_copied, 2);
    assert_eq!(m.rows()[0].last_copied_at, 7);
    assert_eq!(m.rows()[0].first_copied_at, 1);
    assert_eq!(m.item_was_copied_at(9, 8), 0);
    assert_eq!(m.len(), 2);
    assert_eq!(m.item_was_copied(2), 1);
    assert_eq!(m.rows()[0].id, 2);
    assert_eq!(m.rows()[0].times_copied, 2);
    assert!(m.rows()[0].last_copied_at > 1_600_000_000_000_000_000);
}

#[test]
fn the_counter_stays_at_its_largest_value() {
    let key = [0u8; 32];
    let mut row = stored(&key, 1, "h", "x", 5, false);
    row.times_copied = u64::MAX;
    let mut m = ClipboardHistoryManager::new(key, "dir".to_string(), vec![row], 1).unwrap();
    assert_eq!(m.item_was_copied_at(1, 6), 1);
    assert_eq!(m.rows()[0].times_copied, u64::MAX);
    assert_eq!(m.rows()[0].last_copied_at, 6);
}

#[test]
fn deleting_removes_exactly_one_row() {
    let mut m = ClipboardHistoryManager::new_for_test();
    add(&mut m, "a", ContentType::Text, "a", 1);
    add(&mut m, "b", ContentType::Text, "b", 2);
    add(&mut m, "c", ContentType::Text, "c", 3);
    assert_eq!(m.delete_item(2), 1);
    let ids: Vec<i64> = m.rows().iter().map(|r| r.id).collect();
    assert_eq!(ids, vec![3, 1]);
    assert_eq!(m.delete_item(2), 0);
    assert_eq!(m.delete_item(42), 0);
    assert_eq!(m.len(), 2);
    assert_eq!(m.get_item_content(2), Err(AppError::NotFound));
}

#[test]
fn toggling_a_pin_twice_restores_it() {
    let mut m = ClipboardHistoryManager::new_for_test();
    add(&mut m, "a", ContentType::Text, "a", 1);
    add(&mut m, "b", ContentType::Text, "b", 2);
    assert!(!m.rows()[1].is_pinned);
    assert_eq!(m.toggle_pin(1), 1);
    assert!(m.rows()[1].is_pinned);
    assert!(!m.rows()[0].is_pinned);
    assert_eq!(m.rows()[1].id, 1);
    assert_eq!(m.toggle_pin(1), 1);
    assert!(!m.rows()[1].is_pinned);
    assert_eq!(m.toggle_pin(5), 0);
    assert_eq!(m.rows()[1].times_copied, 1);
    assert_eq!(m.rows()[1].last_copied_at, 1);
}

#[test]
fn purge_keeps_pinned_rows_only() {
    let mut m = ClipboardHistoryManager::new_for_test();
    for k in 1..=6i64 {
        add(&mut m, &format!("h{}", k), ContentType::Text, &format!("c{}", k), k);
    }
    m.toggle_pin(2);
    m.toggle_pin(5);
    let pinned_before: Vec<(i64, String, i64, u64)> = m
        .rows()
        .iter()
        .filter(|r| r.is_pinned)
        .map(|r| (r.id, r.encrypted_content.clone(), r.last_copied_at, r.times_copied))
        .collect();
    assert_eq!(m.clear_all(), 4);
    assert_eq!(m.len(), 2);
    let after: Vec<(i64, String, i64, u64)> = m
        .rows()
        .iter()
        .map(|r| (r.id, r.encrypted_content.clone(), r.last_copied_at, r.times_copied))
        .collect();
    assert_eq!(after, pinned_before);
    assert!(m.rows().iter().all(|r| r.is_pinned));
    for id in [1, 3, 4, 6] {
        assert_eq!(m.get_item_content(id), Err(AppError::NotFound));
    }
    assert_eq!(m.get_item_content(2).unwrap(), "c2");
    assert_eq!(m.get_item_content(5).unwrap(), "c5");
    assert_eq!(m.clear_all(), 0);
    assert_eq!(m.len(), 2);
    assert_eq!(m.last_id(), 6);
}

#[test]
fn purge_of_an_empty_history_removes_nothing() {
    let mut m = ClipboardHistoryManager::new_for_test();
    assert_eq!(m.clear_all(), 0);
    assert_eq!(m.len(), 0);
}

#[test]
fn stored_rows_are_taken_as_they_are() {
    let key = [9u8; 32];
    let rows = vec![
        stored(&key, 7, "x", "newest", 30, true),
        stored(&key, 2, "y", "older", 20, false),
    ];
    let mut m = ClipboardHistoryManager::new(key, "images".to_string(), rows, 7).unwrap();
    assert_eq!(m.len(), 2);
    assert_eq!(m.last_id(), 7);
    assert_eq!(m.image_dir(), "images");
    assert_eq!(m.get_item_content(7).unwrap(), "newest");
    assert_eq!(m.get_content_by_offset(1).unwrap().as_deref(), Some("older"));
    add(&mut m, "z", ContentType::Text, "fresh", 40);
    assert_eq!(m.rows()[0].id, 8);
}

#[test]
fn stored_rows_that_break_the_rules_are_refused() {
    let key = [9u8; 32];
    let make = |rows: Vec<StoredRow>, last_id: i64| {
        ClipboardHistoryManager::new(key, "images".to_string(), rows, last_id).err()
    };
    let same_hash = vec![stored(&key, 2, "x", "a", 30, false), stored(&key, 1, "x", "b", 20, false)];
    assert_eq!(make(same_hash, 2), Some(AppError::InvalidRows));
    let same_id = vec![stored(&key, 1, "x", "a", 30, false), stored(&key, 1, "y", "b", 20, false)];
    assert_eq!(make(same_id, 2), Some(AppError::InvalidRows));
    let unordered = vec![stored(&key, 1, "x", "a", 20, false), stored(&key, 2, "y", "b", 30, false)];
    assert_eq!(make(unordered, 2), Some(AppError::InvalidRows));
    let beyond = vec![stored(&key, 3, "x", "a", 20, false)];
    assert_eq!(make(beyond, 2), Some(AppError::InvalidRows));
    let mut copied_before_first = stored(&key, 1, "x", "a", 50, false);
    copied_before_first.first_copied_at = 100;
    assert_eq!(make(vec![copied_before_first], 2), Some(AppError::InvalidRows));
    let mut never_copied = stored(&key, 1, "x", "a", 20, false);
    never_copied.times_copied = 0;
    assert_eq!(make(vec![never_copied], 2), Some(AppError::InvalidRows));
    assert_eq!(make(vec![], 0), None);
}

#[test]
fn no_row_is_created_once_ids_are_exhausted() {
    let key = [9u8; 32];
    let rows = vec![stored(&key, i64::MAX, "x", "a", 30, false)];
    let mut m = ClipboardHistoryManager::new(key, "images".to_string(), rows, i64::MAX).unwrap();
    let refused = m.add_item("y".to_string(), ContentType::Text, "b".to_string(), None);
    assert_eq!(refused, Err(AppError::IdsExhausted));
    assert_eq!(m.len(), 1);
    assert_eq!(m.last_id(), i64::MAX);
    let repeated = m.add_item("x".to_string(), ContentType::Text, "a".to_string(), None);
    assert_eq!(repeated, Ok(()));
    assert_eq!(m.rows()[0].times_copied, 2);
}

#[test]
fn a_row_that_does_not_decrypt_fails_alone() {
    let key = [9u8; 32];
    let other = [1u8; 32];
    let mut broken = stored(&key, 2, "broken", "lost", 20, false);
    broken.encrypted_content = "00ff".to_string();
    let foreign = stored(&other, 3, "foreign", "theirs", 10, false);
    let rows = vec![stored(&key, 1, "fine", "mine", 30, false), broken, foreign];
    let m = ClipboardHistoryManager::new(key, "images".to_string(), rows, 3).unwrap();
    assert_eq!(m.get_item_content(1).unwrap(), "mine");
    assert_eq!(m.get_item_content(2), Err(AppError::Decryption));
    assert_eq!(m.get_item_content(3), Err(AppError::Decryption));
    assert_eq!(m.get_content_by_offset(0).unwrap().as_deref(), Some("mine"));
    assert_eq!(m.get_content_by_offset(1), Ok(None));
    assert_eq!(m.get_content_by_offset(2), Ok(None));
    assert_eq!(m.get_content_by_offset(3), Ok(None));
    let items = m.get_items("all".to_string(), None, 10, 0);
    assert_eq!(items.len(), 3);
    assert_eq!(items[0].content_value.as_deref(), Some("mine"));
    assert_eq!(items[1].content_value, None);
    assert_eq!(items[1].preview.as_deref(), Some("lost"));
    assert_eq!(items[1].hash, "broken");
    assert_eq!(items[2].content_value, None);
    assert_eq!(items[2].preview, None);
    assert_eq!(items[2].id, 3);
}

#[test]
fn columns_are_read_as_a_row() {
    let columns = clipboard_history::RowColumns {
        id: 4,
        hash: "h".to_string(),
        content_type: "link".to_string(),
        encrypted_content: "aa".to_string(),
        encrypted_preview: None,
        content_size_bytes: 12,
        source_app_name: Some("browser".to_string()),
        first_copied_at: 5,
        last_copied_at: 9,
        times_copied: 3,
        is_pinned: 1,
    };
    let row = StoredRow::from_columns(columns).unwrap();
    assert_eq!(row.id, 4);
    assert_eq!(row.hash, "h");
    assert_eq!(row.content_type, ContentType::Link);
    assert_eq!(row.encrypted_content, "aa");
    assert_eq!(row.encrypted_preview, None);
    assert_eq!(row.content_size_bytes, 12);
    assert_eq!(row.source_app_name.as_deref(), Some("browser"));
    assert_eq!(row.first_copied_at, 5);
    assert_eq!(row.last_copied_at, 9);
    assert_eq!(row.times_copied, 3);
    assert!(row.is_pinned);
}

#[test]
fn an_unknown_kind_word_is_read_as_text_and_only_one_pins() {
    let columns = |kind: &str, pinned: i64, size: i64, times: i64| clipboard_history::RowColumns {
        id: 1,
        hash: "h".to_string(),
        content_type: kind.to_string(),
        encrypted_content: String::new(),
        encrypted_preview: None,
        content_size_bytes: size,
        source_app_name: None,
        first_copied_at: 0,
        last_copied_at: 0,
        times_copied: times,
        is_pinned: pinned,
    };
    let row = StoredRow::from_columns(columns("video", 2, 0, 1)).unwrap();
    assert_eq!(row.content_type, ContentType::Text);
    assert!(!row.is_pinned);
    assert!(!StoredRow::from_columns(columns("text", 0, 0, 1)).unwrap().is_pinned);
    assert_eq!(
        StoredRow::from_columns(columns("text", 0, -1, 1)).err(),
        Some(AppError::InvalidRows)
    );
    assert_eq!(
        StoredRow::from_columns(columns("text", 0, 0, 0)).err(),
        Some(AppError::InvalidRows)
    );
}

#[test]
fn a_row_is_read_back_from_its_columns() {
    let mut m = ClipboardHistoryManager::new_for_test();
    m.add_item_at(
        "h".to_string(),
        ContentType::Color,
        "#abcdef".to_string(),
        Some("picker".to_string()),
        77,
        &N1,
        &N2,
    )
    .unwrap();
    m.toggle_pin(1);
    let row = &m.rows()[0];
    let columns = row.to_columns();
    assert_eq!(columns.content_type, "color");
    assert_eq!(columns.is_pinned, 1);
    assert_eq!(columns.times_copied, 1);
    assert_eq!(columns.content_size_bytes, 7);
    let back = StoredRow::from_columns(columns).unwrap();
    assert_eq!(back.id, row.id);
    assert_eq!(back.hash, row.hash);
    assert_eq!(back.content_type, row.content_type);
    assert_eq!(back.encrypted_content, row.encrypted_content);
    assert_eq!(back.encrypted_preview, row.encrypted_preview);
    assert_eq!(back.content_size_bytes, row.content_size_bytes);
    assert_eq!(back.source_app_name, row.source_app_name);
    assert_eq!(back.first_copied_at, row.first_copied_at);
    assert_eq!(back.last_copied_at, row.last_copied_at);
    assert_eq!(back.times_copied, row.times_copied);
    assert_eq!(back.is_pinned, row.is_pinned);
    let copy = row.clone();
    assert_eq!(copy.hash, row.hash);
    assert_eq!(copy.encrypted_content, row.encrypted_content);
}

#[test]
fn the_last_copy_of_a_row_never_moves_back() {
    let mut m = ClipboardHistoryManager::new_for_test();
    add(&mut m, "a", ContentType::Text, "a", 100);
    add(&mut m, "b", ContentType::Text, "b", 200);
    assert_eq!(m.item_was_copied_at(1, 10), 1);
    let row = m.rows().iter().find(|r| r.id == 1).unwrap();
    assert_eq!(row.first_copied_at, 100);
    assert_eq!(row.last_copied_at, 100);
    assert_eq!(row.times_copied, 2);
    add(&mut m, "b", ContentType::Text, "b", 150);
    let row = m.rows().iter().find(|r| r.id == 2).unwrap();
    assert_eq!(row.first_copied_at, 200);
    assert_eq!(row.last_copied_at, 200);
    assert_eq!(row.times_copied, 2);
    let order: Vec<i64> = m.rows().iter().map(|r| r.id).collect();
    assert_eq!(order, vec![2, 1]);
    for row in m.rows() {
        assert!(row.last_copied_at >= row.first_copied_at);
    }
}

#[test]
fn a_later_copy_moves_the_last_copy_forward() {
    let mut m = ClipboardHistoryManager::new_for_test();
    add(&mut m, "a", ContentType::Text, "a", 100);
    add(&mut m, "a", ContentType::Text, "a", 101);
    assert_eq!(m.rows()[0].last_copied_at, 101);
    assert_eq!(m.item_was_copied_at(1, 102), 1);
    assert_eq!(m.rows()[0].last_copied_at, 102);
    assert_eq!(m.rows()[0].first_copied_at, 100);
    assert_eq!(m.rows()[0].times_copied, 3);
}
