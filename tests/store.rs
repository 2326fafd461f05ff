use audio_tags::reconcile::{check_rows_affected, plan_upsert, StoreAction};
use audio_tags::record::TagValues;
use audio_tags::store::{StoreError, TagTable};

fn values(title: &str) -> TagValues {
    TagValues {
        title: Some(title.to_string()),
        artist: None,
        composer: None,
        album: None,
        genre: None,
        year: None,
        comment: None,
        description: None,
        duration: 10,
        bitrate: 20,
        num_chapters: 0,
    }
}

#[test]
fn insert_assigns_increasing_ids() {
    let mut t = TagTable::new();
    assert_eq!(t.insert("a.mp3".to_string(), values("A"), 5), Ok(1));
    assert_eq!(t.insert("b.mp3".to_string(), values("B"), 5), Ok(2));
    assert_eq!(t.len(), 2);
    assert_eq!(t.find_id_by_path("b.mp3"), Some(2));
    assert_eq!(t.find_id_by_path("c.mp3"), None);
}

#[test]
fn insert_of_known_path_is_refused() {
    let mut t = TagTable::new();
    assert_eq!(t.insert("a.mp3".to_string(), values("A"), 5), Ok(1));
    assert_eq!(t.insert("a.mp3".to_string(), values("B"), 6), Err(StoreError::DuplicatePath));
    assert_eq!(t.len(), 1);
}

#[test]
fn update_of_unknown_id_affects_no_row() {
    let mut t = TagTable::new();
    assert_eq!(t.update(7, values("A"), 5), Err(StoreError::RowsAffected(0)));
}

#[test]
fn update_rewrites_columns_and_timestamp() {
    let mut t = TagTable::new();
    t.insert("a.mp3".to_string(), values("A"), 5).unwrap();
    assert_eq!(t.update(1, values("New"), 3), Ok(()));
    let rows = t.list_all();
    assert_eq!(rows.len(), 1);
    assert_eq!(rows[0].id, 1);
    assert_eq!(rows[0].values.title.as_deref(), Some("New"));
    assert_eq!(rows[0].ts, 3);
}

#[test]
fn timestamps_are_the_time_of_the_write() {
    let mut t = TagTable::new();
    t.insert("a.mp3".to_string(), values("A"), 100).unwrap();
    t.insert("b.mp3".to_string(), values("B"), 100).unwrap();
    t.insert("c.mp3".to_string(), values("C"), 500).unwrap();
    let rows = t.list_all();
    assert_eq!(rows[0].ts, 100);
    assert_eq!(rows[1].ts, 100);
    assert_eq!(rows[2].ts, 500);
}

#[test]
fn delete_all_reports_count() {
    let mut t = TagTable::new();
    t.insert("a.mp3".to_string(), values("A"), 1).unwrap();
    t.insert("b.mp3".to_string(), values("B"), 1).unwrap();
    assert_eq!(t.delete_all(), 2);
    assert_eq!(t.list_all().len(), 0);
    assert_eq!(t.delete_all(), 0);
}

#[test]
fn ids_are_not_reused_after_clear() {
    let mut t = TagTable::new();
    t.insert("a.mp3".to_string(), values("A"), 1).unwrap();
    t.delete_all();
    assert_eq!(t.insert("a.mp3".to_string(), values("A"), 2), Ok(2));
}

#[test]
fn plan_updates_found_row() {
    match plan_upsert("a.mp3".to_string(), Some(4), values("A")) {
        StoreAction::Update { id, values } => {
            assert_eq!(id, 4);
            assert_eq!(values.title.as_deref(), Some("A"));
        }
        StoreAction::Insert { .. } => panic!("expected an update"),
    }
}

#[test]
fn plan_inserts_unknown_path() {
    match plan_upsert("a.mp3".to_string(), None, values("A")) {
        StoreAction::Insert { path, values } => {
            assert_eq!(path, "a.mp3");
            assert_eq!(values.title.as_deref(), Some("A"));
        }
        StoreAction::Update { .. } => panic!("expected an insert"),
    }
}

#[test]
fn rows_affected_must_be_one() {
    assert_eq!(check_rows_affected(1), Ok(()));
    assert_eq!(check_rows_affected(0), Err(StoreError::RowsAffected(0)));
    assert_eq!(check_rows_affected(2), Err(StoreError::RowsAffected(2)));
}

#[test]
fn reconcile_inserts_then_updates() {
    let mut t = TagTable::new();
    assert_eq!(t.reconcile("a.mp3".to_string(), values("A"), 10), Ok(1));
    assert_eq!(t.reconcile("b.mp3".to_string(), values("B"), 10), Ok(2));
    assert_eq!(t.reconcile("a.mp3".to_string(), values("A2"), 25), Ok(1));
    let rows = t.list_all();
    assert_eq!(rows.len(), 2);
    assert_eq!(rows[0].path, "a.mp3");
    assert_eq!(rows[0].values.title.as_deref(), Some("A2"));
    assert_eq!(rows[0].ts, 25);
    assert_eq!(rows[1].ts, 10);
}
