use audio_tags::order::path_before;
use audio_tags::record::TagValues;
use audio_tags::store::TagTable;

fn values() -> TagValues {
    TagValues {
        title: None,
        artist: None,
        composer: None,
        album: None,
        genre: None,
        year: None,
        comment: None,
        description: None,
        duration: 0,
        bitrate: 0,
        num_chapters: 0,
    }
}

#[test]
fn path_order_is_lexicographic() {
    assert!(path_before("a.mp3", "b.mp3"));
    assert!(!path_before("b.mp3", "a.mp3"));
    assert!(path_before("a", "ab"));
    assert!(!path_before("ab", "a"));
    assert!(!path_before("same", "same"));
    assert!(path_before("", "x"));
    assert!(path_before("Z", "a"));
    assert!(path_before("/music/z", "/musicz"));
}

#[test]
fn list_is_ordered_by_path() {
    let mut t = TagTable::new();
    t.insert("c.mp3".to_string(), values(), 1).unwrap();
    t.insert("a.mp3".to_string(), values(), 1).unwrap();
    t.insert("b/x.mp3".to_string(), values(), 1).unwrap();
    t.insert("b.mp3".to_string(), values(), 1).unwrap();
    let rows = t.list_all();
    let paths: Vec<&str> = rows.iter().map(|r| r.path.as_str()).collect();
    assert_eq!(paths, vec!["a.mp3", "b.mp3", "b/x.mp3", "c.mp3"]);
    assert_eq!(rows[0].id, 2);
    assert_eq!(rows[3].id, 1);
}
