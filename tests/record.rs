use audio_tags::record::{s, Metadata, TagValues};

fn empty_metadata() -> Metadata {
    Metadata {
        title: None,
        artist: None,
        composer: None,
        album: None,
        genre: None,
        year: None,
        comment: None,
        description: None,
        duration: None,
        bitrate: None,
        chapter_count: None,
    }
}

#[test]
fn missing_numbers_become_zero() {
    let v = TagValues::from_metadata(&empty_metadata());
    assert_eq!(v.duration, 0);
    assert_eq!(v.bitrate, 0);
    assert_eq!(v.num_chapters, 0);
    assert_eq!(v.title, None);
}

#[test]
fn present_fields_are_kept() {
    let mut m = empty_metadata();
    m.title = Some("Song A".to_string());
    m.artist = Some("Band".to_string());
    m.year = Some("1999".to_string());
    m.duration = Some(215);
    m.bitrate = Some(320000);
    m.chapter_count = Some(3);
    let v = TagValues::from_metadata(&m);
    assert_eq!(v.title.as_deref(), Some("Song A"));
    assert_eq!(v.artist.as_deref(), Some("Band"));
    assert_eq!(v.year.as_deref(), Some("1999"));
    assert_eq!(v.album, None);
    assert_eq!(v.duration, 215);
    assert_eq!(v.bitrate, 320000);
    assert_eq!(v.num_chapters, 3);
}

#[test]
fn explicit_zero_is_kept() {
    let mut m = empty_metadata();
    m.duration = Some(0);
    m.bitrate = Some(128);
    let v = TagValues::from_metadata(&m);
    assert_eq!(v.duration, 0);
    assert_eq!(v.bitrate, 128);
    assert_eq!(v.num_chapters, 0);
}

#[test]
fn absent_text_renders_empty() {
    assert_eq!(s(&None), "");
    assert_eq!(s(&Some("Album".to_string())), "Album");
}
