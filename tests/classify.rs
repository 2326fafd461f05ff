use audio_tags::classify::{is_audio, is_audio_type};

#[test]
fn mp3_is_audio() {
    assert!(is_audio("/music/a.mp3"));
}

#[test]
fn flac_and_ogg_are_audio() {
    assert!(is_audio("x/track.flac"));
    assert!(is_audio("x/track.ogg"));
}

#[test]
fn text_is_not_audio() {
    assert!(!is_audio("/music/notes.txt"));
}

#[test]
fn image_is_not_audio() {
    assert!(!is_audio("/music/cover.jpg"));
}

#[test]
fn no_extension_is_not_audio() {
    assert!(!is_audio("/music/README"));
}

#[test]
fn unknown_extension_is_not_audio() {
    assert!(!is_audio("/music/a.zzqqx"));
}

#[test]
fn audio_type_name_is_compared_exactly() {
    assert!(is_audio_type(&Some("audio".to_string())));
    assert!(!is_audio_type(&Some("audiox".to_string())));
    assert!(!is_audio_type(&Some("text".to_string())));
    assert!(!is_audio_type(&None));
}
