use vstd::prelude::*;

verus! {

/// The top-level MIME type (such as `audio` or `text`) of the first type that
/// the extension of `path` is registered for, if any.
pub uninterp spec fn guessed_top_level_type(path: Seq<char>) -> Option<Seq<char>>;

/// Whether a path names an audio file, judged by its name alone.
pub open spec fn audio_path(path: Seq<char>) -> bool {
    guessed_top_level_type(path) == Some("audio"@)
}

/// Relies on `mime_guess::from_path` and `MimeGuess::first`: the guess reads the
/// path's extension against a fixed table, so it depends on the path alone.
#[verifier::external_body]
fn first_guess_top_level(path: &str) -> (r: Option<String>)
    ensures
        match r {
            Some(t) => guessed_top_level_type(path@) == Some(t@),
            None => guessed_top_level_type(path@).is_none(),
        },
{
    mime_guess::from_path(path).first().map(|m| m.type_().as_str().to_string())
}

/// Whether the top-level MIME type `top` is the audio category.
pub fn is_audio_type(top: &Option<String>) -> (r: bool)
    ensures
        r == (match top {
            Some(t) => t@ == "audio"@,
            None => false,
        }),
{
    match top {
        Some(t) => {
            let audio = String::from_str("audio");
            *t == audio
        },
        None => false,
    }
}

/// Whether `path` is a candidate audio file: the first MIME type guessed from
/// its extension belongs to the audio category. Unknown extensions are not audio.
pub fn is_audio(path: &str) -> (r: bool)
    ensures
        r == audio_path(path@),
{
    let top = first_guess_top_level(path);
    is_audio_type(&top)
}

} // verus!
