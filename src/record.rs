use vstd::prelude::*;

verus! {

/// What the metadata extractor reports for one file: every field may be absent.
#[derive(Clone, Debug)]
pub struct Metadata {
    pub title: Option<String>,
    pub artist: Option<String>,
    pub composer: Option<String>,
    pub album: Option<String>,
    pub genre: Option<String>,
    pub year: Option<String>,
    pub comment: Option<String>,
    pub description: Option<String>,
    pub duration: Option<i64>,
    pub bitrate: Option<i64>,
    pub chapter_count: Option<i64>,
}

/// The metadata columns of one row of the tag table. Text columns stay
/// optional; the numeric columns always hold a number.
#[derive(Clone, Debug)]
pub struct TagValues {
    pub title: Option<String>,
    pub artist: Option<String>,
    pub composer: Option<String>,
    pub album: Option<String>,
    pub genre: Option<String>,
    pub year: Option<String>,
    pub comment: Option<String>,
    pub description: Option<String>,
    pub duration: i64,
    pub bitrate: i64,
    pub num_chapters: i64,
}

/// An absent number is stored as zero.
pub open spec fn or_zero(n: Option<i64>) -> i64 {
    match n {
        Some(v) => v,
        None => 0,
    }
}

/// The columns stored for a file whose extractor output is `m`.
pub open spec fn values_of(m: Metadata) -> TagValues {
    TagValues {
        title: m.title,
        artist: m.artist,
        composer: m.composer,
        album: m.album,
        genre: m.genre,
        year: m.year,
        comment: m.comment,
        description: m.description,
        duration: or_zero(m.duration),
        bitrate: or_zero(m.bitrate),
        num_chapters: or_zero(m.chapter_count),
    }
}

/// How an optional text column is written out: its text, or nothing.
pub open spec fn rendered(o: Option<String>) -> Seq<char> {
    match o {
        Some(t) => t@,
        None => Seq::empty(),
    }
}

/// A copy of an optional text, equal to it.
pub(crate) fn copy_text(o: &Option<String>) -> (r: Option<String>)
    ensures
        r == *o,
{
    match o {
        Some(t) => Some(t.clone()),
        None => None,
    }
}

fn number_or_zero(n: Option<i64>) -> (r: i64)
    ensures
        r == or_zero(n),
{
    match n {
        Some(v) => v,
        None => 0,
    }
}

impl TagValues {
    /// The columns to store for extractor output `m`: text fields as reported,
    /// absent numbers as zero.
    pub fn from_metadata(m: &Metadata) -> (r: TagValues)
        ensures
            r == values_of(*m),
            m.duration.is_none() ==> r.duration == 0,
            m.bitrate.is_none() ==> r.bitrate == 0,
            m.chapter_count.is_none() ==> r.num_chapters == 0,
    {
        TagValues {
            duration: number_or_zero(m.duration),
            bitrate: number_or_zero(m.bitrate),
            num_chapters: number_or_zero(m.chapter_count),
            title: copy_text(&m.title),
            artist: copy_text(&m.artist),
            composer: copy_text(&m.composer),
            album: copy_text(&m.album),
            genre: copy_text(&m.genre),
            year: copy_text(&m.year),
            comment: copy_text(&m.comment),
            description: copy_text(&m.description),
        }
    }
}

/// The text of an optional column for listing: the empty string when absent.
pub fn s(o: &Option<String>) -> (r: &str)
    ensures
        r@ == rendered(*o),
{
    match o {
        Some(t) => t.as_str(),
        None => {
            proof {
                reveal_strlit("");
            }
            ""
        },
    }
}

} // verus!
