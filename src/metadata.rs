use vstd::prelude::*;
use crate::track::Track;

verus! {

/// What `std::path::Path::extension` gives for a path: the part of the file name after its
/// last dot, if any.
pub uninterp spec fn path_extension(path: Seq<char>) -> Option<Seq<char>>;

/// What `std::path::Path::file_name` gives for a path: its final component, if any.
pub uninterp spec fn path_file_name(path: Seq<char>) -> Option<Seq<char>>;

/// Relies on std::path::Path::extension, read back as a string.
#[verifier::external_body]
fn extension(path: &str) -> (r: Option<String>)
    ensures
        r.is_some() == path_extension(path@).is_some(),
        r.is_some() ==> r.unwrap()@ == path_extension(path@).unwrap(),
{
    std::path::Path::new(path).extension().and_then(|e| e.to_str()).map(|e| e.to_owned())
}

/// Relies on std::path::Path::file_name, read back as a string.
#[verifier::external_body]
fn file_name(path: &str) -> (r: Option<String>)
    ensures
        r.is_some() == path_file_name(path@).is_some(),
        r.is_some() ==> r.unwrap()@ == path_file_name(path@).unwrap(),
{
    std::path::Path::new(path).file_name().and_then(|f| f.to_str()).map(|f| f.to_owned())
}

/// `s` without `suffix`, when `s` ends with `suffix`.
pub open spec fn without_suffix(s: Seq<char>, suffix: Seq<char>) -> Option<Seq<char>> {
    if suffix.len() <= s.len() && s.subrange(s.len() - suffix.len(), s.len() as int) == suffix {
        Some(s.subrange(0, s.len() - suffix.len()))
    } else {
        None
    }
}

/// Relies on str::strip_suffix: the string without the suffix when it ends with it.
#[verifier::external_body]
fn strip_suffix(s: &str, suffix: &str) -> (r: Option<String>)
    ensures
        r.is_some() == without_suffix(s@, suffix@).is_some(),
        r.is_some() ==> r.unwrap()@ == without_suffix(s@, suffix@).unwrap(),
{
    s.strip_suffix(suffix).map(|p| p.to_owned())
}

/// The extension of a path with its leading dot, if it has one.
pub open spec fn dotted_extension(path: Seq<char>) -> Option<Seq<char>> {
    match path_extension(path) {
        Some(e) => Some("."@ + e),
        None => None,
    }
}

/// The extension of `path`, with its leading dot (`".mp3"`), if it has one.
pub fn get_extension(path: &str) -> (r: Option<String>)
    ensures
        r.is_some() == dotted_extension(path@).is_some(),
        r.is_some() ==> r.unwrap()@ == dotted_extension(path@).unwrap(),
{
    match extension(path) {
        Some(e) => {
            let mut dotted = ".".to_owned();
            dotted.append(e.as_str());
            Some(dotted)
        },
        None => None,
    }
}

/// The extensions of the audio formats the player decodes.
pub open spec fn is_audio_extension(ext: Seq<char>) -> bool {
    ext == ".mp3"@ || ext == ".wav"@ || ext == ".ogg"@ || ext == ".flac"@
}

/// Whether a directory entry is a supported audio file: a regular file whose extension is
/// that of a supported format.
pub fn is_audio(is_file: bool, path: &str) -> (r: bool)
    ensures
        r == (is_file && dotted_extension(path@).is_some() && is_audio_extension(
            dotted_extension(path@).unwrap(),
        )),
{
    if !is_file {
        return false;
    }
    match get_extension(path) {
        Some(ext) => {
            ext == ".mp3".to_owned() || ext == ".wav".to_owned() || ext == ".ogg".to_owned() || ext
                == ".flac".to_owned()
        },
        None => false,
    }
}

/// The tracks of a scan whose duration could be read, in scan order.
pub open spec fn readable_tracks(scanned: Seq<(String, Option<u64>)>) -> Seq<Track>
    decreases scanned.len(),
{
    if scanned.len() == 0 {
        seq![]
    } else {
        let rest = readable_tracks(scanned.drop_last());
        match scanned.last().1 {
            Some(d) => rest.push(Track { path: scanned.last().0, duration_ms: d }),
            None => rest,
        }
    }
}

/// The catalog found by a scan: each scanned audio file with the duration read from it, in
/// milliseconds, or `None` where it could not be read. Unreadable files are left out; the
/// others keep their order.
pub fn collect_tracks(scanned: Vec<(String, Option<u64>)>) -> (r: Vec<Track>)
    ensures
        r@ == readable_tracks(scanned@),
{
    let mut found: Vec<Track> = Vec::new();
    let mut k: usize = 0;
    while k < scanned.len()
        invariant
            k <= scanned@.len(),
            found@ == readable_tracks(scanned@.subrange(0, k as int)),
        decreases scanned@.len() - k,
    {
        assert(scanned@.subrange(0, k + 1).drop_last() =~= scanned@.subrange(0, k as int));
        match scanned[k].1 {
            Some(d) => {
                found.push(Track { path: scanned[k].0.clone(), duration_ms: d });
            },
            None => {},
        }
        k = k + 1;
    }
    assert(scanned@.subrange(0, scanned@.len() as int) =~= scanned@);
    found
}

/// The first picture embedded in a tag: its bytes and, if the tag names it, its MIME type.
pub struct Picture {
    pub data: Vec<u8>,
    pub mimetype: Option<String>,
}

/// What a file's tag says, as read from it.
pub struct TagInfo {
    pub title: Option<String>,
    pub artist: Option<String>,
    pub album: Option<String>,
    pub picture: Option<Picture>,
}

/// What the player shows of a track. Fields the file does not provide read "Unknown" (a
/// missing picture stays `None`, a missing duration is 0).
pub struct Metadata {
    pub title: String,
    pub artist: String,
    pub album: String,
    pub picture: Option<Vec<u8>>,
    pub mimetype: String,
    pub duration: u64,
}

/// A text field, or "Unknown" where it is missing.
pub open spec fn or_unknown(s: Option<String>) -> Seq<char> {
    match s {
        Some(x) => x@,
        None => "Unknown"@,
    }
}

/// The file name of `path` without its dotted extension.
pub open spec fn file_stem_title(path: Seq<char>) -> Option<Seq<char>> {
    match path_file_name(path) {
        Some(name) => without_suffix(
            name,
            match dotted_extension(path) {
                Some(e) => e,
                None => seq![],
            },
        ),
        None => None,
    }
}

/// The title shown for a track: the tag's title, else the file name without its extension.
pub open spec fn shown_title(path: Seq<char>, tag: Option<TagInfo>) -> Option<Seq<char>> {
    match tag {
        Some(t) if t.title.is_some() => Some(t.title.unwrap()@),
        _ => file_stem_title(path),
    }
}

fn or_unknown_string(s: Option<String>) -> (r: String)
    ensures
        r@ == or_unknown(s),
{
    match s {
        Some(x) => x,
        None => "Unknown".to_owned(),
    }
}

/// The title for `path` when its tag has none: the file name without its dotted extension.
fn title_from_path(path: &str) -> (r: Option<String>)
    ensures
        r.is_some() == file_stem_title(path@).is_some(),
        r.is_some() ==> r.unwrap()@ == file_stem_title(path@).unwrap(),
{
    let ext = match get_extension(path) {
        Some(e) => e,
        None => String::new(),
    };
    match file_name(path) {
        Some(name) => strip_suffix(name.as_str(), ext.as_str()),
        None => None,
    }
}

impl Metadata {
    /// Builds the metadata of the file at `path` from its tag, if it has one, and from its
    /// duration in whole seconds, if it could be read.
    pub fn from_parts(path: String, tag: Option<TagInfo>, duration_secs: Option<u64>) -> (r: Metadata)
        ensures
            r.title@ == match shown_title(path@, tag) {
                Some(t) => t,
                None => "Unknown"@,
            },
            r.artist@ == match tag {
                Some(t) => or_unknown(t.artist),
                None => "Unknown"@,
            },
            r.album@ == match tag {
                Some(t) => or_unknown(t.album),
                None => "Unknown"@,
            },
            r.picture == match tag {
                Some(TagInfo { picture: Some(p), .. }) => Some(p.data),
                _ => None::<Vec<u8>>,
            },
            r.mimetype@ == match tag {
                Some(TagInfo { picture: Some(p), .. }) => or_unknown(p.mimetype),
                _ => "Unknown"@,
            },
            r.duration == match duration_secs {
                Some(d) => d,
                None => 0,
            },
    {
        let stem = title_from_path(path.as_str());
        let duration = match duration_secs {
            Some(d) => d,
            None => 0,
        };
        match tag {
            Some(t) => {
                let title = match t.title {
                    Some(x) => x,
                    None => or_unknown_string(stem),
                };
                let (picture, mimetype) = match t.picture {
                    Some(p) => (Some(p.data), or_unknown_string(p.mimetype)),
                    None => (None, or_unknown_string(None)),
                };
                Metadata {
                    title,
                    artist: or_unknown_string(t.artist),
                    album: or_unknown_string(t.album),
                    picture,
                    mimetype,
                    duration,
                }
            },
            None => Metadata {
                title: or_unknown_string(stem),
                artist: or_unknown_string(None),
                album: or_unknown_string(None),
                picture: None,
                mimetype: or_unknown_string(None),
                duration,
            },
        }
    }
}

} // verus!
