//! Where a replay's thumbnail is kept, how ffmpeg is asked to make it, and what its
//! answer means.
use vstd::prelude::*;

use crate::path::{
    extension, file_name, file_stem, is_plain_name, is_void_piece, join, last_dot, normalize_back,
    parent, path_file_stem, piece_start, body_start,
};
use crate::path_laws::{law_join_file_name, law_join_parent, lemma_piece_start_no_sep_suffix};

verus! {

/// Why a thumbnail could not be made.
pub enum ThumbnailError {
    /// The video's path has no file stem to name the thumbnail after.
    EmptyName,
    /// The file system refused an operation; its message.
    Io(String),
    /// No `ffmpeg` program was found on the search path.
    FfmpegNotFound,
    /// ffmpeg ran and failed; what it wrote to its error stream.
    FfmpegFailed(String),
    /// ffmpeg failed and what it wrote to its error stream is not UTF-8; the decoding
    /// error's text.
    UnreadableOutput(String),
}

impl ThumbnailError {
    /// The text that reports the error.
    pub fn message(&self) -> (r: String)
        ensures
            r@ == match self {
                ThumbnailError::EmptyName => "Video name is empty"@,
                ThumbnailError::Io(m) => m@,
                ThumbnailError::FfmpegNotFound => "ffmpeg not found in path, please install it or add it to path"@,
                ThumbnailError::FfmpegFailed(m) => m@,
                ThumbnailError::UnreadableOutput(m) => m@,
            },
    {
        match self {
            ThumbnailError::EmptyName => String::from_str("Video name is empty"),
            ThumbnailError::Io(m) => m.clone(),
            ThumbnailError::FfmpegNotFound => String::from_str(
                "ffmpeg not found in path, please install it or add it to path",
            ),
            ThumbnailError::FfmpegFailed(m) => m.clone(),
            ThumbnailError::UnreadableOutput(m) => m.clone(),
        }
    }
}

/// The directory, inside the replay folder, that holds the thumbnails.
pub open spec fn thumbnail_dir_of(folder: Seq<char>) -> Seq<char> {
    folder + "/.thumbnails"@
}

/// The file name of the thumbnail of a video whose stem is `stem`.
pub open spec fn thumbnail_name_of(stem: Seq<char>) -> Seq<char> {
    "Thumbnail_"@ + stem + ".png"@
}

/// The path of the thumbnail of a video whose stem is `stem`.
pub open spec fn thumbnail_path_of(folder: Seq<char>, stem: Seq<char>) -> Seq<char> {
    thumbnail_dir_of(folder) + "/"@ + thumbnail_name_of(stem)
}

/// The directory in which the thumbnails of the replays in `folder` are kept.
pub fn thumbnail_dir(folder: &str) -> (r: String)
    ensures
        r@ == thumbnail_dir_of(folder@),
{
    let mut r = String::from_str(folder);
    r.append("/.thumbnails");
    r
}

/// The path of the thumbnail for the video at `videopath`, kept in `folder`; an error
/// when the video's path has no stem.
pub fn thumbnail_path(videopath: &str, folder: &str) -> (r: Result<String, ThumbnailError>)
    ensures
        match file_stem(videopath@) {
            Some(stem) => r matches Ok(p) && p@ == thumbnail_path_of(folder@, stem),
            None => r matches Err(ThumbnailError::EmptyName),
        },
{
    match path_file_stem(videopath) {
        Some(stem) => {
            let mut r = thumbnail_dir(folder);
            r.append("/");
            r.append("Thumbnail_");
            r.append(stem.as_str());
            r.append(".png");
            assert(r@ =~= thumbnail_path_of(folder@, stem@));
            Ok(r)
        },
        None => Err(ThumbnailError::EmptyName),
    }
}

/// The views of the arguments handed to ffmpeg.
pub open spec fn ffmpeg_args_of(time: Seq<char>, video: Seq<char>, thumbnail: Seq<char>) -> Seq<
    Seq<char>,
> {
    seq![
        "-hwaccel"@, "auto"@, "-strict"@, "experimental"@, "-ss"@, time, "-i"@, video,
        "-frames:v"@, "1"@, "-pix_fmt"@, "yuv420p"@, "-vf"@, "scale=640:360"@, "-f"@,
        "image2"@, "-q:v"@, "2"@, "-an"@, "-y"@, thumbnail,
    ]
}

/// The arguments with which ffmpeg writes one frame of `video`, taken `time` seconds
/// in, as a 640x360 image at `thumbnail`, overwriting what is there.
pub fn ffmpeg_args(time: &str, video: &str, thumbnail: &str) -> (r: Vec<String>)
    ensures
        r@.map_values(|s: String| s@) == ffmpeg_args_of(time@, video@, thumbnail@),
{
    let mut r: Vec<String> = Vec::new();
    r.push(String::from_str("-hwaccel"));
    r.push(String::from_str("auto"));
    r.push(String::from_str("-strict"));
    r.push(String::from_str("experimental"));
    r.push(String::from_str("-ss"));
    r.push(String::from_str(time));
    r.push(String::from_str("-i"));
    r.push(String::from_str(video));
    r.push(String::from_str("-frames:v"));
    r.push(String::from_str("1"));
    r.push(String::from_str("-pix_fmt"));
    r.push(String::from_str("yuv420p"));
    r.push(String::from_str("-vf"));
    r.push(String::from_str("scale=640:360"));
    r.push(String::from_str("-f"));
    r.push(String::from_str("image2"));
    r.push(String::from_str("-q:v"));
    r.push(String::from_str("2"));
    r.push(String::from_str("-an"));
    r.push(String::from_str("-y"));
    r.push(String::from_str(thumbnail));
    assert(r@.map_values(|s: String| s@) =~= ffmpeg_args_of(time@, video@, thumbnail@));
    r
}

/// The text of the error that `String::from_utf8` gives for `bytes` when they are not
/// well-formed UTF-8. It depends on the bytes alone.
pub uninterp spec fn utf8_error_text(bytes: Seq<u8>) -> Seq<char>;

/// `String::from_utf8`: the bytes decoded when they are well-formed UTF-8; otherwise
/// the text of its error, which the contract only names (`utf8_error_text`).
#[verifier::external_body]
fn decode_utf8_bytes(bytes: Vec<u8>) -> (r: Result<String, String>)
    ensures
        r is Ok <==> vstd::utf8::valid_utf8(bytes@),
        r matches Ok(s) ==> s@ == vstd::utf8::decode_utf8(bytes@),
        r matches Err(t) ==> t@ == utf8_error_text(bytes@),
{
    String::from_utf8(bytes).map_err(|e| e.to_string())
}

/// Whether ffmpeg is to be run: not when an existing thumbnail may be kept and one exists.
pub fn needs_rendering(check_exists: bool, exists: bool) -> (r: bool)
    ensures
        r == !(check_exists && exists),
{
    !(check_exists && exists)
}

/// What a run of ffmpeg that exited with `success` and wrote `stderr` to its error
/// stream gives: the thumbnail's path, or the reason it failed.
pub fn thumbnail_result(success: bool, stderr: Vec<u8>, thumbnail_path: String) -> (r: Result<
    String,
    ThumbnailError,
>)
    ensures
        success ==> r == Ok::<String, ThumbnailError>(thumbnail_path),
        !success && vstd::utf8::valid_utf8(stderr@) ==> (r matches Err(
            ThumbnailError::FfmpegFailed(m),
        ) && m@ == vstd::utf8::decode_utf8(stderr@)),
        !success && !vstd::utf8::valid_utf8(stderr@) ==> (r matches Err(
            ThumbnailError::UnreadableOutput(t),
        ) && t@ == utf8_error_text(stderr@)),
{
    if success {
        Ok(thumbnail_path)
    } else {
        match decode_utf8_bytes(stderr) {
            Ok(message) => Err(ThumbnailError::FfmpegFailed(message)),
            Err(text) => Err(ThumbnailError::UnreadableOutput(text)),
        }
    }
}

/// A thumbnail lies in the thumbnail directory of its folder, under the name
/// `Thumbnail_<stem>.png`: its parent is that directory, its stem `Thumbnail_<stem>`
/// and its extension `png`.
pub proof fn law_thumbnail_location(folder: Seq<char>, stem: Seq<char>)
    requires
        !stem.contains('/'),
    ensures
        thumbnail_path_of(folder, stem) == join(thumbnail_dir_of(folder), thumbnail_name_of(stem)),
        parent(thumbnail_path_of(folder, stem)) == Some(thumbnail_dir_of(folder)),
        file_name(thumbnail_path_of(folder, stem)) == Some(thumbnail_name_of(stem)),
        file_stem(thumbnail_path_of(folder, stem)) == Some("Thumbnail_"@ + stem),
        extension(thumbnail_path_of(folder, stem)) == Some("png"@),
{
    reveal_strlit("/.thumbnails");
    reveal_strlit("Thumbnail_");
    reveal_strlit(".png");
    reveal_strlit("/");
    reveal_strlit("png");
    let dir = thumbnail_dir_of(folder);
    let name = thumbnail_name_of(stem);
    let prefix = "Thumbnail_"@ + stem;
    assert(name =~= prefix + ".png"@);
    assert(!name.contains('/')) by {
        if name.contains('/') {
            let i = choose|i: int| 0 <= i < name.len() && name[i] == '/';
            if i >= 10 && i < 10 + stem.len() {
                assert(stem[i - 10] == '/');
                assert(stem.contains(stem[i - 10]));
            }
        }
    }
    assert(is_plain_name(name)) by {
        assert(name.len() >= 14);
        assert(name.len() != seq!['.'].len());
        assert(name.len() != seq!['.', '.'].len());
    }
    assert(dir.last() == 's');
    assert(thumbnail_path_of(folder, stem) =~= dir + seq!['/'] + name);
    law_join_file_name(dir, name);
    law_join_parent(dir, name);
    // The thumbnail directory ends in a name, so it is already normalized.
    let lo = body_start(dir);
    let a = folder + "/"@;
    let b = ".thumbnails"@;
    reveal_strlit(".thumbnails");
    assert(dir =~= a + b);
    assert(!b.contains('/')) by {
        if b.contains('/') {
            let i = choose|i: int| 0 <= i < b.len() && b[i] == '/';
        }
    }
    assert(lo <= a.len()) by {
        if folder.len() == 0 {
            assert(a =~= seq!['/']);
        }
    }
    lemma_piece_start_no_sep_suffix(a, b, lo);
    assert(piece_start(a, lo) == a.len());
    assert(dir.subrange(a.len() as int, dir.len() as int) =~= b);
    assert(!is_void_piece(b)) by {
        assert(b.len() != seq!['.'].len());
    }
    assert(normalize_back(dir) == dir);
    // The stem and extension split at the dot of `.png`.
    assert(last_dot(name) == prefix.len()) by {
        let n1 = name.drop_last();
        let n2 = n1.drop_last();
        let n3 = n2.drop_last();
        assert(name.last() == 'g');
        assert(n1.last() == 'n');
        assert(n2.last() == 'p');
        assert(n3.last() == '.');
        assert(n3.len() - 1 == prefix.len());
        assert(last_dot(n3) == n3.len() - 1);
        assert(last_dot(n2) == last_dot(n3));
        assert(last_dot(n1) == last_dot(n2));
        assert(last_dot(name) == last_dot(n1));
    }
    assert(name.subrange(0, prefix.len() as int) =~= prefix);
    assert(name.subrange(prefix.len() as int + 1, name.len() as int) =~= "png"@);
}

} // verus!
