//! The allow-list of media file extensions that the scanner indexes.
use vstd::prelude::*;
use vstd::string::*;

verus! {

/// Two strings hold the same characters.
pub fn str_eq(a: &str, b: &str) -> (r: bool)
    ensures
        r == (a@ == b@),
{
    let n = a.unicode_len();
    if n != b.unicode_len() {
        return false;
    }
    let mut i: usize = 0;
    while i < n
        invariant
            n == a@.len(),
            n == b@.len(),
            i <= n,
            forall|k: int| 0 <= k < i ==> a@[k] == b@[k],
        decreases n - i,
    {
        if a.get_char(i) != b.get_char(i) {
            return false;
        }
        i = i + 1;
    }
    assert(a@ =~= b@);
    true
}

pub open spec fn image_ext(ext: Seq<char>) -> bool {
    ext == "png"@ || ext == "jpg"@ || ext == "jpeg"@ || ext == "avif"@ || ext == "webp"@
        || ext == "gif"@
}

pub open spec fn audio_ext(ext: Seq<char>) -> bool {
    ext == "mp3"@ || ext == "opus"@ || ext == "flac"@
}

pub open spec fn video_ext(ext: Seq<char>) -> bool {
    ext == "mkv"@ || ext == "mp4"@ || ext == "mov"@ || ext == "avi"@ || ext == "webm"@
}

pub open spec fn media_ext(ext: Seq<char>) -> bool {
    image_ext(ext) || audio_ext(ext) || video_ext(ext)
}

/// Whether `ext` (without the dot) names an image format.
pub fn is_image_extension(ext: &str) -> (r: bool)
    ensures
        r == image_ext(ext@),
{
    str_eq(ext, "png") || str_eq(ext, "jpg") || str_eq(ext, "jpeg") || str_eq(ext, "avif")
        || str_eq(ext, "webp") || str_eq(ext, "gif")
}

/// Whether `ext` (without the dot) names an audio format.
pub fn is_audio_extension(ext: &str) -> (r: bool)
    ensures
        r == audio_ext(ext@),
{
    str_eq(ext, "mp3") || str_eq(ext, "opus") || str_eq(ext, "flac")
}

/// Whether `ext` (without the dot) names a video format.
pub fn is_video_extension(ext: &str) -> (r: bool)
    ensures
        r == video_ext(ext@),
{
    str_eq(ext, "mkv") || str_eq(ext, "mp4") || str_eq(ext, "mov") || str_eq(ext, "avi")
        || str_eq(ext, "webm")
}

/// Whether `ext` corresponds to a media file: video, audio or image.
pub fn is_media_extension(ext: &str) -> (r: bool)
    ensures
        r == media_ext(ext@),
{
    is_image_extension(ext) || is_audio_extension(ext) || is_video_extension(ext)
}

} // verus!
