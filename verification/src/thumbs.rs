//! Previews: the first frame of a clip, kept as a picture in the cache.

use crate::config::{cache_dir, cache_place, Env, Places};
use crate::paths::{file_name, join, joined, spec_file_name, spec_stem, stem};
use crate::pipeline::mentions;
use crate::text::{decimal, push_decimal};
use vstd::prelude::*;

verus! {

/// Width of a preview in pixels; the height follows from the proportions.
pub const THUMB_WIDTH: u32 = 320;

/// Seconds that the first frame may take.
pub const PULL_TIMEOUT_SECONDS: u64 = 10;

pub open spec fn thumb_name(name: Option<Seq<char>>) -> Seq<char> {
    match name {
        Some(name) => spec_stem(name) + ".jpg"@,
        None => ".jpg"@,
    }
}

pub open spec fn thumb_place(env: Places, clip: Seq<char>) -> Seq<char> {
    joined(
        env.platform,
        joined(env.platform, cache_place(env), "thumbs"@),
        thumb_name(spec_file_name(env.platform, clip)),
    )
}

/// The preview of a clip. It is named after the clip, so no index is needed.
pub fn thumb_path(env: &Env, clip: &str) -> (path: String)
    ensures
        path@ == thumb_place(env@, clip@),
{
    let mut name = match file_name(env.platform, clip) {
        Some(name) => stem(name.as_str()),
        None => String::new(),
    };
    name.append(".jpg");
    assert(spec_file_name(env.platform, clip@) is None ==> name@ =~= ".jpg"@);
    let dir = join(env.platform, cache_dir(env).as_str(), "thumbs");
    join(env.platform, dir.as_str(), name.as_str())
}

/// What is to be done for the preview of a clip.
#[derive(Debug)]
pub enum ThumbStep {
    Ready(String),
    /// Make the picture and write it there.
    Make(String),
}

/// A preview is made only once.
pub fn ensure_thumb(path: String, present: bool) -> (step: ThumbStep)
    ensures
        step == if present {
            ThumbStep::Ready(path)
        } else {
            ThumbStep::Make(path)
        },
{
    if present {
        ThumbStep::Ready(path)
    } else {
        ThumbStep::Make(path)
    }
}

pub open spec fn spec_thumb_description() -> Seq<char> {
    "filesrc name=input ! decodebin ! videoconvert ! videoscale ! video/x-raw,width="@ + decimal(
        THUMB_WIDTH as nat,
    )
        + ",pixel-aspect-ratio=1/1 ! jpegenc ! appsink name=out max-buffers=1 drop=false sync=false"@
}

/// The pipeline that turns the first frame into a picture. Square pixels are
/// asked for: else the scaler would keep the height and leave the proportions
/// to metadata that the window does not see.
pub fn thumb_description() -> (desc: String)
    ensures
        desc@ == spec_thumb_description(),
{
    let mut desc =
        "filesrc name=input ! decodebin ! videoconvert ! videoscale ! video/x-raw,width=".to_owned();
    push_decimal(&mut desc, THUMB_WIDTH as u64);
    desc.append(
        ",pixel-aspect-ratio=1/1 ! jpegenc ! appsink name=out max-buffers=1 drop=false sync=false",
    );
    desc
}

// ----------------------------------------------------------------- the laws

/// A preview is named after its clip: the name of the clip up to its extension,
/// with another extension, in a directory of the cache. So clips of one name
/// have one preview, wherever they lie.
pub proof fn law_preview_is_named_after_its_clip(env: Places, clip: Seq<char>, name: Seq<char>)
    ensures
        spec_file_name(env.platform, clip) == Some(name) ==> thumb_place(env, clip) == joined(
            env.platform,
            joined(env.platform, cache_place(env), "thumbs"@),
            spec_stem(name) + ".jpg"@,
        ),
        spec_file_name(env.platform, clip) is None ==> thumb_place(env, clip) == joined(
            env.platform,
            joined(env.platform, cache_place(env), "thumbs"@),
            ".jpg"@,
        ),
{
}

/// A preview is a picture of a fixed width with square pixels, made of the first
/// frame alone.
pub proof fn law_preview_has_its_width()
    ensures
        mentions(spec_thumb_description(), ",width="@ + decimal(320) + ","@),
        mentions(spec_thumb_description(), ",pixel-aspect-ratio=1/1 "@),
        mentions(spec_thumb_description(), " max-buffers=1 "@),
{
    reveal_strlit(",");
    reveal_strlit(",width=");
    reveal_strlit(",pixel-aspect-ratio=1/1 ");
    reveal_strlit(" max-buffers=1 ");
    reveal_strlit("filesrc name=input ! decodebin ! videoconvert ! videoscale ! video/x-raw");
    reveal_strlit("filesrc name=input ! decodebin ! videoconvert ! videoscale ! video/x-raw,width=");
    reveal_strlit("pixel-aspect-ratio=1/1 ! jpegenc ! appsink name=out max-buffers=1 drop=false sync=false");
    reveal_strlit(",pixel-aspect-ratio=1/1 ! jpegenc ! appsink name=out max-buffers=1 drop=false sync=false");
    reveal_strlit("! jpegenc ! appsink name=out max-buffers=1 drop=false sync=false");
    reveal_strlit(",pixel-aspect-ratio=1/1 ! jpegenc ! appsink name=out");
    reveal_strlit("drop=false sync=false");
    let desc = spec_thumb_description();
    let w = decimal(320);
    let front = "filesrc name=input ! decodebin ! videoconvert ! videoscale ! video/x-raw"@;
    assert(desc =~= front + (",width="@ + w + ","@)
        + "pixel-aspect-ratio=1/1 ! jpegenc ! appsink name=out max-buffers=1 drop=false sync=false"@);
    let size = front + ",width="@ + w;
    assert(desc =~= size + ",pixel-aspect-ratio=1/1 "@
        + "! jpegenc ! appsink name=out max-buffers=1 drop=false sync=false"@);
    assert(desc =~= (size + ",pixel-aspect-ratio=1/1 ! jpegenc ! appsink name=out"@)
        + " max-buffers=1 "@ + "drop=false sync=false"@);
}

} // verus!
