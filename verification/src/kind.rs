//! What an entry of a beatmapset directory is. A file is judged by the end of
//! its name.

use crate::text::{chars_of, contains, ends_with, occurs_in};
use vstd::prelude::*;

verus! {

/// The category of an entry.
#[derive(Clone, Copy, Debug, PartialEq, Eq, Structural)]
pub enum Kind {
    /// A directory, whatever its name.
    Directory,
    /// A map definition, whose lines name the assets that the map needs.
    MapDefinition,
    /// A storyboard script.
    Storyboard,
    /// A video.
    Video,
    /// An image.
    Image,
    /// A sound.
    Sound,
    /// Anything else: such a file is never touched.
    Other,
}

/// Whether `name` ends like a map definition.
pub open spec fn is_map_definition_name(name: Seq<char>) -> bool {
    ".osu"@.is_suffix_of(name)
}

/// Whether `name` ends like a storyboard script.
pub open spec fn is_storyboard_name(name: Seq<char>) -> bool {
    "osb"@.is_suffix_of(name)
}

/// Whether `name` ends like a video.
pub open spec fn is_video_name(name: Seq<char>) -> bool {
    ||| "avi"@.is_suffix_of(name)
    ||| "flv"@.is_suffix_of(name)
    ||| "m4v"@.is_suffix_of(name)
    ||| "mkv"@.is_suffix_of(name)
    ||| "mp4"@.is_suffix_of(name)
}

/// Whether `name` ends like an image.
pub open spec fn is_image_name(name: Seq<char>) -> bool {
    ||| "jpeg"@.is_suffix_of(name)
    ||| "jpg"@.is_suffix_of(name)
    ||| "png"@.is_suffix_of(name)
}

/// Whether `name` ends like a sound.
pub open spec fn is_sound_name(name: Seq<char>) -> bool {
    ||| "mp3"@.is_suffix_of(name)
    ||| "ogg"@.is_suffix_of(name)
    ||| "wav"@.is_suffix_of(name)
}

/// Whether one of the image extensions stands somewhere in `line`.
pub open spec fn mentions_image(line: Seq<char>) -> bool {
    ||| occurs_in("jpeg"@, line)
    ||| occurs_in("jpg"@, line)
    ||| occurs_in("png"@, line)
}

/// The kind of the file called `name`. The tables are tried in a fixed order
/// and the first that matches decides.
pub open spec fn kind_of(name: Seq<char>) -> Kind {
    if is_map_definition_name(name) {
        Kind::MapDefinition
    } else if is_storyboard_name(name) {
        Kind::Storyboard
    } else if is_video_name(name) {
        Kind::Video
    } else if is_image_name(name) {
        Kind::Image
    } else if is_sound_name(name) {
        Kind::Sound
    } else {
        Kind::Other
    }
}

/// Whether `name` ends with the text `ending`.
fn ends_in(name: &[char], ending: &str) -> (out: bool)
    ensures
        out == ending@.is_suffix_of(name@),
{
    let ending = chars_of(ending);
    ends_with(name, ending.as_slice())
}

/// Whether the text `token` stands somewhere in `line`.
fn holds(line: &[char], token: &str) -> (out: bool)
    ensures
        out == occurs_in(token@, line@),
{
    let token = chars_of(token);
    contains(line, token.as_slice())
}

/// Whether one of the image extensions stands somewhere in `line`.
pub fn names_image(line: &[char]) -> (out: bool)
    ensures
        out == mentions_image(line@),
{
    holds(line, "jpeg") || holds(line, "jpg") || holds(line, "png")
}

/// The kind of the file called `name`.
pub fn kind(name: &[char]) -> (out: Kind)
    ensures
        out == kind_of(name@),
{
    if ends_in(name, ".osu") {
        Kind::MapDefinition
    } else if ends_in(name, "osb") {
        Kind::Storyboard
    } else if ends_in(name, "avi") || ends_in(name, "flv") || ends_in(name, "m4v") || ends_in(
        name,
        "mkv",
    ) || ends_in(name, "mp4") {
        Kind::Video
    } else if ends_in(name, "jpeg") || ends_in(name, "jpg") || ends_in(name, "png") {
        Kind::Image
    } else if ends_in(name, "mp3") || ends_in(name, "ogg") || ends_in(name, "wav") {
        Kind::Sound
    } else {
        Kind::Other
    }
}

} // verus!
