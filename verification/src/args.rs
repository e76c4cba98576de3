//! The options of a run.

use vstd::prelude::*;

verus! {

/// What the user asked for.
#[derive(Clone, Debug)]
pub struct Args {
    /// The path to the songs directory, which holds one directory for each
    /// beatmapset.
    pub song_directory_path: String,
    /// Whether to delete the background images that the maps name.
    pub backgrounds: bool,
    /// Whether to delete all unneeded files, backgrounds excluded.
    pub all: bool,
    /// Whether to delete storyboard scripts, and the directories inside a
    /// beatmapset with them.
    pub storyboards: bool,
    /// Whether to delete videos.
    pub videos: bool,
    /// Whether to delete the images that no map names.
    pub images: bool,
    /// Whether to delete the sounds that no map names.
    pub sounds: bool,
    /// Whether to leave out the line of progress for each removal.
    pub quiet: bool,
    /// Whether to only report what would be deleted.
    pub debug: bool,
}

impl Args {
    /// Whether a directory that holds a background named by a map is to
    /// survive the removal of directories: unless backgrounds go and nothing
    /// else was asked for wholesale.
    pub open spec fn protects_backgrounds(&self) -> bool {
        !self.backgrounds || self.all
    }

    /// Whether directories and storyboard scripts go.
    pub open spec fn removes_storyboards(&self) -> bool {
        self.all || self.storyboards
    }

    /// Whether videos go.
    pub open spec fn removes_videos(&self) -> bool {
        self.all || self.videos
    }

    /// Whether the images that no map names go.
    pub open spec fn removes_images(&self) -> bool {
        self.all || self.images
    }

    /// Whether the sounds that no map names go.
    pub open spec fn removes_sounds(&self) -> bool {
        self.all || self.sounds
    }
}

} // verus!
