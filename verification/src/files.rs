//! The listing of a beatmapset directory and the buckets its entries fall in.

use crate::definition::names;
use crate::kind::{kind, kind_of, Kind};
use crate::text::{chars_of, lowercase, lowercase_of};
use vstd::prelude::*;

verus! {

/// One item inside a beatmapset directory.
#[derive(Clone, Debug)]
pub struct Entry {
    /// The item's name, in lowercase.
    pub name: String,
    /// Whether the item is a directory.
    pub is_directory: bool,
    /// The item's size in bytes.
    pub size_bytes: u64,
}

impl Entry {
    /// The entry for the item called `name`, which is put in lowercase.
    pub fn new(name: &str, is_directory: bool, size_bytes: u64) -> (out: Entry)
        ensures
            out.name@ == lowercase_of(name@),
            out.is_directory == is_directory,
            out.size_bytes == size_bytes,
    {
        Entry { name: lowercase(name), is_directory, size_bytes }
    }

    /// The bucket that the entry is listed under.
    pub open spec fn kind(&self) -> Kind {
        if self.is_directory {
            Kind::Directory
        } else {
            kind_of(self.name@)
        }
    }

    /// Whether the entry is a map definition, whose text is to be read.
    pub fn is_map_definition(&self) -> (out: bool)
        ensures
            out == (self.kind() == Kind::MapDefinition),
    {
        !self.is_directory && kind(chars_of(self.name.as_str()).as_slice()) == Kind::MapDefinition
    }
}

/// A bucket: the names of some entries and their size together.
#[derive(Clone, Debug)]
pub struct Component {
    /// The bytes that the bucket's entries take up.
    pub total_size: u64,
    /// The names of the bucket's entries.
    pub files: Vec<String>,
}

/// What a bucket holds.
pub ghost struct ComponentView {
    pub total_size: nat,
    pub files: Seq<Seq<char>>,
}

impl View for Component {
    type V = ComponentView;

    open spec fn view(&self) -> ComponentView {
        ComponentView { total_size: self.total_size as nat, files: names(self.files@) }
    }
}

impl Component {
    /// A bucket with nothing in it.
    pub fn empty() -> (out: Component)
        ensures
            out@ == (ComponentView { total_size: 0, files: Seq::empty() }),
    {
        let out = Component { total_size: 0, files: Vec::new() };
        assert(out@.files =~= Seq::empty());
        out
    }
}

/// The entries of one beatmapset, sorted into seven buckets.
#[derive(Clone, Debug)]
pub struct Files {
    /// The directories inside the beatmapset.
    pub directories: Component,
    /// The videos.
    pub videos: Component,
    /// The storyboard scripts.
    pub storyboards: Component,
    /// The backgrounds that the maps name.
    pub core_images: Component,
    /// The audio tracks that the maps name.
    pub core_sounds: Component,
    /// The images that no map names.
    pub images: Component,
    /// The sounds that no map names.
    pub sounds: Component,
}

/// What the seven buckets hold.
pub ghost struct FilesView {
    pub directories: ComponentView,
    pub videos: ComponentView,
    pub storyboards: ComponentView,
    pub core_images: ComponentView,
    pub core_sounds: ComponentView,
    pub images: ComponentView,
    pub sounds: ComponentView,
}

impl View for Files {
    type V = FilesView;

    open spec fn view(&self) -> FilesView {
        FilesView {
            directories: self.directories@,
            videos: self.videos@,
            storyboards: self.storyboards@,
            core_images: self.core_images@,
            core_sounds: self.core_sounds@,
            images: self.images@,
            sounds: self.sounds@,
        }
    }
}

} // verus!
