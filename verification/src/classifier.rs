//! Sorting the entries of a beatmapset into buckets.

use crate::args::Args;
use crate::definition::{first_segment, has_separator, is_path, names, parent_segment};
use crate::files::{Component, ComponentView, Entry, Files, FilesView};
use crate::kind::{kind, Kind};
use crate::listing::{bucket, lemma_kind_within_listing, lemma_listing_size_take, listing_size};
use crate::references::{all_audio, all_backgrounds, core_bucket, gather, holds_name};
use crate::text::chars_of;
use vstd::prelude::*;

verus! {

/// The names of `list` that `banned` does not hold, in their order.
pub open spec fn without(list: Seq<Seq<char>>, banned: Seq<Seq<char>>) -> Seq<Seq<char>> {
    list.filter(|name: Seq<char>| !banned.contains(name))
}

/// The first segments of those of `backgrounds` that are paths: the
/// directories that hold a background.
pub open spec fn protected_directories(backgrounds: Seq<Seq<char>>) -> Seq<Seq<char>> {
    backgrounds.filter(|name: Seq<char>| has_separator(name)).map_values(
        |name: Seq<char>| parent_segment(name),
    )
}

/// What is left of `all` bytes when `taken` are taken away, and 0 where more
/// would be taken than there are.
pub open spec fn remaining(all: nat, taken: nat) -> nat {
    if taken <= all {
        (all - taken) as nat
    } else {
        0
    }
}

/// The loose part of the bucket `listed`: without the names of `core`, and
/// less the bytes of `core`.
pub open spec fn loose(listed: ComponentView, core: ComponentView) -> ComponentView {
    ComponentView {
        total_size: remaining(listed.total_size, core.total_size),
        files: without(listed.files, core.files),
    }
}

/// The bucket of directories: all of them, or, where `protect` holds, those
/// that hold none of `backgrounds`. The bytes are those of all of them.
pub open spec fn directory_bucket(
    entries: Seq<Entry>,
    backgrounds: Seq<Seq<char>>,
    protect: bool,
) -> ComponentView {
    let all = bucket(entries, Kind::Directory);
    ComponentView {
        total_size: all.total_size,
        files: if protect {
            without(all.files, protected_directories(backgrounds))
        } else {
            all.files
        },
    }
}

/// The seven buckets of a beatmapset with the listing `entries` whose map
/// definitions have the texts `texts`.
pub open spec fn classification(
    protect: bool,
    entries: Seq<Entry>,
    texts: Seq<Seq<char>>,
) -> FilesView {
    let core_images = core_bucket(entries, all_backgrounds(texts), false);
    let core_sounds = core_bucket(entries, all_audio(texts), true);
    FilesView {
        directories: directory_bucket(entries, core_images.files, protect),
        videos: bucket(entries, Kind::Video),
        storyboards: bucket(entries, Kind::Storyboard),
        core_images,
        core_sounds,
        images: loose(bucket(entries, Kind::Image), core_images),
        sounds: loose(bucket(entries, Kind::Sound), core_sounds),
    }
}

/// The names of `list` that `banned` does not hold, in their order.
pub fn retain_absent(list: &Vec<String>, banned: &Vec<String>) -> (out: Vec<String>)
    ensures
        names(out@) == without(names(list@), names(banned@)),
{
    let mut out: Vec<String> = Vec::new();
    let ghost all = names(list@);
    let ghost absent = |name: Seq<char>| !names(banned@).contains(name);
    let mut i: usize = 0;
    assert(all.take(0) =~= Seq::<Seq<char>>::empty());
    assert(names(out@) =~= all.take(0).filter(absent));
    while i < list.len()
        invariant
            i <= list.len(),
            all == names(list@),
            absent == (|name: Seq<char>| !names(banned@).contains(name)),
            names(out@) == all.take(i as int).filter(absent),
        decreases list.len() - i,
    {
        proof {
            assert(all.take(i + 1) =~= all.take(i as int).push(all[i as int]));
            all.take(i as int).lemma_filter_push(all[i as int], absent);
        }
        if !holds_name(banned, &list[i]) {
            let ghost before = names(out@);
            out.push(list[i].clone());
            assert(names(out@) =~= before.push(all[i as int]));
        }
        i = i + 1;
    }
    assert(all.take(i as int) =~= all);
    out
}

/// The directories that hold one of `backgrounds`.
pub fn protected(backgrounds: &Vec<String>) -> (out: Vec<String>)
    ensures
        names(out@) == protected_directories(names(backgrounds@)),
{
    let mut out: Vec<String> = Vec::new();
    let ghost all = names(backgrounds@);
    let ghost path = |name: Seq<char>| has_separator(name);
    let ghost segment = |name: Seq<char>| parent_segment(name);
    let mut i: usize = 0;
    assert(all.take(0) =~= Seq::<Seq<char>>::empty());
    assert(names(out@) =~= all.take(0).filter(path).map_values(segment));
    while i < backgrounds.len()
        invariant
            i <= backgrounds.len(),
            all == names(backgrounds@),
            path == (|name: Seq<char>| has_separator(name)),
            segment == (|name: Seq<char>| parent_segment(name)),
            names(out@) == all.take(i as int).filter(path).map_values(segment),
        decreases backgrounds.len() - i,
    {
        proof {
            assert(all.take(i + 1) =~= all.take(i as int).push(all[i as int]));
            all.take(i as int).lemma_filter_push(all[i as int], path);
        }
        if is_path(backgrounds[i].as_str()) {
            let ghost before = names(out@);
            out.push(first_segment(backgrounds[i].as_str()));
            assert(names(out@) =~= before.push(parent_segment(all[i as int])));
            assert(all.take(i as int).filter(path).push(all[i as int]).map_values(segment)
                =~= before.push(parent_segment(all[i as int])));
        }
        i = i + 1;
    }
    assert(all.take(i as int) =~= all);
    out
}

/// Puts `entry` into the bucket `component`.
fn put(component: &mut Component, entry: &Entry)
    requires
        old(component).total_size + entry.size_bytes <= u64::MAX,
    ensures
        final(component)@ == (ComponentView {
            total_size: old(component)@.total_size + entry.size_bytes as nat,
            files: old(component)@.files.push(entry.name@),
        }),
{
    let ghost before = component@.files;
    component.total_size = component.total_size + entry.size_bytes;
    component.files.push(entry.name.clone());
    assert(component@.files =~= before.push(entry.name@));
}

/// Takes the names and the bytes of `core` out of the bucket `listed`.
fn set_loose(listed: &mut Component, core: &Component)
    ensures
        final(listed)@ == loose(old(listed)@, core@),
{
    listed.files = retain_absent(&listed.files, &core.files);
    listed.total_size = if core.total_size <= listed.total_size {
        listed.total_size - core.total_size
    } else {
        0
    };
}

/// Sorts the entries of a beatmapset into the seven buckets. `entries` is the
/// listing of its directory and `map_definitions` holds the text of each of
/// its map definitions, in the order of the listing.
pub fn classify(options: &Args, entries: &[Entry], map_definitions: &Vec<String>) -> (files: Files)
    requires
        listing_size(entries@) <= u64::MAX,
    ensures
        files@ == classification(
            options.protects_backgrounds(),
            entries@,
            names(map_definitions@),
        ),
{
    let mut directories = Component::empty();
    let mut videos = Component::empty();
    let mut storyboards = Component::empty();
    let mut images = Component::empty();
    let mut sounds = Component::empty();
    let mut i: usize = 0;
    assert(entries@.take(0) =~= Seq::<Entry>::empty());
    while i < entries.len()
        invariant
            i <= entries.len(),
            listing_size(entries@) <= u64::MAX,
            directories@ == bucket(entries@.take(i as int), Kind::Directory),
            videos@ == bucket(entries@.take(i as int), Kind::Video),
            storyboards@ == bucket(entries@.take(i as int), Kind::Storyboard),
            images@ == bucket(entries@.take(i as int), Kind::Image),
            sounds@ == bucket(entries@.take(i as int), Kind::Sound),
        decreases entries.len() - i,
    {
        let entry = &entries[i];
        let found = if entry.is_directory {
            Kind::Directory
        } else {
            kind(chars_of(entry.name.as_str()).as_slice())
        };
        proof {
            assert(entries@.take(i + 1).drop_last() =~= entries@.take(i as int));
            assert(entries@.take(i + 1).last() == entries@[i as int]);
            lemma_kind_within_listing(entries@.take(i + 1), found);
            lemma_listing_size_take(entries@, i + 1);
        }
        match found {
            Kind::Directory => put(&mut directories, entry),
            Kind::Video => put(&mut videos, entry),
            Kind::Storyboard => put(&mut storyboards, entry),
            Kind::Image => put(&mut images, entry),
            Kind::Sound => put(&mut sounds, entry),
            Kind::MapDefinition => {},
            Kind::Other => {},
        }
        i = i + 1;
    }
    assert(entries@.take(i as int) =~= entries@);
    let (core_images, core_sounds) = gather(entries, map_definitions);
    if !options.backgrounds || options.all {
        directories.files = retain_absent(&directories.files, &protected(&core_images.files));
    }
    set_loose(&mut images, &core_images);
    set_loose(&mut sounds, &core_sounds);
    Files { directories, videos, storyboards, core_images, core_sounds, images, sounds }
}

} // verus!
