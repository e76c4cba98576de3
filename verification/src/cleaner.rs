//! Choosing what to remove from a beatmapset, and keeping count of the bytes
//! that the removals free.
//!
//! Nothing here touches a disk. A `Cleaner` hands out the removals to carry
//! out; whoever carries them out joins each name to the beatmapset's path. The
//! bytes of a removal count as freed whether or not the removal succeeds, and
//! in a dry run too.

use crate::args::Args;
use crate::classifier::{classification, classify};
use crate::definition::names;
use crate::files::{Component, ComponentView, Entry, Files, FilesView};
use crate::listing::{fits, listing_size};
use vstd::prelude::*;

verus! {

/// One removal to carry out, with what its line of progress shows.
#[derive(Clone, Debug)]
pub struct Removal {
    /// The name of the entry, inside the beatmapset's directory.
    pub name: String,
    /// Whether the entry is a directory, to be removed with all that it holds.
    pub recursive: bool,
    /// How many beatmapsets were done before this one.
    pub beatmapset: usize,
    /// How many beatmapsets there are.
    pub beatmapsets: usize,
    /// The place of the entry in its bucket, counted from 1.
    pub ordinal: usize,
    /// How many entries its bucket has.
    pub bucket_len: usize,
    /// The megabytes freed before the entry's bucket was taken up.
    pub saved_megabytes: u64,
    /// Whether to remove the entry at all: not so in a dry run.
    pub perform: bool,
    /// Whether to print the line of progress.
    pub report: bool,
}

/// What a removal says.
pub ghost struct RemovalView {
    pub name: Seq<char>,
    pub recursive: bool,
    pub beatmapset: nat,
    pub beatmapsets: nat,
    pub ordinal: nat,
    pub bucket_len: nat,
    pub saved_megabytes: nat,
    pub perform: bool,
    pub report: bool,
}

impl View for Removal {
    type V = RemovalView;

    open spec fn view(&self) -> RemovalView {
        RemovalView {
            name: self.name@,
            recursive: self.recursive,
            beatmapset: self.beatmapset as nat,
            beatmapsets: self.beatmapsets as nat,
            ordinal: self.ordinal as nat,
            bucket_len: self.bucket_len as nat,
            saved_megabytes: self.saved_megabytes as nat,
            perform: self.perform,
            report: self.report,
        }
    }
}

/// The views of a sequence of removals.
pub open spec fn removal_views(plan: Seq<Removal>) -> Seq<RemovalView> {
    plan.map_values(|removal: Removal| removal@)
}

/// The state of a run.
pub ghost struct CleanerView {
    pub args: Args,
    pub beatmapsets: nat,
    pub progress: nat,
    pub saved_size: nat,
}

/// The bytes in a megabyte.
pub open spec fn megabyte() -> nat {
    1_048_576
}

/// The removals of the entries of `component`, in their order, for a run in
/// the state `state`.
pub open spec fn removals_of(
    state: CleanerView,
    component: ComponentView,
    recursive: bool,
) -> Seq<RemovalView> {
    Seq::new(
        component.files.len(),
        |i: int|
            RemovalView {
                name: component.files[i],
                recursive,
                beatmapset: state.progress,
                beatmapsets: state.beatmapsets,
                ordinal: (i + 1) as nat,
                bucket_len: component.files.len(),
                saved_megabytes: state.saved_size / megabyte(),
                perform: !state.args.debug,
                report: !state.args.quiet,
            },
    )
}

/// The state `state` with `bytes` more bytes freed.
pub open spec fn credit(state: CleanerView, bytes: nat) -> CleanerView {
    CleanerView { saved_size: state.saved_size + bytes, ..state }
}

/// The bytes of `component` where `chosen` holds, else none.
pub open spec fn bytes_if(chosen: bool, component: ComponentView) -> nat {
    if chosen {
        component.total_size
    } else {
        0
    }
}

/// The removals of `component` where `chosen` holds, else none.
pub open spec fn removals_if(
    chosen: bool,
    state: CleanerView,
    component: ComponentView,
    recursive: bool,
) -> Seq<RemovalView> {
    if chosen {
        removals_of(state, component, recursive)
    } else {
        Seq::empty()
    }
}

/// The bytes that the options `args` free of the buckets `files`.
pub open spec fn credited(args: Args, files: FilesView) -> nat {
    bytes_if(args.backgrounds, files.core_images) + bytes_if(
        args.removes_storyboards(),
        files.directories,
    ) + bytes_if(args.removes_storyboards(), files.storyboards) + bytes_if(
        args.removes_videos(),
        files.videos,
    ) + bytes_if(args.removes_images(), files.images) + bytes_if(
        args.removes_sounds(),
        files.sounds,
    )
}

/// The removals that a run in the state `state` makes of the buckets `files`:
/// bucket after bucket, each bucket's bytes counted as freed before the next
/// is taken up.
pub open spec fn plan_of(state: CleanerView, files: FilesView) -> Seq<RemovalView> {
    let args = state.args;
    let storyboards = args.removes_storyboards();
    let after_backgrounds = credit(state, bytes_if(args.backgrounds, files.core_images));
    let after_directories = credit(after_backgrounds, bytes_if(storyboards, files.directories));
    let after_storyboards = credit(after_directories, bytes_if(storyboards, files.storyboards));
    let after_videos = credit(after_storyboards, bytes_if(args.removes_videos(), files.videos));
    let after_images = credit(after_videos, bytes_if(args.removes_images(), files.images));
    removals_if(args.backgrounds, state, files.core_images, false)
        + removals_if(storyboards, after_backgrounds, files.directories, true)
        + removals_if(storyboards, after_directories, files.storyboards, false)
        + removals_if(args.removes_videos(), after_storyboards, files.videos, false)
        + removals_if(args.removes_images(), after_videos, files.images, false)
        + removals_if(args.removes_sounds(), after_images, files.sounds, false)
}

/// `sum` and, where `chosen` holds, the bytes of `component`; nothing where
/// that leaves a `u64`.
fn and_bytes(sum: Option<u64>, chosen: bool, component: &Component) -> (out: Option<u64>)
    ensures
        (match sum {
            Some(so_far) => (match out {
                Some(all) => all == so_far + bytes_if(chosen, component@),
                None => so_far + bytes_if(chosen, component@) > u64::MAX,
            }),
            None => out is None,
        }),
{
    match sum {
        Some(so_far) => if chosen {
            so_far.checked_add(component.total_size)
        } else {
            Some(so_far)
        },
        None => None,
    }
}

/// Whether a run in the state `state` can do the beatmapset with the listing
/// `entries` and the map definitions `texts`: whether every count stays within
/// its integer type.
pub open spec fn processable(state: CleanerView, entries: Seq<Entry>, texts: Seq<Seq<char>>) -> bool {
    &&& state.progress < usize::MAX
    &&& listing_size(entries) <= u64::MAX
    &&& state.saved_size + credited(
        state.args,
        classification(state.args.protects_backgrounds(), entries, texts),
    ) <= u64::MAX
}

/// The state `state` after a beatmapset with the buckets `files` is done.
pub open spec fn processed(state: CleanerView, files: FilesView) -> CleanerView {
    CleanerView {
        progress: state.progress + 1,
        saved_size: state.saved_size + credited(state.args, files),
        ..state
    }
}

/// A run over the beatmapsets of a songs directory.
pub struct Cleaner {
    args: Args,
    beatmapsets: usize,
    progress: usize,
    saved_size: u64,
}

impl View for Cleaner {
    type V = CleanerView;

    closed spec fn view(&self) -> CleanerView {
        CleanerView {
            args: self.args,
            beatmapsets: self.beatmapsets as nat,
            progress: self.progress as nat,
            saved_size: self.saved_size as nat,
        }
    }
}

impl Cleaner {
    /// A run with the options `args`, before anything is done.
    pub fn init(args: Args) -> (out: Cleaner)
        ensures
            out@ == (CleanerView { args, beatmapsets: 0, progress: 0, saved_size: 0 }),
    {
        Cleaner { args, beatmapsets: 0, progress: 0, saved_size: 0 }
    }

    /// The options of the run.
    pub fn args(&self) -> (out: &Args)
        ensures
            *out == self@.args,
    {
        &self.args
    }

    /// How many beatmapsets there are.
    pub fn beatmapsets(&self) -> (out: usize)
        ensures
            out == self@.beatmapsets,
    {
        self.beatmapsets
    }

    /// How many beatmapsets are done.
    pub fn progress(&self) -> (out: usize)
        ensures
            out == self@.progress,
    {
        self.progress
    }

    /// The bytes freed so far.
    pub fn saved_size(&self) -> (out: u64)
        ensures
            out == self@.saved_size,
    {
        self.saved_size
    }

    /// The megabytes freed so far, rounded down.
    pub fn saved_megabytes(&self) -> (out: u64)
        ensures
            out == self@.saved_size / megabyte(),
    {
        self.saved_size / 1_048_576
    }

    /// Says how many beatmapsets there are.
    pub fn begin(&mut self, beatmapsets: usize)
        ensures
            final(self)@ == (CleanerView { beatmapsets: beatmapsets as nat, ..old(self)@ }),
    {
        self.beatmapsets = beatmapsets;
    }

    /// Counts one more beatmapset as done.
    pub fn advance(&mut self)
        requires
            old(self)@.progress < usize::MAX,
        ensures
            final(self)@ == (CleanerView { progress: old(self)@.progress + 1, ..old(self)@ }),
    {
        self.progress = self.progress + 1;
    }

    /// The removals of the entries of `component`, and the bytes that they
    /// free: those of the whole bucket.
    pub fn bulk_remove(&self, component: &Component, is_dir: bool) -> (out: (Vec<Removal>, u64))
        ensures
            removal_views(out.0@) == removals_of(self@, component@, is_dir),
            out.1 == component.total_size,
    {
        let mut plan: Vec<Removal> = Vec::new();
        let saved_megabytes: u64 = self.saved_megabytes();
        let mut i: usize = 0;
        while i < component.files.len()
            invariant
                i <= component.files.len(),
                saved_megabytes == self@.saved_size / megabyte(),
                plan.len() == i,
                forall|j: int|
                    0 <= j < i ==> (#[trigger] plan@[j])@ == removals_of(
                        self@,
                        component@,
                        is_dir,
                    )[j],
            decreases component.files.len() - i,
        {
            plan.push(
                Removal {
                    name: component.files[i].clone(),
                    recursive: is_dir,
                    beatmapset: self.progress,
                    beatmapsets: self.beatmapsets,
                    ordinal: i + 1,
                    bucket_len: component.files.len(),
                    saved_megabytes,
                    perform: !self.args.debug,
                    report: !self.args.quiet,
                },
            );
            i = i + 1;
        }
        assert(removal_views(plan@) =~= removals_of(self@, component@, is_dir));
        (plan, component.total_size)
    }

    /// Where `chosen` holds, adds the removals of `component` to `plan` and
    /// counts its bytes as freed.
    fn take(&mut self, plan: &mut Vec<Removal>, chosen: bool, component: &Component, is_dir: bool)
        requires
            old(self)@.saved_size + bytes_if(chosen, component@) <= u64::MAX,
        ensures
            final(self)@ == credit(old(self)@, bytes_if(chosen, component@)),
            removal_views(final(plan)@) == removal_views(old(plan)@) + removals_if(
                chosen,
                old(self)@,
                component@,
                is_dir,
            ),
    {
        if chosen {
            let ghost before = plan@;
            let (mut more, bytes) = self.bulk_remove(component, is_dir);
            let ghost added = more@;
            plan.append(&mut more);
            self.saved_size = self.saved_size + bytes;
            assert(removal_views(before + added) =~= removal_views(before) + removal_views(
                added,
            ));
        } else {
            assert(removal_views(plan@) + Seq::<RemovalView>::empty() =~= removal_views(plan@));
        }
    }

    /// Whether the bytes that `clean` would free of `files` can still be
    /// counted: whether the bytes freed stay within a `u64`.
    pub fn can_clean(&self, files: &Files) -> (out: bool)
        ensures
            out == (self@.saved_size + credited(self@.args, files@) <= u64::MAX),
    {
        let backgrounds = self.args.backgrounds;
        let storyboards = self.args.all || self.args.storyboards;
        let videos = self.args.all || self.args.videos;
        let images = self.args.all || self.args.images;
        let sounds = self.args.all || self.args.sounds;
        let sum = Some(self.saved_size);
        let sum = and_bytes(sum, backgrounds, &files.core_images);
        let sum = and_bytes(sum, storyboards, &files.directories);
        let sum = and_bytes(sum, storyboards, &files.storyboards);
        let sum = and_bytes(sum, videos, &files.videos);
        let sum = and_bytes(sum, images, &files.images);
        let sum = and_bytes(sum, sounds, &files.sounds);
        sum.is_some()
    }

    /// Chooses what to remove of the buckets `files`, as the options say, and
    /// counts the bytes of the chosen buckets as freed.
    pub fn clean(&mut self, files: &Files) -> (plan: Vec<Removal>)
        requires
            old(self)@.saved_size + credited(old(self)@.args, files@) <= u64::MAX,
        ensures
            final(self)@ == credit(old(self)@, credited(old(self)@.args, files@)),
            removal_views(plan@) == plan_of(old(self)@, files@),
    {
        let backgrounds = self.args.backgrounds;
        let storyboards = self.args.all || self.args.storyboards;
        let videos = self.args.all || self.args.videos;
        let images = self.args.all || self.args.images;
        let sounds = self.args.all || self.args.sounds;
        let mut plan: Vec<Removal> = Vec::new();
        assert(removal_views(plan@) =~= Seq::<RemovalView>::empty());
        self.take(&mut plan, backgrounds, &files.core_images, false);
        self.take(&mut plan, storyboards, &files.directories, true);
        self.take(&mut plan, storyboards, &files.storyboards, false);
        self.take(&mut plan, videos, &files.videos, false);
        self.take(&mut plan, images, &files.images, false);
        self.take(&mut plan, sounds, &files.sounds, false);
        assert(removal_views(plan@) =~= plan_of(old(self)@, files@));
        plan
    }

    /// Does one beatmapset: sorts its entries into buckets, chooses what to
    /// remove, and counts the beatmapset as done. Where a count would leave
    /// its integer type, nothing is done.
    pub fn process(&mut self, entries: &[Entry], map_definitions: &Vec<String>) -> (out: Option<
        Vec<Removal>,
    >)
        ensures
            out is Some == processable(old(self)@, entries@, names(map_definitions@)),
            (match out {
                Some(plan) => {
                    let files = classification(
                        old(self)@.args.protects_backgrounds(),
                        entries@,
                        names(map_definitions@),
                    );
                    &&& removal_views(plan@) == plan_of(old(self)@, files)
                    &&& final(self)@ == processed(old(self)@, files)
                },
                None => final(self)@ == old(self)@,
            }),
    {
        if self.progress == usize::MAX || !fits(entries) {
            return None;
        }
        let files = classify(&self.args, entries, map_definitions);
        if !self.can_clean(&files) {
            return None;
        }
        let plan = self.clean(&files);
        self.advance();
        Some(plan)
    }
}

} // verus!
