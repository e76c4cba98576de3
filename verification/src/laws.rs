//! What holds of every classification and of every plan of removals.

use crate::args::Args;
use crate::classifier::{classification, protected_directories, without};
use crate::cleaner::{bytes_if, credit, credited, plan_of, removals_if, CleanerView, RemovalView};
use crate::definition::{has_separator, parent_segment};
use crate::files::{ComponentView, Entry, FilesView};
use crate::kind::{kind_of, Kind};
use crate::listing::{names_of_kind, size_of_kind};
use crate::references::{
    all_audio, all_backgrounds, lemma_distinct, lemma_referenced_within_kind, referenced_size,
};
use crate::text::split_on;
use vstd::prelude::*;

verus! {

/// The pieces `pieces` in a row, with `sep` between each two.
pub open spec fn joined(pieces: Seq<Seq<char>>, sep: char) -> Seq<char>
    decreases pieces.len(),
{
    if pieces.len() == 0 {
        Seq::empty()
    } else if pieces.len() == 1 {
        pieces.last()
    } else {
        joined(pieces.drop_last(), sep).push(sep) + pieces.last()
    }
}

/// Splitting loses nothing and leaves no separator: no piece holds the
/// separator, and the pieces with the separator between them are the text.
pub proof fn lemma_split_joins(s: Seq<char>, sep: char)
    ensures
        split_on(s, sep).len() >= 1,
        forall|i: int|
            0 <= i < split_on(s, sep).len() ==> !(#[trigger] split_on(s, sep)[i]).contains(sep),
        joined(split_on(s, sep), sep) == s,
    decreases s.len(),
{
    let pieces = split_on(s, sep);
    if s.len() == 0 {
        assert(joined(pieces, sep) =~= s);
    } else {
        let before = split_on(s.drop_last(), sep);
        lemma_split_joins(s.drop_last(), sep);
        if s.last() == sep {
            assert(pieces.drop_last() =~= before);
            assert(joined(pieces, sep) =~= s);
        } else {
            let grown = before.last().push(s.last());
            assert forall|i: int| 0 <= i < pieces.len() implies !(#[trigger] pieces[i]).contains(
                sep,
            ) by {
                if i == pieces.len() - 1 {
                    if grown.contains(sep) {
                        let k = choose|k: int| 0 <= k < grown.len() && grown[k] == sep;
                        assert(before.last()[k] == sep);
                    }
                } else {
                    assert(pieces[i] == before[i]);
                }
            }
            if before.len() == 1 {
                assert(joined(pieces, sep) =~= s);
            } else {
                assert(pieces.drop_last() =~= before.drop_last());
                assert(joined(pieces, sep) =~= joined(before, sep).push(s.last()));
                assert(joined(before, sep).push(s.last()) =~= s);
            }
        }
    }
}

/// No name stands twice among the backgrounds that the maps name, nor among
/// the audio tracks that they name.
pub proof fn lemma_core_names_distinct(protect: bool, entries: Seq<Entry>, texts: Seq<Seq<char>>)
    ensures
        classification(protect, entries, texts).core_images.files.no_duplicates(),
        classification(protect, entries, texts).core_sounds.files.no_duplicates(),
{
    lemma_distinct(all_backgrounds(texts));
    lemma_distinct(all_audio(texts));
}

/// A list that was cleared of the names of another shares no name with it.
pub proof fn lemma_without_disjoint(list: Seq<Seq<char>>, banned: Seq<Seq<char>>)
    ensures
        without(list, banned).disjoint(banned),
{
    let absent = |name: Seq<char>| !banned.contains(name);
    assert forall|i: int, j: int|
        0 <= i < without(list, banned).len() && 0 <= j < banned.len() implies without(
        list,
        banned,
    )[i] != banned[j] by {
        list.lemma_filter_pred(absent, i);
        assert(banned.contains(banned[j]));
    }
}

/// No image is at once loose and named by a map, and no sound is.
pub proof fn lemma_loose_apart_from_core(protect: bool, entries: Seq<Entry>, texts: Seq<Seq<char>>)
    ensures
        classification(protect, entries, texts).images.files.disjoint(
            classification(protect, entries, texts).core_images.files,
        ),
        classification(protect, entries, texts).sounds.files.disjoint(
            classification(protect, entries, texts).core_sounds.files,
        ),
{
    let files = classification(protect, entries, texts);
    lemma_without_disjoint(
        names_of_kind(entries, Kind::Image),
        files.core_images.files,
    );
    lemma_without_disjoint(
        names_of_kind(entries, Kind::Sound),
        files.core_sounds.files,
    );
}

/// The bytes of the loose images and of the backgrounds that the maps name
/// are together the bytes of all images in the listing, provided that the
/// backgrounds do not stand for more bytes than the images take up.
pub proof fn lemma_image_bytes_conserved(protect: bool, entries: Seq<Entry>, texts: Seq<Seq<char>>)
    requires
        classification(protect, entries, texts).core_images.total_size <= size_of_kind(
            entries,
            Kind::Image,
        ),
    ensures
        classification(protect, entries, texts).images.total_size + classification(
            protect,
            entries,
            texts,
        ).core_images.total_size == size_of_kind(entries, Kind::Image),
{
}

/// The bytes of the loose sounds and of the audio tracks that the maps name
/// are together the bytes of all sounds in the listing, provided that the
/// audio tracks do not stand for more bytes than the sounds take up.
pub proof fn lemma_sound_bytes_conserved(protect: bool, entries: Seq<Entry>, texts: Seq<Seq<char>>)
    requires
        classification(protect, entries, texts).core_sounds.total_size <= size_of_kind(
            entries,
            Kind::Sound,
        ),
    ensures
        classification(protect, entries, texts).sounds.total_size + classification(
            protect,
            entries,
            texts,
        ).core_sounds.total_size == size_of_kind(entries, Kind::Sound),
{
}

/// Where every background that the maps name ends like an image or is a
/// path, the bytes of the loose images and of the backgrounds are together the
/// bytes of all images in the listing.
pub proof fn lemma_image_bytes_conserved_by_name(
    protect: bool,
    entries: Seq<Entry>,
    texts: Seq<Seq<char>>,
)
    requires
        forall|name: Seq<char>| #[trigger]
            classification(protect, entries, texts).core_images.files.contains(name)
                ==> kind_of(name) == Kind::Image || has_separator(name),
    ensures
        classification(protect, entries, texts).images.total_size + classification(
            protect,
            entries,
            texts,
        ).core_images.total_size == size_of_kind(entries, Kind::Image),
{
    let core = classification(protect, entries, texts).core_images.files;
    lemma_core_names_distinct(protect, entries, texts);
    lemma_referenced_within_kind(entries, core, false, Kind::Image);
}

/// Where every audio track that the maps name ends like a sound, the bytes
/// of the loose sounds and of the audio tracks are together the bytes of all
/// sounds in the listing.
pub proof fn lemma_sound_bytes_conserved_by_name(
    protect: bool,
    entries: Seq<Entry>,
    texts: Seq<Seq<char>>,
)
    requires
        forall|name: Seq<char>| #[trigger]
            classification(protect, entries, texts).core_sounds.files.contains(name)
                ==> kind_of(name) == Kind::Sound,
    ensures
        classification(protect, entries, texts).sounds.total_size + classification(
            protect,
            entries,
            texts,
        ).core_sounds.total_size == size_of_kind(entries, Kind::Sound),
{
    let core = classification(protect, entries, texts).core_sounds.files;
    lemma_core_names_distinct(protect, entries, texts);
    lemma_referenced_within_kind(entries, core, true, Kind::Sound);
}

/// Where paths do not count, the references stand for the bytes of those
/// among them that are no paths.
pub proof fn lemma_paths_weigh_nothing(entries: Seq<Entry>, list: Seq<Seq<char>>)
    ensures
        referenced_size(entries, list, false) == referenced_size(
            entries,
            list.filter(|name: Seq<char>| !has_separator(name)),
            true,
        ),
    decreases list.len(),
{
    let plain = |name: Seq<char>| !has_separator(name);
    if list.len() == 0 {
        assert(list.filter(plain).len() <= list.len()) by {
            list.lemma_filter_len(plain);
        }
    } else {
        let before = list.drop_last();
        lemma_paths_weigh_nothing(entries, before);
        before.lemma_filter_push(list.last(), plain);
        assert(before.push(list.last()) =~= list);
        if plain(list.last()) {
            assert(before.filter(plain).push(list.last()).drop_last() =~= before.filter(plain));
        }
    }
}

/// A background that is a path adds nothing to the bytes of the backgrounds,
/// and so nothing to what is taken off the images: the backgrounds stand for
/// the bytes of those among them that are no paths.
pub proof fn lemma_path_backgrounds_not_counted(
    protect: bool,
    entries: Seq<Entry>,
    texts: Seq<Seq<char>>,
)
    ensures
        classification(protect, entries, texts).core_images.total_size == referenced_size(
            entries,
            classification(protect, entries, texts).core_images.files.filter(
                |name: Seq<char>| !has_separator(name),
            ),
            true,
        ),
{
    lemma_paths_weigh_nothing(entries, classification(protect, entries, texts).core_images.files);
}

/// Where directories that hold a background are to survive, the bucket of
/// directories holds the first segment of no background that is a path.
pub proof fn lemma_background_directories_kept(
    entries: Seq<Entry>,
    texts: Seq<Seq<char>>,
    background: Seq<char>,
)
    requires
        classification(true, entries, texts).core_images.files.contains(background),
        has_separator(background),
    ensures
        !classification(true, entries, texts).directories.files.contains(
            parent_segment(background),
        ),
{
    let files = classification(true, entries, texts);
    let backgrounds = files.core_images.files;
    let path = |name: Seq<char>| has_separator(name);
    let segment = |name: Seq<char>| parent_segment(name);
    let banned = protected_directories(backgrounds);
    let i = choose|i: int| 0 <= i < backgrounds.len() && backgrounds[i] == background;
    backgrounds.lemma_filter_contains(path, i);
    let paths = backgrounds.filter(path);
    let j = choose|j: int| 0 <= j < paths.len() && paths[j] == background;
    assert(banned[j] == parent_segment(background));
    assert(banned.contains(parent_segment(background)));
    let all = names_of_kind(entries, Kind::Directory);
    let absent = |name: Seq<char>| !banned.contains(name);
    if without(all, banned).contains(parent_segment(background)) {
        let k = choose|k: int|
            0 <= k < without(all, banned).len() && without(all, banned)[k] == parent_segment(
                background,
            );
        all.lemma_filter_pred(absent, k);
    }
}

/// The state `state` with the dry run switched on or off.
pub open spec fn with_debug(state: CleanerView, debug: bool) -> CleanerView {
    CleanerView { args: Args { debug, ..state.args }, ..state }
}

/// The removals `plan`, none of them to be carried out.
pub open spec fn held_back(plan: Seq<RemovalView>) -> Seq<RemovalView> {
    plan.map_values(|removal: RemovalView| RemovalView { perform: false, ..removal })
}

/// A dry run lists for a bucket the removals of a real run, held back.
proof fn lemma_dry_bucket(
    chosen: bool,
    state: CleanerView,
    component: ComponentView,
    recursive: bool,
)
    ensures
        removals_if(chosen, with_debug(state, true), component, recursive) == held_back(
            removals_if(chosen, with_debug(state, false), component, recursive),
        ),
        forall|i: int|
            0 <= i < removals_if(chosen, with_debug(state, false), component, recursive).len()
                ==> (#[trigger] removals_if(
                chosen,
                with_debug(state, false),
                component,
                recursive,
            )[i]).perform,
{
    assert(removals_if(chosen, with_debug(state, true), component, recursive) =~= held_back(
        removals_if(chosen, with_debug(state, false), component, recursive),
    ));
}

/// Holding back the removals of two plans in a row is holding back each.
proof fn lemma_held_back_add(a: Seq<RemovalView>, b: Seq<RemovalView>)
    ensures
        held_back(a + b) == held_back(a) + held_back(b),
{
    assert(held_back(a + b) =~= held_back(a) + held_back(b));
}

/// A dry run sorts the entries as a real run does, counts the same bytes as
/// freed and lists the same removals, but asks for none to be carried out,
/// where a real run asks for each.
pub proof fn lemma_dry_run(
    state: CleanerView,
    entries: Seq<Entry>,
    texts: Seq<Seq<char>>,
    files: FilesView,
)
    ensures
        classification(with_debug(state, true).args.protects_backgrounds(), entries, texts)
            == classification(
            with_debug(state, false).args.protects_backgrounds(),
            entries,
            texts,
        ),
        credited(with_debug(state, true).args, files) == credited(
            with_debug(state, false).args,
            files,
        ),
        plan_of(with_debug(state, true), files) == held_back(
            plan_of(with_debug(state, false), files),
        ),
        forall|i: int|
            0 <= i < plan_of(with_debug(state, false), files).len() ==> (#[trigger] plan_of(
                with_debug(state, false),
                files,
            )[i]).perform,
{
    let args = state.args;
    let after_backgrounds = credit(state, bytes_if(args.backgrounds, files.core_images));
    let after_directories = credit(after_backgrounds, bytes_if(args.removes_storyboards(), files.directories));
    let after_storyboards = credit(after_directories, bytes_if(args.removes_storyboards(), files.storyboards));
    let after_videos = credit(after_storyboards, bytes_if(args.removes_videos(), files.videos));
    let after_images = credit(after_videos, bytes_if(args.removes_images(), files.images));
    lemma_dry_bucket(args.backgrounds, state, files.core_images, false);
    lemma_dry_bucket(args.removes_storyboards(), after_backgrounds, files.directories, true);
    lemma_dry_bucket(args.removes_storyboards(), after_directories, files.storyboards, false);
    lemma_dry_bucket(args.removes_videos(), after_storyboards, files.videos, false);
    lemma_dry_bucket(args.removes_images(), after_videos, files.images, false);
    lemma_dry_bucket(args.removes_sounds(), after_images, files.sounds, false);
    let backgrounds = removals_if(
        args.backgrounds,
        with_debug(state, false),
        files.core_images,
        false,
    );
    let directories = removals_if(
        args.removes_storyboards(),
        with_debug(after_backgrounds, false),
        files.directories,
        true,
    );
    let storyboards = removals_if(
        args.removes_storyboards(),
        with_debug(after_directories, false),
        files.storyboards,
        false,
    );
    let videos = removals_if(args.removes_videos(), with_debug(after_storyboards, false), files.videos, false);
    let images = removals_if(args.removes_images(), with_debug(after_videos, false), files.images, false);
    let sounds = removals_if(args.removes_sounds(), with_debug(after_images, false), files.sounds, false);
    lemma_held_back_add(backgrounds, directories);
    lemma_held_back_add(backgrounds + directories, storyboards);
    lemma_held_back_add(backgrounds + directories + storyboards, videos);
    lemma_held_back_add(backgrounds + directories + storyboards + videos, images);
    lemma_held_back_add(backgrounds + directories + storyboards + videos + images, sounds);
    assert(plan_of(with_debug(state, false), files) == backgrounds + directories + storyboards
        + videos + images + sounds);
    assert(plan_of(with_debug(state, true), files) == held_back(backgrounds) + held_back(
        directories,
    ) + held_back(storyboards) + held_back(videos) + held_back(images) + held_back(sounds));
}

} // verus!
