//! The assets that the maps of a beatmapset name, each once, with their sizes.

use crate::definition::{has_separator, is_path, names, scan};
use crate::definition::{audio_references, background_references};
use crate::files::{Component, ComponentView, Entry};
use crate::kind::{kind_of, Kind};
use crate::listing::{
    find_size, lemma_listing_size_first, lemma_size_of_kind_first, listing_size, probe,
    size_of_kind,
};
use vstd::prelude::*;

verus! {

/// `list` with `name` at its end, unless `list` holds `name` already.
pub open spec fn with_name(list: Seq<Seq<char>>, name: Seq<char>) -> Seq<Seq<char>> {
    if list.contains(name) {
        list
    } else {
        list.push(name)
    }
}

/// The names of `list`, each once, in the order in which they first occur.
pub open spec fn distinct(list: Seq<Seq<char>>) -> Seq<Seq<char>>
    decreases list.len(),
{
    if list.len() == 0 {
        Seq::empty()
    } else {
        with_name(distinct(list.drop_last()), list.last())
    }
}

/// The bytes that the reference `name` stands for: the size of the file of
/// that name. A reference with a path separator stands for no bytes unless
/// `paths_count`.
pub open spec fn reference_size(entries: Seq<Entry>, name: Seq<char>, paths_count: bool) -> nat {
    if !paths_count && has_separator(name) {
        0
    } else {
        probe(entries, name)
    }
}

/// The bytes that the references `list` stand for together.
pub open spec fn referenced_size(
    entries: Seq<Entry>,
    list: Seq<Seq<char>>,
    paths_count: bool,
) -> nat
    decreases list.len(),
{
    if list.len() == 0 {
        0
    } else {
        referenced_size(entries, list.drop_last(), paths_count) + reference_size(
            entries,
            list.last(),
            paths_count,
        )
    }
}

/// The audio tracks that the texts name, in the order of the texts and of their
/// lines.
pub open spec fn all_audio(texts: Seq<Seq<char>>) -> Seq<Seq<char>>
    decreases texts.len(),
{
    if texts.len() == 0 {
        Seq::empty()
    } else {
        all_audio(texts.drop_last()) + audio_references(texts.last())
    }
}

/// The backgrounds that the texts name, in the order of the texts and of their
/// lines.
pub open spec fn all_backgrounds(texts: Seq<Seq<char>>) -> Seq<Seq<char>>
    decreases texts.len(),
{
    if texts.len() == 0 {
        Seq::empty()
    } else {
        all_backgrounds(texts.drop_last()) + background_references(texts.last())
    }
}

/// The bucket of the references `list`: each name once, with the bytes that
/// the names stand for.
pub open spec fn core_bucket(
    entries: Seq<Entry>,
    list: Seq<Seq<char>>,
    paths_count: bool,
) -> ComponentView {
    ComponentView {
        total_size: referenced_size(entries, distinct(list), paths_count),
        files: distinct(list),
    }
}

/// `distinct` keeps every name and repeats none.
pub proof fn lemma_distinct(list: Seq<Seq<char>>)
    ensures
        distinct(list).no_duplicates(),
        forall|name: Seq<char>| distinct(list).contains(name) <==> list.contains(name),
    decreases list.len(),
{
    if list.len() > 0 {
        let before = list.drop_last();
        lemma_distinct(before);
        let last = list.last();
        assert forall|name: Seq<char>| distinct(list).contains(name) <==> list.contains(
            name,
        ) by {
            if list.contains(name) {
                let i = choose|i: int| 0 <= i < list.len() && list[i] == name;
                if i < list.len() - 1 {
                    assert(before[i] == name);
                    assert(before.contains(name));
                    assert(distinct(before).contains(name));
                    let j = choose|j: int|
                        0 <= j < distinct(before).len() && distinct(before)[j] == name;
                    assert(distinct(list)[j] == name);
                } else if !distinct(before).contains(last) {
                    assert(distinct(list)[distinct(before).len() as int] == name);
                }
            }
            if distinct(list).contains(name) {
                let j = choose|j: int| 0 <= j < distinct(list).len() && distinct(list)[j] == name;
                if j < distinct(before).len() {
                    assert(distinct(before)[j] == name);
                    assert(before.contains(name));
                    let i = choose|i: int| 0 <= i < before.len() && before[i] == name;
                    assert(list[i] == name);
                } else {
                    assert(list[list.len() - 1] == name);
                }
            }
        }
    }
}

/// Against an empty listing no reference stands for any bytes.
pub proof fn lemma_referenced_size_empty(list: Seq<Seq<char>>, paths_count: bool)
    ensures
        referenced_size(Seq::empty(), list, paths_count) == 0,
    decreases list.len(),
{
    if list.len() > 0 {
        lemma_referenced_size_empty(list.drop_last(), paths_count);
    }
}

/// Whether the first of `entries` is the file that the reference `name` stands
/// for.
pub open spec fn first_answers(entries: Seq<Entry>, name: Seq<char>, paths_count: bool) -> bool {
    &&& !entries.first().is_directory
    &&& entries.first().name@ == name
    &&& paths_count || !has_separator(name)
}

/// The first entry of a listing adds its size to what distinct references
/// stand for at most once, and only where one of them stands for it.
pub proof fn lemma_referenced_size_step(
    entries: Seq<Entry>,
    list: Seq<Seq<char>>,
    paths_count: bool,
)
    requires
        entries.len() > 0,
        list.no_duplicates(),
    ensures
        referenced_size(entries, list, paths_count) <= referenced_size(
            entries.drop_first(),
            list,
            paths_count,
        ) + (if list.contains(entries.first().name@) && first_answers(
            entries,
            entries.first().name@,
            paths_count,
        ) {
            entries.first().size_bytes as nat
        } else {
            0
        }),
    decreases list.len(),
{
    if list.len() > 0 {
        let before = list.drop_last();
        let last = list.last();
        lemma_referenced_size_step(entries, before, paths_count);
        assert(list[list.len() - 1] == last);
        if last == entries.first().name@ {
            if before.contains(last) {
                let i = choose|i: int| 0 <= i < before.len() && before[i] == last;
                assert(list[i] == last);
            }
        } else {
            if before.contains(entries.first().name@) {
                let i = choose|i: int|
                    0 <= i < before.len() && before[i] == entries.first().name@;
                assert(list[i] == entries.first().name@);
            }
        }
    }
}

/// Distinct references stand for no more bytes than the listing holds.
pub proof fn lemma_referenced_within_listing(
    entries: Seq<Entry>,
    list: Seq<Seq<char>>,
    paths_count: bool,
)
    requires
        list.no_duplicates(),
    ensures
        referenced_size(entries, list, paths_count) <= listing_size(entries),
    decreases entries.len(),
{
    if entries.len() == 0 {
        assert(entries =~= Seq::empty());
        lemma_referenced_size_empty(list, paths_count);
    } else {
        lemma_referenced_size_step(entries, list, paths_count);
        lemma_referenced_within_listing(entries.drop_first(), list, paths_count);
        lemma_listing_size_first(entries);
    }
}

/// Distinct references whose names all end like files of one kind stand for
/// no more bytes than the files of that kind take up. A reference that is a
/// path need not end so where paths do not count.
pub proof fn lemma_referenced_within_kind(
    entries: Seq<Entry>,
    list: Seq<Seq<char>>,
    paths_count: bool,
    kind: Kind,
)
    requires
        list.no_duplicates(),
        forall|name: Seq<char>| #[trigger]
            list.contains(name) ==> kind_of(name) == kind || (!paths_count && has_separator(
                name,
            )),
    ensures
        referenced_size(entries, list, paths_count) <= size_of_kind(entries, kind),
    decreases entries.len(),
{
    if entries.len() == 0 {
        assert(entries =~= Seq::empty());
        lemma_referenced_size_empty(list, paths_count);
    } else {
        lemma_referenced_size_step(entries, list, paths_count);
        lemma_referenced_within_kind(entries.drop_first(), list, paths_count, kind);
        lemma_size_of_kind_first(entries, kind);
    }
}

/// Whether `list` holds `name`.
pub fn holds_name(list: &Vec<String>, name: &String) -> (out: bool)
    ensures
        out == names(list@).contains(name@),
{
    let mut i: usize = 0;
    while i < list.len()
        invariant
            i <= list.len(),
            forall|j: int| 0 <= j < i ==> names(list@)[j] != name@,
        decreases list.len() - i,
    {
        if list[i] == *name {
            assert(names(list@)[i as int] == name@);
            return true;
        }
        i = i + 1;
    }
    false
}

/// Puts the reference `name` into the bucket `core`, with the bytes it stands
/// for, unless the bucket holds it already.
pub(crate) fn record(core: &mut Component, entries: &[Entry], name: String, paths_count: bool)
    requires
        listing_size(entries@) <= u64::MAX,
        old(core)@.files.no_duplicates(),
        old(core)@.total_size == referenced_size(entries@, old(core)@.files, paths_count),
    ensures
        final(core)@.files == with_name(old(core)@.files, name@),
        final(core)@.files.no_duplicates(),
        final(core)@.total_size == referenced_size(entries@, final(core)@.files, paths_count),
{
    if !holds_name(&core.files, &name) {
        let ghost before = core@.files;
        let ghost after = before.push(name@);
        proof {
            assert(after.drop_last() =~= before);
            assert(after.no_duplicates());
            lemma_referenced_within_listing(entries@, after, paths_count);
        }
        let size: u64 = if !paths_count && is_path(name.as_str()) {
            0
        } else {
            find_size(entries, &name)
        };
        core.total_size = core.total_size + size;
        core.files.push(name);
        assert(core@.files =~= after);
    }
}

/// The two buckets of what the map definitions `texts` name: the backgrounds
/// and the audio tracks.
pub fn gather(entries: &[Entry], texts: &Vec<String>) -> (out: (Component, Component))
    requires
        listing_size(entries@) <= u64::MAX,
    ensures
        out.0@ == core_bucket(entries@, all_backgrounds(names(texts@)), false),
        out.1@ == core_bucket(entries@, all_audio(names(texts@)), true),
{
    let mut images = Component::empty();
    let mut sounds = Component::empty();
    let ghost all = names(texts@);
    let mut t: usize = 0;
    assert(all.take(0) =~= Seq::<Seq<char>>::empty());
    while t < texts.len()
        invariant
            t <= texts.len(),
            all == names(texts@),
            listing_size(entries@) <= u64::MAX,
            images@ == core_bucket(entries@, all_backgrounds(all.take(t as int)), false),
            sounds@ == core_bucket(entries@, all_audio(all.take(t as int)), true),
        decreases texts.len() - t,
    {
        let found = scan(texts[t].as_str());
        let ghost done_backgrounds = all_backgrounds(all.take(t as int));
        let ghost done_audio = all_audio(all.take(t as int));
        let ghost new_backgrounds = names(found.backgrounds@);
        let ghost new_audio = names(found.audio@);
        proof {
            assert(all.take(t + 1).drop_last() =~= all.take(t as int));
            assert(all.take(t + 1).last() == texts@[t as int]@);
            lemma_distinct(done_backgrounds);
            lemma_distinct(done_audio);
            assert(done_backgrounds + new_backgrounds.take(0) =~= done_backgrounds);
            assert(done_audio + new_audio.take(0) =~= done_audio);
        }
        let mut i: usize = 0;
        while i < found.audio.len()
            invariant
                i <= found.audio.len(),
                new_audio == names(found.audio@),
                listing_size(entries@) <= u64::MAX,
                sounds@ == core_bucket(entries@, done_audio + new_audio.take(i as int), true),
                sounds@.files.no_duplicates(),
            decreases found.audio.len() - i,
        {
            proof {
                let so_far = done_audio + new_audio.take(i + 1);
                assert(so_far.drop_last() =~= done_audio + new_audio.take(i as int));
                assert(so_far.last() == found.audio@[i as int]@);
            }
            record(&mut sounds, entries, found.audio[i].clone(), true);
            i = i + 1;
        }
        let mut k: usize = 0;
        while k < found.backgrounds.len()
            invariant
                k <= found.backgrounds.len(),
                new_backgrounds == names(found.backgrounds@),
                listing_size(entries@) <= u64::MAX,
                images@ == core_bucket(
                    entries@,
                    done_backgrounds + new_backgrounds.take(k as int),
                    false,
                ),
                images@.files.no_duplicates(),
            decreases found.backgrounds.len() - k,
        {
            proof {
                let so_far = done_backgrounds + new_backgrounds.take(k + 1);
                assert(so_far.drop_last() =~= done_backgrounds + new_backgrounds.take(k as int));
                assert(so_far.last() == found.backgrounds@[k as int]@);
            }
            record(&mut images, entries, found.backgrounds[k].clone(), false);
            k = k + 1;
        }
        proof {
            assert(new_audio.take(i as int) =~= new_audio);
            assert(new_backgrounds.take(k as int) =~= new_backgrounds);
        }
        t = t + 1;
    }
    assert(all.take(t as int) =~= all);
    (images, sounds)
}

} // verus!
