//! Sums and selections over the listing of a beatmapset directory.

use crate::files::{ComponentView, Entry};
use crate::kind::Kind;
use vstd::prelude::*;

verus! {

/// The names of the entries of kind `kind`, in the order of the listing.
pub open spec fn names_of_kind(entries: Seq<Entry>, kind: Kind) -> Seq<Seq<char>>
    decreases entries.len(),
{
    if entries.len() == 0 {
        Seq::empty()
    } else {
        let before = names_of_kind(entries.drop_last(), kind);
        if entries.last().kind() == kind {
            before.push(entries.last().name@)
        } else {
            before
        }
    }
}

/// The bytes that the entries of kind `kind` take up together.
pub open spec fn size_of_kind(entries: Seq<Entry>, kind: Kind) -> nat
    decreases entries.len(),
{
    if entries.len() == 0 {
        0
    } else {
        let before = size_of_kind(entries.drop_last(), kind);
        if entries.last().kind() == kind {
            before + entries.last().size_bytes as nat
        } else {
            before
        }
    }
}

/// The bytes that all entries take up together.
pub open spec fn listing_size(entries: Seq<Entry>) -> nat
    decreases entries.len(),
{
    if entries.len() == 0 {
        0
    } else {
        listing_size(entries.drop_last()) + entries.last().size_bytes as nat
    }
}

/// The bucket of the entries of kind `kind`.
pub open spec fn bucket(entries: Seq<Entry>, kind: Kind) -> ComponentView {
    ComponentView {
        total_size: size_of_kind(entries, kind),
        files: names_of_kind(entries, kind),
    }
}

/// The size of the file called `name`: that of the first entry of that name
/// which is no directory, and 0 where there is none.
pub open spec fn probe(entries: Seq<Entry>, name: Seq<char>) -> nat
    decreases entries.len(),
{
    if entries.len() == 0 {
        0
    } else if !entries.first().is_directory && entries.first().name@ == name {
        entries.first().size_bytes as nat
    } else {
        probe(entries.drop_first(), name)
    }
}

/// The entries of one kind take up no more than all entries do.
pub proof fn lemma_kind_within_listing(entries: Seq<Entry>, kind: Kind)
    ensures
        size_of_kind(entries, kind) <= listing_size(entries),
    decreases entries.len(),
{
    if entries.len() > 0 {
        lemma_kind_within_listing(entries.drop_last(), kind);
    }
}

/// The first `n` entries take up no more than all entries do.
pub proof fn lemma_listing_size_take(entries: Seq<Entry>, n: int)
    requires
        0 <= n <= entries.len(),
    ensures
        listing_size(entries.take(n)) <= listing_size(entries),
    decreases entries.len(),
{
    if n == entries.len() {
        assert(entries.take(n) =~= entries);
    } else {
        lemma_listing_size_take(entries.drop_last(), n);
        assert(entries.drop_last().take(n) =~= entries.take(n));
    }
}

/// The size of a listing, counted from its first entry.
pub proof fn lemma_listing_size_first(entries: Seq<Entry>)
    requires
        entries.len() > 0,
    ensures
        listing_size(entries) == entries.first().size_bytes as nat + listing_size(
            entries.drop_first(),
        ),
    decreases entries.len(),
{
    if entries.len() == 1 {
        assert(entries.drop_first() =~= entries.drop_last());
    } else {
        lemma_listing_size_first(entries.drop_last());
        assert(entries.drop_last().drop_first() =~= entries.drop_first().drop_last());
    }
}

/// The size of the entries of one kind, counted from the first entry.
pub proof fn lemma_size_of_kind_first(entries: Seq<Entry>, kind: Kind)
    requires
        entries.len() > 0,
    ensures
        size_of_kind(entries, kind) == (if entries.first().kind() == kind {
            entries.first().size_bytes as nat
        } else {
            0
        }) + size_of_kind(entries.drop_first(), kind),
    decreases entries.len(),
{
    if entries.len() == 1 {
        assert(entries.drop_first() =~= entries.drop_last());
    } else {
        lemma_size_of_kind_first(entries.drop_last(), kind);
        assert(entries.drop_last().drop_first() =~= entries.drop_first().drop_last());
    }
}

/// Whether the listing fits: whether the sizes of its entries, added up, stay
/// within a `u64`.
pub fn fits(entries: &[Entry]) -> (out: bool)
    ensures
        out == (listing_size(entries@) <= u64::MAX),
{
    let mut sum: u64 = 0;
    let mut i: usize = 0;
    assert(entries@.take(0) =~= Seq::<Entry>::empty());
    while i < entries.len()
        invariant
            i <= entries.len(),
            sum == listing_size(entries@.take(i as int)),
        decreases entries.len() - i,
    {
        assert(entries@.take(i + 1).drop_last() =~= entries@.take(i as int));
        match sum.checked_add(entries[i].size_bytes) {
            Some(next) => {
                sum = next;
            },
            None => {
                proof {
                    lemma_listing_size_take(entries@, i + 1);
                }
                return false;
            },
        }
        i = i + 1;
    }
    assert(entries@.take(i as int) =~= entries@);
    true
}

/// The size of the file called `name`, and 0 where the listing has none.
pub fn find_size(entries: &[Entry], name: &String) -> (out: u64)
    ensures
        out == probe(entries@, name@),
{
    let mut i: usize = 0;
    assert(entries@.skip(0) =~= entries@);
    while i < entries.len()
        invariant
            i <= entries.len(),
            probe(entries@, name@) == probe(entries@.skip(i as int), name@),
        decreases entries.len() - i,
    {
        assert(entries@.skip(i as int).drop_first() =~= entries@.skip(i + 1));
        if !entries[i].is_directory && entries[i].name == *name {
            return entries[i].size_bytes;
        }
        i = i + 1;
    }
    0
}

} // verus!
