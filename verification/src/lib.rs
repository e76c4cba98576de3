//! Sorting the files of osu! beatmapsets into what the maps need and what they
//! do not, and choosing what to remove to free disk space.
//!
//! A beatmapset is a directory that holds map definitions and the media that
//! go with them. [`classifier::classify`] sorts the entries of one beatmapset
//! into seven buckets, after the listing of its directory and the text of its
//! map definitions. [`cleaner::Cleaner`] chooses the buckets to remove as the
//! options say and keeps count of the bytes freed. Nothing here reads or
//! writes a disk.

pub mod args;
pub mod classifier;
pub mod cleaner;
pub mod definition;
pub mod files;
pub mod kind;
pub mod laws;
pub mod listing;
pub mod references;
pub mod report;
pub mod text;
