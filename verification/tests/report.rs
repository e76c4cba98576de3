use osu_cleaner::args::Args;
use osu_cleaner::cleaner::{Cleaner, Removal};
use osu_cleaner::files::{Component, Files};
use osu_cleaner::report::decimal_of;

fn removal(beatmapset: usize, beatmapsets: usize, ordinal: usize, bucket_len: usize, saved_megabytes: u64) -> Removal {
    Removal {
        name: String::from("bg.jpg"),
        recursive: false,
        beatmapset,
        beatmapsets,
        ordinal,
        bucket_len,
        saved_megabytes,
        perform: true,
        report: true,
    }
}

fn text(digits: Vec<char>) -> String {
    digits.into_iter().collect()
}

fn sounds_only(total_size: u64) -> (Cleaner, Files) {
    let args = Args {
        song_directory_path: String::new(),
        backgrounds: false,
        all: false,
        storyboards: false,
        videos: false,
        images: false,
        sounds: true,
        quiet: false,
        debug: false,
    };
    let files = Files {
        directories: Component::empty(),
        videos: Component::empty(),
        storyboards: Component::empty(),
        core_images: Component::empty(),
        core_sounds: Component::empty(),
        images: Component::empty(),
        sounds: Component { total_size, files: vec![String::from("hit.wav")] },
    };
    (Cleaner::init(args), files)
}

#[test]
fn decimal_of_writes_each_digit() {
    assert_eq!(text(decimal_of(0)), "0");
    assert_eq!(text(decimal_of(7)), "7");
    assert_eq!(text(decimal_of(10)), "10");
    assert_eq!(text(decimal_of(1234567890)), "1234567890");
    assert_eq!(text(decimal_of(u64::MAX)), "18446744073709551615");
}

#[test]
fn line_pads_to_the_width_of_the_totals() {
    assert_eq!(removal(3, 120, 2, 15, 42).line("Set/bg.jpg"), "[003/120] [02/15] [42 MB] Set/bg.jpg");
    assert_eq!(removal(0, 7, 1, 1, 0).line("Set/a"), "[0/7] [1/1] [0 MB] Set/a");
    assert_eq!(removal(99, 100, 10, 10, 1024).line(""), "[099/100] [10/10] [1024 MB] ");
}

#[test]
fn line_does_not_cut_a_number_wider_than_its_total() {
    assert_eq!(removal(12, 5, 100, 0, 3).line("x"), "[12/5] [100/0] [3 MB] x");
}

#[test]
fn line_matches_the_standard_formatting() {
    for (beatmapset, beatmapsets, ordinal, bucket_len, saved) in
        [(0, 0, 1, 9, 0), (5, 1000, 250, 2500, 77), (1000, 1000, 9, 10, u64::MAX)]
    {
        let expected = format!(
            "[{:0width1$}/{}] [{:0width2$}/{}] [{} MB] Set/file.png",
            beatmapset,
            beatmapsets,
            ordinal,
            bucket_len,
            saved,
            width1 = beatmapsets.to_string().len(),
            width2 = bucket_len.to_string().len()
        );
        assert_eq!(removal(beatmapset, beatmapsets, ordinal, bucket_len, saved).line("Set/file.png"), expected);
    }
}

#[test]
fn summary_before_anything_is_freed() {
    let (cleaner, _) = sounds_only(0);
    assert_eq!(cleaner.summary(), "Successfully saved ~0 MB!");
}

#[test]
fn summary_rounds_the_megabytes_down() {
    let (mut cleaner, files) = sounds_only(5 * 1_048_576 + 1_048_575);
    cleaner.clean(&files);
    assert_eq!(cleaner.summary(), "Successfully saved ~5 MB!");
    let (mut cleaner, files) = sounds_only(u64::MAX);
    cleaner.clean(&files);
    assert_eq!(cleaner.summary(), "Successfully saved ~17592186044415 MB!");
}
