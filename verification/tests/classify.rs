use osu_cleaner::args::Args;
use osu_cleaner::classifier::{classify, protected, retain_absent};
use osu_cleaner::files::{Entry, Files};
use osu_cleaner::listing::{find_size, fits};
use osu_cleaner::references::{gather, holds_name};

fn options(backgrounds: bool, all: bool) -> Args {
    Args {
        song_directory_path: String::from("songs"),
        backgrounds,
        all,
        storyboards: false,
        videos: false,
        images: false,
        sounds: false,
        quiet: false,
        debug: false,
    }
}

fn file(name: &str, size: u64) -> Entry {
    Entry::new(name, false, size)
}

fn directory(name: &str, size: u64) -> Entry {
    Entry::new(name, true, size)
}

fn strings(names: &[&str]) -> Vec<String> {
    names.iter().map(|name| name.to_string()).collect()
}

fn sample() -> (Vec<Entry>, Vec<String>) {
    let entries = vec![
        file("map.osu", 900),
        file("song.mp3", 4000),
        file("bg.jpg", 300),
        file("unused.png", 70),
        file("video.mp4", 50000),
    ];
    let texts = strings(&["AudioFilename: Song.mp3\n[Events]\n0,0,\"bg.jpg\",0,0\n"]);
    (entries, texts)
}

fn has_no_duplicates(names: &[String]) -> bool {
    names.iter().enumerate().all(|(i, name)| !names[..i].contains(name))
}

fn shares_no_name(a: &[String], b: &[String]) -> bool {
    a.iter().all(|name| !b.contains(name))
}

#[test]
fn entry_new_puts_the_name_in_lowercase() {
    let entry = Entry::new("BG.Jpg", false, 12);
    assert_eq!(entry.name, "bg.jpg");
    assert!(!entry.is_directory);
    assert_eq!(entry.size_bytes, 12);
    let entry = Entry::new("SB", true, 0);
    assert_eq!(entry.name, "sb");
    assert!(entry.is_directory);
}

#[test]
fn fits_tells_whether_the_sizes_stay_within_u64() {
    assert!(fits(&[]));
    assert!(fits(&[file("a.png", u64::MAX)]));
    assert!(fits(&[file("a.png", u64::MAX - 1), directory("d", 1)]));
    assert!(!fits(&[file("a.png", u64::MAX), directory("d", 1)]));
    assert!(!fits(&[file("a.png", u64::MAX), file("b.png", 0), file("c.png", 2)]));
}

#[test]
fn find_size_takes_the_first_file_of_the_name() {
    let entries = vec![directory("bg.jpg", 5), file("bg.jpg", 7), file("bg.jpg", 9), file("x.png", 1)];
    assert_eq!(find_size(&entries, &"bg.jpg".to_string()), 7);
    assert_eq!(find_size(&entries, &"x.png".to_string()), 1);
    assert_eq!(find_size(&entries, &"missing.png".to_string()), 0);
    assert_eq!(find_size(&[], &"bg.jpg".to_string()), 0);
}

#[test]
fn holds_name_compares_whole_names() {
    let list = strings(&["a.png", "b.png"]);
    assert!(holds_name(&list, &"b.png".to_string()));
    assert!(!holds_name(&list, &"b.pn".to_string()));
    assert!(!holds_name(&Vec::new(), &"a.png".to_string()));
}

#[test]
fn retain_absent_keeps_the_order() {
    let list = strings(&["a", "b", "c", "b", "d"]);
    assert_eq!(retain_absent(&list, &strings(&["b", "x"])), strings(&["a", "c", "d"]));
    assert_eq!(retain_absent(&list, &Vec::new()), list);
    assert_eq!(retain_absent(&Vec::new(), &list), Vec::<String>::new());
}

#[test]
fn protected_lists_the_first_segment_of_each_path() {
    let backgrounds = strings(&["bg.jpg", "art/bg.png", "sb\\x.png", "art/other.png"]);
    assert_eq!(protected(&backgrounds), strings(&["art", "sb", "art"]));
    assert_eq!(protected(&strings(&["bg.jpg"])), Vec::<String>::new());
}

#[test]
fn gather_sizes_each_reference_once() {
    let entries = vec![file("song.mp3", 4000), file("bg.jpg", 300), file("second.png", 20)];
    let texts = strings(&[
        "AudioFilename: song.mp3\n0,0,\"bg.jpg\",0,0",
        "AudioFilename: song.mp3\n0,0,\"second.png\",0,0\n0,0,\"bg.jpg\",0,0",
    ]);
    let (images, sounds) = gather(&entries, &texts);
    assert_eq!(images.files, strings(&["bg.jpg", "second.png"]));
    assert_eq!(images.total_size, 320);
    assert_eq!(sounds.files, strings(&["song.mp3"]));
    assert_eq!(sounds.total_size, 4000);
}

#[test]
fn classify_sorts_a_beatmapset() {
    let (entries, texts) = sample();
    let files: Files = classify(&options(false, false), &entries, &texts);
    assert_eq!(files.core_sounds.files, strings(&["song.mp3"]));
    assert_eq!(files.core_sounds.total_size, 4000);
    assert_eq!(files.core_images.files, strings(&["bg.jpg"]));
    assert_eq!(files.core_images.total_size, 300);
    assert_eq!(files.images.files, strings(&["unused.png"]));
    assert_eq!(files.images.total_size, 70);
    assert_eq!(files.sounds.files, Vec::<String>::new());
    assert_eq!(files.sounds.total_size, 0);
    assert_eq!(files.videos.files, strings(&["video.mp4"]));
    assert_eq!(files.videos.total_size, 50000);
    assert_eq!(files.storyboards.files, Vec::<String>::new());
    assert_eq!(files.storyboards.total_size, 0);
    assert_eq!(files.directories.files, Vec::<String>::new());
    assert_eq!(files.directories.total_size, 0);
}

#[test]
fn classify_takes_the_background_from_the_third_field() {
    let entries = vec![
        file("song.mp3", 4000),
        file("bg.jpg", 300),
        file("unused.png", 70),
        file("video.mp4", 50000),
    ];
    let texts = strings(&["AudioFilename: Song.mp3\n0,0,100,100,\"bg.jpg\""]);
    let files = classify(&options(false, false), &entries, &texts);
    assert_eq!(files.core_sounds.files, strings(&["song.mp3"]));
    assert_eq!(files.core_images.files, strings(&["100"]));
    assert_eq!(files.core_images.total_size, 0);
    assert_eq!(files.images.files, strings(&["bg.jpg", "unused.png"]));
    assert_eq!(files.images.total_size, 370);
    assert_eq!(files.videos.files, strings(&["video.mp4"]));
}

#[test]
fn classify_keeps_the_directory_of_a_background() {
    let entries = vec![directory("art", 10), directory("sb", 20), file("map.osu", 1)];
    let texts = strings(&["0,0,\"art/bg.png\",0,0"]);
    let files = classify(&options(false, false), &entries, &texts);
    assert_eq!(files.core_images.files, strings(&["art/bg.png"]));
    assert_eq!(files.core_images.total_size, 0);
    assert_eq!(files.directories.files, strings(&["sb"]));
    assert_eq!(files.directories.total_size, 30);
    assert_eq!(files.images.total_size, 0);
}

#[test]
fn classify_keeps_the_directory_where_all_goes_with_backgrounds() {
    let entries = vec![directory("art", 10), directory("sb", 20)];
    let texts = strings(&["0,0,\"art\\bg.png\",0,0"]);
    let files = classify(&options(true, true), &entries, &texts);
    assert_eq!(files.directories.files, strings(&["sb"]));
}

#[test]
fn classify_lists_every_directory_where_backgrounds_go() {
    let entries = vec![directory("art", 10), directory("sb", 20)];
    let texts = strings(&["0,0,\"art/bg.png\",0,0"]);
    let files = classify(&options(true, false), &entries, &texts);
    assert_eq!(files.core_images.files, strings(&["art/bg.png"]));
    assert_eq!(files.directories.files, strings(&["art", "sb"]));
    assert_eq!(files.directories.total_size, 30);
}

#[test]
fn classify_does_not_size_a_background_that_is_a_path() {
    let entries = vec![file("art/bg.png", 500), file("bg.png", 40)];
    let texts = strings(&["0,0,\"art/bg.png\",0,0\n0,0,\"bg.png\",0,0"]);
    let files = classify(&options(false, false), &entries, &texts);
    assert_eq!(files.core_images.files, strings(&["art/bg.png", "bg.png"]));
    assert_eq!(files.core_images.total_size, 40);
    assert_eq!(files.images.files, Vec::<String>::new());
    assert_eq!(files.images.total_size, 500);
}

#[test]
fn classify_sizes_an_audio_track_that_is_a_path() {
    let entries = vec![file("sub/song.mp3", 500), file("other.ogg", 3)];
    let texts = strings(&["AudioFilename: sub/song.mp3"]);
    let files = classify(&options(false, false), &entries, &texts);
    assert_eq!(files.core_sounds.files, strings(&["sub/song.mp3"]));
    assert_eq!(files.core_sounds.total_size, 500);
    assert_eq!(files.sounds.files, strings(&["other.ogg"]));
    assert_eq!(files.sounds.total_size, 3);
}

#[test]
fn classify_counts_a_missing_asset_as_nothing() {
    let entries = vec![file("hit.wav", 8)];
    let texts = strings(&["AudioFilename: gone.mp3\n0,0,\"gone.jpg\",0,0"]);
    let files = classify(&options(false, false), &entries, &texts);
    assert_eq!(files.core_sounds.files, strings(&["gone.mp3"]));
    assert_eq!(files.core_sounds.total_size, 0);
    assert_eq!(files.core_images.files, strings(&["gone.jpg"]));
    assert_eq!(files.core_images.total_size, 0);
    assert_eq!(files.sounds.files, strings(&["hit.wav"]));
    assert_eq!(files.sounds.total_size, 8);
}

#[test]
fn classify_names_each_core_asset_once() {
    let entries = vec![file("song.mp3", 4000), file("bg.jpg", 300)];
    let texts = strings(&[
        "AudioFilename: song.mp3\n0,0,\"bg.jpg\",0,0\n0,0,\"BG.jpg\",0,0",
        "AudioFilename: SONG.mp3\n0,0,\"bg.jpg\",0,0",
        "AudioFilename: song.mp3",
    ]);
    let files = classify(&options(false, false), &entries, &texts);
    assert_eq!(files.core_sounds.files, strings(&["song.mp3"]));
    assert_eq!(files.core_sounds.total_size, 4000);
    assert_eq!(files.core_images.files, strings(&["bg.jpg"]));
    assert_eq!(files.core_images.total_size, 300);
    assert!(has_no_duplicates(&files.core_images.files));
    assert!(has_no_duplicates(&files.core_sounds.files));
}

#[test]
fn classify_keeps_loose_and_core_apart() {
    let entries = vec![
        file("bg.jpg", 300),
        file("skin.png", 5),
        file("song.mp3", 4000),
        file("hit.wav", 8),
        file("BG.JPG", 11),
    ];
    let texts = strings(&["AudioFilename: song.mp3\n0,0,\"bg.jpg\",0,0"]);
    let files = classify(&options(false, false), &entries, &texts);
    assert_eq!(files.images.files, strings(&["skin.png"]));
    assert_eq!(files.sounds.files, strings(&["hit.wav"]));
    assert!(shares_no_name(&files.images.files, &files.core_images.files));
    assert!(shares_no_name(&files.sounds.files, &files.core_sounds.files));
}

#[test]
fn classify_conserves_the_bytes_of_images_and_sounds() {
    let entries = vec![
        file("bg.jpg", 300),
        file("skin.png", 5),
        file("cursor.jpeg", 7),
        file("song.mp3", 4000),
        file("hit.wav", 8),
        file("clap.ogg", 9),
        file("notes.txt", 1000),
    ];
    let texts = strings(&["AudioFilename: song.mp3\n0,0,\"bg.jpg\",0,0"]);
    let files = classify(&options(false, false), &entries, &texts);
    assert_eq!(files.images.total_size + files.core_images.total_size, 300 + 5 + 7);
    assert_eq!(files.sounds.total_size + files.core_sounds.total_size, 4000 + 8 + 9);
    assert_eq!(files.images.total_size, 12);
    assert_eq!(files.sounds.total_size, 17);
}

#[test]
fn classify_stops_the_loose_bytes_at_nothing() {
    let entries = vec![file("song.mp3", 4000), file("skin.png", 5)];
    let texts = strings(&["0,0,song.mp3,\"x.png\""]);
    let files = classify(&options(false, false), &entries, &texts);
    assert_eq!(files.core_images.files, strings(&["song.mp3"]));
    assert_eq!(files.core_images.total_size, 4000);
    assert_eq!(files.images.files, strings(&["skin.png"]));
    assert_eq!(files.images.total_size, 0);
    assert_eq!(files.sounds.files, strings(&["song.mp3"]));
    assert_eq!(files.sounds.total_size, 4000);
}

#[test]
fn classify_goes_by_the_tables_in_their_order() {
    let entries = vec![
        directory("clip.mp4", 1),
        file("story.osb", 2),
        file("clip.avi", 3),
        file("a.jpeg", 4),
        file("b.ogg", 5),
        file("c.txt", 6),
        file("MAP.OSU", 7),
        file("d.flv", 8),
    ];
    let files = classify(&options(false, false), &entries, &Vec::new());
    assert_eq!(files.directories.files, strings(&["clip.mp4"]));
    assert_eq!(files.directories.total_size, 1);
    assert_eq!(files.storyboards.files, strings(&["story.osb"]));
    assert_eq!(files.storyboards.total_size, 2);
    assert_eq!(files.videos.files, strings(&["clip.avi", "d.flv"]));
    assert_eq!(files.videos.total_size, 11);
    assert_eq!(files.images.files, strings(&["a.jpeg"]));
    assert_eq!(files.images.total_size, 4);
    assert_eq!(files.sounds.files, strings(&["b.ogg"]));
    assert_eq!(files.sounds.total_size, 5);
}

#[test]
fn classify_of_nothing_is_empty() {
    let files = classify(&options(false, false), &[], &Vec::new());
    assert!(files.directories.files.is_empty());
    assert!(files.videos.files.is_empty());
    assert!(files.storyboards.files.is_empty());
    assert!(files.core_images.files.is_empty());
    assert!(files.core_sounds.files.is_empty());
    assert!(files.images.files.is_empty());
    assert!(files.sounds.files.is_empty());
    assert_eq!(files.images.total_size, 0);
}

#[test]
fn classify_does_not_depend_on_debug_or_quiet() {
    let (entries, texts) = sample();
    let mut dry = options(false, false);
    dry.debug = true;
    dry.quiet = true;
    let a = classify(&options(false, false), &entries, &texts);
    let b = classify(&dry, &entries, &texts);
    assert_eq!(a.images.files, b.images.files);
    assert_eq!(a.images.total_size, b.images.total_size);
    assert_eq!(a.core_images.files, b.core_images.files);
    assert_eq!(a.core_sounds.files, b.core_sounds.files);
    assert_eq!(a.videos.files, b.videos.files);
    assert_eq!(a.directories.files, b.directories.files);
}
