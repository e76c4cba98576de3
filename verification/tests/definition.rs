use osu_cleaner::definition::{
    first_segment, is_path, read_audio, read_background, scan, strip_quotes,
};
use osu_cleaner::kind::{kind, names_image, Kind};

fn chars(s: &str) -> Vec<char> {
    s.chars().collect()
}

#[test]
fn kind_goes_by_the_end_of_the_name() {
    assert_eq!(kind(&chars("map [hard].osu")), Kind::MapDefinition);
    assert_eq!(kind(&chars("story.osb")), Kind::Storyboard);
    for name in ["a.avi", "a.flv", "a.m4v", "a.mkv", "a.mp4"] {
        assert_eq!(kind(&chars(name)), Kind::Video);
    }
    for name in ["a.jpeg", "a.jpg", "a.png"] {
        assert_eq!(kind(&chars(name)), Kind::Image);
    }
    for name in ["a.mp3", "a.ogg", "a.wav"] {
        assert_eq!(kind(&chars(name)), Kind::Sound);
    }
    assert_eq!(kind(&chars("readme.txt")), Kind::Other);
    assert_eq!(kind(&chars("")), Kind::Other);
}

#[test]
fn kind_needs_no_dot_but_for_map_definitions() {
    assert_eq!(kind(&chars("xosb")), Kind::Storyboard);
    assert_eq!(kind(&chars("notpng")), Kind::Image);
    assert_eq!(kind(&chars("mp3")), Kind::Sound);
    assert_eq!(kind(&chars("osu")), Kind::Other);
    assert_eq!(kind(&chars("a.osu.png")), Kind::Image);
}

#[test]
fn names_image_looks_anywhere_in_the_line() {
    assert!(names_image(&chars("0,0,\"bg.jpg\",0,0")));
    assert!(names_image(&chars("0,0,\"bg.jpeg\"")));
    assert!(names_image(&chars("0,0,x,png,y")));
    assert!(!names_image(&chars("0,0,\"BG.JPG\",0,0")));
    assert!(!names_image(&chars("0,0,video.avi")));
}

#[test]
fn strip_quotes_drops_one_character_at_each_end() {
    assert_eq!(strip_quotes(&chars("\"bg.jpg\"")), chars("bg.jpg"));
    assert_eq!(strip_quotes(&chars("\"\"")), chars(""));
    assert_eq!(strip_quotes(&chars("\"bg.jpg")), chars("bg.jp"));
    assert_eq!(strip_quotes(&chars("\"é.png\"")), chars("é.png"));
    assert_eq!(strip_quotes(&chars("\"\"x\"\"")), chars("\"x\""));
}

#[test]
fn strip_quotes_leaves_short_and_unquoted_text() {
    assert_eq!(strip_quotes(&chars("\"")), chars("\""));
    assert_eq!(strip_quotes(&chars("")), chars(""));
    assert_eq!(strip_quotes(&chars("bg.jpg")), chars("bg.jpg"));
    assert_eq!(strip_quotes(&chars("bg.jpg\"")), chars("bg.jpg\""));
}

#[test]
fn read_audio_takes_what_follows_the_prefix() {
    assert_eq!(read_audio(&chars("AudioFilename: Song.mp3")), Some("song.mp3".to_string()));
    assert_eq!(read_audio(&chars("AudioFilename:audio.OGG")), Some("audio.ogg".to_string()));
    assert_eq!(read_audio(&chars("AudioFilename:   a b.mp3")), Some("a b.mp3".to_string()));
    assert_eq!(read_audio(&chars("AudioFilename: sub/Track.mp3")), Some("sub/track.mp3".to_string()));
}

#[test]
fn read_audio_accepts_a_line_with_nothing_after_the_prefix() {
    assert_eq!(read_audio(&chars("AudioFilename:")), Some(String::new()));
    assert_eq!(read_audio(&chars("AudioFilename:  ")), Some(String::new()));
}

#[test]
fn read_audio_passes_over_other_lines() {
    assert_eq!(read_audio(&chars("AudioFilename")), None);
    assert_eq!(read_audio(&chars("audiofilename: song.mp3")), None);
    assert_eq!(read_audio(&chars(" AudioFilename: song.mp3")), None);
    assert_eq!(read_audio(&chars("AudioLeadIn: 0")), None);
    assert_eq!(read_audio(&chars("")), None);
}

#[test]
fn read_background_takes_the_third_field() {
    assert_eq!(read_background(&chars("0,0,\"BG.jpg\",0,0")), Some("bg.jpg".to_string()));
    assert_eq!(read_background(&chars("0,0,bg.png")), Some("bg.png".to_string()));
    assert_eq!(read_background(&chars("0,0,\"art/bg.png\",0,0")), Some("art/bg.png".to_string()));
    assert_eq!(read_background(&chars("0,0,100,100,\"bg.jpg\"")), Some("100".to_string()));
    assert_eq!(read_background(&chars("0,0,,x.png")), Some(String::new()));
    assert_eq!(read_background(&chars("0,0,\",b.png")), Some("\"".to_string()));
}

#[test]
fn read_background_passes_over_other_lines() {
    assert_eq!(read_background(&chars("0,0,\"bg.gif\",0,0")), None);
    assert_eq!(read_background(&chars("0,0,\"BG.JPG\",0,0")), None);
    assert_eq!(read_background(&chars("1,0,\"bg.jpg\"")), None);
    assert_eq!(read_background(&chars("0,0")), None);
    assert_eq!(read_background(&chars("Video,0,\"clip.png\"")), None);
    assert_eq!(read_background(&chars("")), None);
}

#[test]
fn is_path_looks_for_either_separator() {
    assert!(is_path("art/bg.png"));
    assert!(is_path("art\\bg.png"));
    assert!(!is_path("bg.png"));
    assert!(!is_path(""));
}

#[test]
fn first_segment_prefers_the_forward_slash() {
    assert_eq!(first_segment("art/bg.png"), "art");
    assert_eq!(first_segment("art\\bg.png"), "art");
    assert_eq!(first_segment("a\\b/c.png"), "a\\b");
    assert_eq!(first_segment("a/b\\c.png"), "a");
    assert_eq!(first_segment("art/sub/bg.png"), "art");
    assert_eq!(first_segment("/bg.png"), "");
    assert_eq!(first_segment("bg.png"), "bg.png");
}

#[test]
fn scan_reads_every_line() {
    let text = "osu file format v14\r\n\r\n[General]\r\n  AudioFilename: Song.mp3  \r\nAudioLeadIn: 0\r\n\r\n[Events]\r\n//Background and Video events\r\n0,0,\"BG.jpg\",0,0\r\nVideo,0,\"clip.mp4\"\r\n0,0,\"art\\Other.PNG\",0,0 png\r\nAudioFilename: Song.mp3";
    let found = scan(text);
    assert_eq!(found.audio, vec!["song.mp3".to_string(), "song.mp3".to_string()]);
    assert_eq!(found.backgrounds, vec!["bg.jpg".to_string(), "art\\other.png".to_string()]);
}

#[test]
fn scan_of_an_empty_text_finds_nothing() {
    let found = scan("");
    assert!(found.audio.is_empty());
    assert!(found.backgrounds.is_empty());
}
