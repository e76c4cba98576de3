//! Reading asset references out of the text of a map definition.
//!
//! A map definition is a text of lines. Two kinds of line name an asset: the
//! field line of the audio track and the event line of a background image.

use crate::kind::{mentions_image, names_image};
use crate::text::{
    before_first, chars_of, has_char, lowercase, lowercase_of, piece, rows, split, split_on,
    starts_with, string_of, trim, trimmed, up_to,
};
use vstd::prelude::*;

verus! {

/// The text that a line naming the audio track begins with.
pub open spec fn audio_prefix() -> Seq<char> {
    "AudioFilename:"@
}

/// The text that a line naming a background begins with.
pub open spec fn event_prefix() -> Seq<char> {
    "0,0,"@
}

/// `s` without its first and its last character, where it begins with a double
/// quote and has at least two characters; otherwise `s` itself.
pub open spec fn unquoted(s: Seq<char>) -> Seq<char> {
    if s.len() >= 2 && s.first() == '"' {
        s.subrange(1, s.len() - 1)
    } else {
        s
    }
}

/// The audio track that the trimmed line `line` names, if it names one: what
/// follows the prefix, trimmed and in lowercase.
pub open spec fn audio_reference(line: Seq<char>) -> Option<Seq<char>> {
    if audio_prefix().is_prefix_of(line) {
        Some(lowercase_of(trimmed(line.skip(audio_prefix().len() as int))))
    } else {
        None
    }
}

/// The background that the trimmed line `line` names, if it names one: the
/// third of its comma-separated fields, in lowercase and without quotes.
pub open spec fn background_reference(line: Seq<char>) -> Option<Seq<char>> {
    if event_prefix().is_prefix_of(line) && mentions_image(line) {
        Some(unquoted(lowercase_of(split_on(line, ',')[2])))
    } else {
        None
    }
}

/// The lines of `text`, each trimmed.
pub open spec fn lines_of(text: Seq<char>) -> Seq<Seq<char>> {
    split_on(text, '\n').map_values(|line: Seq<char>| trimmed(line))
}

/// The audio tracks that the lines of `text` name, in the order of the lines.
pub open spec fn audio_references(text: Seq<char>) -> Seq<Seq<char>> {
    lines_of(text).filter_map(|line: Seq<char>| audio_reference(line))
}

/// The backgrounds that the lines of `text` name, in the order of the lines.
pub open spec fn background_references(text: Seq<char>) -> Seq<Seq<char>> {
    lines_of(text).filter_map(|line: Seq<char>| background_reference(line))
}

/// Whether `name` holds a path separator, forward or backward.
pub open spec fn has_separator(name: Seq<char>) -> bool {
    name.contains('/') || name.contains('\\')
}

/// The first segment of the path `name`: what stands before its first forward
/// slash, or, where it has none, before its first backslash.
pub open spec fn parent_segment(name: Seq<char>) -> Seq<char> {
    if name.contains('/') {
        before_first(name, '/')
    } else {
        before_first(name, '\\')
    }
}

/// The views of a sequence of strings.
pub open spec fn names(strings: Seq<String>) -> Seq<Seq<char>> {
    strings.map_values(|s: String| s@)
}

/// A splitting has at least one piece, and a longer text has no fewer pieces
/// than any of its beginnings.
pub proof fn lemma_split_grows(s: Seq<char>, sep: char, k: int)
    requires
        0 <= k <= s.len(),
    ensures
        1 <= split_on(s.take(k), sep).len() <= split_on(s, sep).len(),
    decreases s.len(),
{
    if k == s.len() {
        assert(s.take(k) =~= s);
        if s.len() > 0 {
            lemma_split_grows(s.drop_last(), sep, k - 1);
        }
    } else {
        lemma_split_grows(s.drop_last(), sep, k);
        assert(s.drop_last().take(k) =~= s.take(k));
    }
}

/// A line that begins with the event prefix has at least three fields.
pub proof fn lemma_event_fields(line: Seq<char>)
    requires
        event_prefix().is_prefix_of(line),
    ensures
        split_on(line, ',').len() >= 3,
{
    reveal_strlit("0,0,");
    let p = event_prefix();
    assert(line.take(4) =~= p);
    lemma_split_grows(line, ',', 4);
    let none = p.take(0);
    let one = p.take(1);
    let two = p.take(2);
    let three = p.take(3);
    assert(p.drop_last() =~= three);
    assert(three.drop_last() =~= two);
    assert(two.drop_last() =~= one);
    assert(one.drop_last() =~= none);
    assert(split_on(none, ',').len() == 1);
    assert(split_on(one, ',').len() == 1);
    assert(split_on(two, ',').len() == 2);
    assert(split_on(three, ',').len() == 2);
    assert(split_on(p, ',').len() == 3);
}

/// `s` without surrounding quotes.
pub fn strip_quotes(s: &[char]) -> (out: Vec<char>)
    ensures
        out@ == unquoted(s@),
{
    if s.len() >= 2 && s[0] == '"' {
        piece(s, 1, s.len() - 1)
    } else {
        assert(s@.subrange(0, s@.len() as int) =~= s@);
        piece(s, 0, s.len())
    }
}

/// The audio track that the trimmed line `line` names, if it names one.
pub fn read_audio(line: &[char]) -> (out: Option<String>)
    ensures
        (match out {
            Some(name) => audio_reference(line@) == Some(name@),
            None => audio_reference(line@) is None,
        }),
{
    let prefix = chars_of("AudioFilename:");
    if starts_with(line, prefix.as_slice()) {
        let rest = piece(line, prefix.len(), line.len());
        let name = string_of(trim(rest.as_slice()).as_slice());
        Some(lowercase(name.as_str()))
    } else {
        None
    }
}

/// The background that the trimmed line `line` names, if it names one.
pub fn read_background(line: &[char]) -> (out: Option<String>)
    ensures
        (match out {
            Some(name) => background_reference(line@) == Some(name@),
            None => background_reference(line@) is None,
        }),
{
    let prefix = chars_of("0,0,");
    if starts_with(line, prefix.as_slice()) && names_image(line) {
        let fields = split(line, ',');
        proof {
            lemma_event_fields(line@);
        }
        let field = lowercase(string_of(fields[2].as_slice()).as_str());
        let name = strip_quotes(chars_of(field.as_str()).as_slice());
        Some(string_of(name.as_slice()))
    } else {
        None
    }
}

/// Whether `name` holds a path separator.
pub fn is_path(name: &str) -> (out: bool)
    ensures
        out == has_separator(name@),
{
    let name = chars_of(name);
    has_char(name.as_slice(), '/') || has_char(name.as_slice(), '\\')
}

/// The first segment of the path `name`.
pub fn first_segment(name: &str) -> (out: String)
    ensures
        out@ == parent_segment(name@),
{
    let name = chars_of(name);
    let segment = if has_char(name.as_slice(), '/') {
        up_to(name.as_slice(), '/')
    } else {
        up_to(name.as_slice(), '\\')
    };
    string_of(segment.as_slice())
}

/// The asset references found in one map definition.
pub struct References {
    /// The audio tracks named, in the order of the lines that name them.
    pub audio: Vec<String>,
    /// The backgrounds named, in the order of the lines that name them.
    pub backgrounds: Vec<String>,
}

/// Reads the references out of the text of a map definition.
pub fn scan(text: &str) -> (out: References)
    ensures
        names(out.audio@) == audio_references(text@),
        names(out.backgrounds@) == background_references(text@),
{
    let text = chars_of(text);
    let raw = split(text.as_slice(), '\n');
    let mut audio: Vec<String> = Vec::new();
    let mut backgrounds: Vec<String> = Vec::new();
    let ghost lines = lines_of(text@);
    let ghost pick_audio = |line: Seq<char>| audio_reference(line);
    let ghost pick_background = |line: Seq<char>| background_reference(line);
    let mut i: usize = 0;
    assert(lines.take(0) =~= Seq::<Seq<char>>::empty());
    assert(names(audio@) =~= lines.take(0).filter_map(pick_audio));
    assert(names(backgrounds@) =~= lines.take(0).filter_map(pick_background));
    while i < raw.len()
        invariant
            i <= raw.len(),
            rows(raw@) == split_on(text@, '\n'),
            lines == lines_of(text@),
            lines.len() == raw.len(),
            pick_audio == (|line: Seq<char>| audio_reference(line)),
            pick_background == (|line: Seq<char>| background_reference(line)),
            names(audio@) == lines.take(i as int).filter_map(pick_audio),
            names(backgrounds@) == lines.take(i as int).filter_map(pick_background),
        decreases raw.len() - i,
    {
        let line = trim(raw[i].as_slice());
        assert(line@ == lines[i as int]);
        proof {
            lines.lemma_filter_map_take_succ(pick_audio, i as int);
            lines.lemma_filter_map_take_succ(pick_background, i as int);
        }
        let ghost audio_before = names(audio@);
        let ghost backgrounds_before = names(backgrounds@);
        match read_audio(line.as_slice()) {
            Some(name) => {
                audio.push(name);
                assert(names(audio@) =~= audio_before + seq![name@]);
            },
            None => {},
        }
        match read_background(line.as_slice()) {
            Some(name) => {
                backgrounds.push(name);
                assert(names(backgrounds@) =~= backgrounds_before + seq![name@]);
            },
            None => {},
        }
        i = i + 1;
    }
    assert(lines.take(i as int) =~= lines);
    References { audio, backgrounds }
}

} // verus!
