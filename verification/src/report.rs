//! The lines that a run prints: one for each removal, and one at the end.

use crate::cleaner::{megabyte, Cleaner, Removal, RemovalView};
use crate::text::{chars_of, string_of};
use vstd::prelude::*;

verus! {

/// The character of the decimal digit `d`.
pub open spec fn digit(d: nat) -> char {
    seq!['0', '1', '2', '3', '4', '5', '6', '7', '8', '9'][d as int]
}

/// `n` in decimal, without leading zeros.
pub open spec fn decimal(n: nat) -> Seq<char>
    decreases n,
{
    if n < 10 {
        seq![digit(n)]
    } else {
        decimal(n / 10).push(digit(n % 10))
    }
}

/// `count` zeros.
pub open spec fn zeros(count: nat) -> Seq<char> {
    Seq::new(count, |i: int| '0')
}

/// `n` in decimal, with zeros in front where it has fewer than `width` digits.
pub open spec fn padded(n: nat, width: nat) -> Seq<char> {
    let digits = decimal(n);
    if digits.len() < width {
        zeros((width - digits.len()) as nat) + digits
    } else {
        digits
    }
}

/// `n` of `of`: `n` padded to the width of `of`, a slash, and `of`.
pub open spec fn fraction(n: nat, of: nat) -> Seq<char> {
    padded(n, decimal(of).len()) + "/"@ + decimal(of)
}

/// The line of progress of `removal`, whose entry is shown as `path`.
pub open spec fn progress_line(removal: RemovalView, path: Seq<char>) -> Seq<char> {
    "["@ + fraction(removal.beatmapset, removal.beatmapsets) + "] ["@ + fraction(
        removal.ordinal,
        removal.bucket_len,
    ) + "] ["@ + decimal(removal.saved_megabytes) + " MB] "@ + path
}

/// The last line of a run that has freed `megabytes` megabytes.
pub open spec fn summary_line(megabytes: nat) -> Seq<char> {
    "Successfully saved ~"@ + decimal(megabytes) + " MB!"@
}

/// The character of the decimal digit `d`.
fn digit_of(d: u64) -> (out: char)
    requires
        d < 10,
    ensures
        out == digit(d as nat),
{
    let table: [char; 10] = ['0', '1', '2', '3', '4', '5', '6', '7', '8', '9'];
    table[d as usize]
}

/// `n` in decimal.
pub fn decimal_of(n: u64) -> (out: Vec<char>)
    ensures
        out@ == decimal(n as nat),
{
    let mut out: Vec<char> = Vec::new();
    let mut rest: u64 = n;
    assert(decimal(rest as nat) + out@ =~= decimal(n as nat));
    while rest >= 10
        invariant
            decimal(rest as nat) + out@ == decimal(n as nat),
        decreases rest,
    {
        let ghost before = out@;
        out.insert(0, digit_of(rest % 10));
        assert(decimal((rest / 10) as nat) + out@ =~= decimal((rest / 10) as nat).push(
            digit((rest % 10) as nat),
        ) + before);
        rest = rest / 10;
    }
    let ghost before = out@;
    out.insert(0, digit_of(rest));
    assert(out@ =~= decimal(rest as nat) + before);
    out
}

/// Puts the characters of `more` at the end of `line`.
fn put(line: &mut Vec<char>, more: &[char])
    ensures
        final(line)@ == old(line)@ + more@,
{
    let mut i: usize = 0;
    assert(line@ =~= old(line)@ + more@.take(0));
    while i < more.len()
        invariant
            i <= more.len(),
            line@ == old(line)@ + more@.take(i as int),
        decreases more.len() - i,
    {
        line.push(more[i]);
        i = i + 1;
        assert(line@ =~= old(line)@ + more@.take(i as int));
    }
    assert(more@.take(i as int) =~= more@);
}

/// Puts `text` at the end of `line`.
fn put_text(line: &mut Vec<char>, text: &str)
    ensures
        final(line)@ == old(line)@ + text@,
{
    let text = chars_of(text);
    put(line, text.as_slice());
}

/// Puts `n` padded to the width of `of`, a slash, and `of` at the end of
/// `line`.
fn put_fraction(line: &mut Vec<char>, n: u64, of: u64)
    ensures
        final(line)@ == old(line)@ + fraction(n as nat, of as nat),
{
    let whole = decimal_of(of);
    let part = decimal_of(n);
    let ghost start = line@;
    let mut width: usize = part.len();
    while width < whole.len()
        invariant
            part.len() <= width,
            width <= whole.len() || width == part.len(),
            line@ == start + zeros((width - part.len()) as nat),
        decreases whole.len() - width,
    {
        line.push('0');
        width = width + 1;
        assert(line@ =~= start + zeros((width - part.len()) as nat));
    }
    assert(line@ + part@ =~= start + padded(n as nat, whole@.len()));
    put(line, part.as_slice());
    put_text(line, "/");
    put(line, whole.as_slice());
    assert(line@ =~= start + fraction(n as nat, of as nat));
}

impl Removal {
    /// The line of progress of the removal, whose entry is shown as `path`.
    pub fn line(&self, path: &str) -> (out: String)
        ensures
            out@ == progress_line(self@, path@),
    {
        let mut line: Vec<char> = Vec::new();
        put_text(&mut line, "[");
        put_fraction(&mut line, self.beatmapset as u64, self.beatmapsets as u64);
        put_text(&mut line, "] [");
        put_fraction(&mut line, self.ordinal as u64, self.bucket_len as u64);
        put_text(&mut line, "] [");
        put(&mut line, decimal_of(self.saved_megabytes).as_slice());
        put_text(&mut line, " MB] ");
        put_text(&mut line, path);
        assert(line@ =~= progress_line(self@, path@));
        string_of(line.as_slice())
    }
}

impl Cleaner {
    /// The last line of the run: the megabytes freed, rounded down.
    pub fn summary(&self) -> (out: String)
        ensures
            out@ == summary_line(self@.saved_size / megabyte()),
    {
        let mut line: Vec<char> = Vec::new();
        put_text(&mut line, "Successfully saved ~");
        put(&mut line, decimal_of(self.saved_megabytes()).as_slice());
        put_text(&mut line, " MB!");
        assert(line@ =~= summary_line(self@.saved_size / megabyte()));
        string_of(line.as_slice())
    }
}

} // verus!
