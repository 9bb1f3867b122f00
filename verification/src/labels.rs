//! Text shown beside chords: Roman numerals for scale degrees and position
//! labels for guitar voicings.

use vstd::prelude::*;
use crate::voicings::{Voicing, spec_lowest_fret};

verus! {

/// Upper-case Roman numeral of degree `r` (0 = I .. 6 = VII).
pub open spec fn spec_upper_numeral(r: int) -> Seq<char> {
    if r == 0 { "I"@ } else if r == 1 { "II"@ } else if r == 2 { "III"@ } else if r == 3 { "IV"@ }
    else if r == 4 { "V"@ } else if r == 5 { "VI"@ } else { "VII"@ }
}

/// Lower-case Roman numeral of degree `r`.
pub open spec fn spec_lower_numeral(r: int) -> Seq<char> {
    if r == 0 { "i"@ } else if r == 1 { "ii"@ } else if r == 2 { "iii"@ } else if r == 3 { "iv"@ }
    else if r == 4 { "v"@ } else if r == 5 { "vi"@ } else { "vii"@ }
}

/// Diminished numeral of degree `r`: lower case with a degree sign.
pub open spec fn spec_dim_numeral(r: int) -> Seq<char> {
    if r == 0 { "i°"@ } else if r == 1 { "ii°"@ } else if r == 2 { "iii°"@ } else if r == 3 { "iv°"@ }
    else if r == 4 { "v°"@ } else if r == 5 { "vi°"@ } else { "vii°"@ }
}

/// Augmented numeral of degree `r`: upper case with a plus.
pub open spec fn spec_aug_numeral(r: int) -> Seq<char> {
    if r == 0 { "I+"@ } else if r == 1 { "II+"@ } else if r == 2 { "III+"@ } else if r == 3 { "IV+"@ }
    else if r == 4 { "V+"@ } else if r == 5 { "VI+"@ } else { "VII+"@ }
}

/// The numeral and quality suffix of the triad on degree `deg` whose third and
/// fifth lie `d3` and `d5` semitones above its root; degrees past the seventh
/// use the seventh's numeral.
pub open spec fn spec_roman(deg: int, d3: int, d5: int) -> (Seq<char>, Seq<char>) {
    let r = if deg < 6 { deg } else { 6 };
    if d3 == 4 && d5 == 7 {
        (spec_upper_numeral(r), "M"@)
    } else if d3 == 3 && d5 == 7 {
        (spec_lower_numeral(r), "m"@)
    } else if d3 == 3 && d5 == 6 {
        (spec_dim_numeral(r), "dim"@)
    } else if d3 == 4 && d5 == 8 {
        (spec_aug_numeral(r), "aug"@)
    } else {
        (spec_upper_numeral(r), "?"@)
    }
}

fn upper_numeral(r: usize) -> (s: &'static str)
    ensures
        s@ == spec_upper_numeral(r as int),
{
    match r { 0 => "I", 1 => "II", 2 => "III", 3 => "IV", 4 => "V", 5 => "VI", _ => "VII" }
}

fn lower_numeral(r: usize) -> (s: &'static str)
    ensures
        s@ == spec_lower_numeral(r as int),
{
    match r { 0 => "i", 1 => "ii", 2 => "iii", 3 => "iv", 4 => "v", 5 => "vi", _ => "vii" }
}

fn dim_numeral(r: usize) -> (s: &'static str)
    ensures
        s@ == spec_dim_numeral(r as int),
{
    match r { 0 => "i°", 1 => "ii°", 2 => "iii°", 3 => "iv°", 4 => "v°", 5 => "vi°", _ => "vii°" }
}

fn aug_numeral(r: usize) -> (s: &'static str)
    ensures
        s@ == spec_aug_numeral(r as int),
{
    match r { 0 => "I+", 1 => "II+", 2 => "III+", 3 => "IV+", 4 => "V+", 5 => "VI+", _ => "VII+" }
}

/// Roman numeral and quality ("M", "m", "dim", "aug", or "?") of a triad.
pub fn roman(deg: usize, d3: usize, d5: usize) -> (r: (&'static str, &'static str))
    ensures
        (r.0@, r.1@) == spec_roman(deg as int, d3 as int, d5 as int),
{
    let r = if deg < 6 { deg } else { 6 };
    if d3 == 4 && d5 == 7 {
        (upper_numeral(r), "M")
    } else if d3 == 3 && d5 == 7 {
        (lower_numeral(r), "m")
    } else if d3 == 3 && d5 == 6 {
        (dim_numeral(r), "dim")
    } else if d3 == 4 && d5 == 8 {
        (aug_numeral(r), "aug")
    } else {
        (upper_numeral(r), "?")
    }
}

/// Semitones from `root` up to `note` (both pitch classes).
pub open spec fn semitones_above(root: int, note: int) -> int {
    (note + 12 - root) % 12
}

/// The root of the triad on degree `deg` of `scale` and the semitones from it to
/// the triad's third and fifth (two and four scale steps up, wrapping around).
pub fn degree_triad(scale: &[usize], deg: usize) -> (t: (usize, usize, usize))
    requires
        deg < scale@.len(),
        deg + 4 <= usize::MAX,
        scale@[(deg + 2) % (scale@.len() as int)] + 12 >= scale@[deg as int],
        scale@[(deg + 2) % (scale@.len() as int)] + 12 <= usize::MAX,
        scale@[(deg + 4) % (scale@.len() as int)] + 12 >= scale@[deg as int],
        scale@[(deg + 4) % (scale@.len() as int)] + 12 <= usize::MAX,
    ensures
        t.0 == scale@[deg as int],
        t.1 == semitones_above(scale@[deg as int] as int, scale@[(deg + 2) % (scale@.len() as int)] as int),
        t.2 == semitones_above(scale@[deg as int] as int, scale@[(deg + 4) % (scale@.len() as int)] as int),
{
    let n = scale.len();
    let root_note = scale[deg];
    let third = scale[(deg + 2) % n];
    let fifth = scale[(deg + 4) % n];
    (root_note, (third + 12 - root_note) % 12, (fifth + 12 - root_note) % 12)
}

/// Roman numeral of fret positions 1 through 18.
pub open spec fn spec_position_numeral(n: int) -> Seq<char> {
    if n == 1 { "I"@ } else if n == 2 { "II"@ } else if n == 3 { "III"@ } else if n == 4 { "IV"@ }
    else if n == 5 { "V"@ } else if n == 6 { "VI"@ } else if n == 7 { "VII"@ } else if n == 8 { "VIII"@ }
    else if n == 9 { "IX"@ } else if n == 10 { "X"@ } else if n == 11 { "XI"@ } else if n == 12 { "XII"@ }
    else if n == 13 { "XIII"@ } else if n == 14 { "XIV"@ } else if n == 15 { "XV"@ } else if n == 16 { "XVI"@ }
    else if n == 17 { "XVII"@ } else { "XVIII"@ }
}

fn position_numeral(n: u8) -> (s: &'static str)
    requires
        1 <= n <= 18,
    ensures
        s@ == spec_position_numeral(n as int),
{
    match n {
        1 => "I", 2 => "II", 3 => "III", 4 => "IV", 5 => "V", 6 => "VI", 7 => "VII", 8 => "VIII",
        9 => "IX", 10 => "X", 11 => "XI", 12 => "XII", 13 => "XIII", 14 => "XIV", 15 => "XV",
        16 => "XVI", 17 => "XVII", _ => "XVIII",
    }
}

/// The decimal digit `d` as text.
pub open spec fn spec_digit(d: int) -> Seq<char> {
    if d == 0 { "0"@ } else if d == 1 { "1"@ } else if d == 2 { "2"@ } else if d == 3 { "3"@ }
    else if d == 4 { "4"@ } else if d == 5 { "5"@ } else if d == 6 { "6"@ } else if d == 7 { "7"@ }
    else if d == 8 { "8"@ } else { "9"@ }
}

/// `n` written in decimal.
pub open spec fn spec_decimal(n: nat) -> Seq<char>
    decreases n,
{
    if n < 10 { spec_digit(n as int) } else { spec_decimal(n / 10) + spec_digit((n % 10) as int) }
}

/// The text of digit `d` (0..10).
pub fn digit(d: usize) -> (s: &'static str)
    requires
        d < 10,
    ensures
        s@ == spec_digit(d as int),
{
    match d { 0 => "0", 1 => "1", 2 => "2", 3 => "3", 4 => "4", 5 => "5", 6 => "6", 7 => "7", 8 => "8", _ => "9" }
}

fn append_decimal(s: &mut String, n: u8)
    ensures
        final(s)@ == old(s)@ + spec_decimal(n as nat),
{
    if n >= 100 {
        s.append(digit((n / 100) as usize));
        s.append(digit(((n / 10) % 10) as usize));
        s.append(digit((n % 10) as usize));
        proof {
            let m = n as nat;
            assert(spec_decimal(m) == spec_decimal(m / 10) + spec_digit((m % 10) as int));
            assert(spec_decimal(m / 10) == spec_decimal(m / 100) + spec_digit(((m / 10) % 10) as int));
        }
    } else if n >= 10 {
        s.append(digit((n / 10) as usize));
        s.append(digit((n % 10) as usize));
        proof {
            let m = n as nat;
            assert(spec_decimal(m) == spec_decimal(m / 10) + spec_digit((m % 10) as int));
        }
    } else {
        s.append(digit(n as usize));
    }
}

/// Label of a voicing by position: "Open" when no string is stopped above the
/// nut, else "Pos. " and the lowest fret (in Roman numerals up to 18).
pub open spec fn spec_voicing_label(lowest: int) -> Seq<char> {
    if lowest == 0 {
        "Open"@
    } else if lowest <= 18 {
        "Pos. "@ + spec_position_numeral(lowest)
    } else {
        "Pos. "@ + spec_decimal(lowest as nat)
    }
}

/// The label shown above a voicing's chord diagram.
pub fn voicing_label(v: &Voicing) -> (label: String)
    ensures
        label@ == spec_voicing_label(spec_lowest_fret(v.frets@)),
{
    let lo = v.lowest_fret();
    if lo == 0 {
        return String::from_str("Open");
    }
    let mut label = String::from_str("Pos. ");
    if lo <= 18 {
        label.append(position_numeral(lo));
    } else {
        append_decimal(&mut label, lo);
    }
    label
}


// ----- reading Roman numerals back -----

/// Value of a Roman numeral letter of either case; 0 for any other character
/// (such as the degree sign or the plus of a quality mark).
pub open spec fn roman_letter_value(c: char) -> int {
    if c == 'I' || c == 'i' { 1 }
    else if c == 'V' || c == 'v' { 5 }
    else if c == 'X' || c == 'x' { 10 }
    else if c == 'L' || c == 'l' { 50 }
    else if c == 'C' || c == 'c' { 100 }
    else { 0 }
}

/// Value of the letters of `s` from position `i` on, by the usual rule: a letter
/// counts negatively when a letter of greater value follows it.
pub open spec fn roman_value_from(s: Seq<char>, i: nat) -> int
    decreases s.len() - i,
{
    if i >= s.len() {
        0
    } else {
        let v = roman_letter_value(s[i as int]);
        let rest = roman_value_from(s, i + 1);
        if i + 1 < s.len() && v < roman_letter_value(s[i as int + 1]) { rest - v } else { rest + v }
    }
}

/// The number a Roman numeral stands for.
pub open spec fn roman_value(s: Seq<char>) -> int {
    roman_value_from(s, 0)
}

proof fn lemma_numerals_of_degree(r: int)
    requires
        0 <= r <= 6,
    ensures
        roman_value(spec_upper_numeral(r)) == r + 1,
        roman_value(spec_lower_numeral(r)) == r + 1,
        roman_value(spec_dim_numeral(r)) == r + 1,
        roman_value(spec_aug_numeral(r)) == r + 1,
{
    reveal_with_fuel(roman_value_from, 6);
    if r == 0 {
        reveal_strlit("I");
        reveal_strlit("i");
        reveal_strlit("i°");
        reveal_strlit("I+");
    } else if r == 1 {
        reveal_strlit("II");
        reveal_strlit("ii");
        reveal_strlit("ii°");
        reveal_strlit("II+");
    } else if r == 2 {
        reveal_strlit("III");
        reveal_strlit("iii");
        reveal_strlit("iii°");
        reveal_strlit("III+");
    } else if r == 3 {
        reveal_strlit("IV");
        reveal_strlit("iv");
        reveal_strlit("iv°");
        reveal_strlit("IV+");
    } else if r == 4 {
        reveal_strlit("V");
        reveal_strlit("v");
        reveal_strlit("v°");
        reveal_strlit("V+");
    } else if r == 5 {
        reveal_strlit("VI");
        reveal_strlit("vi");
        reveal_strlit("vi°");
        reveal_strlit("VI+");
    } else if r == 6 {
        reveal_strlit("VII");
        reveal_strlit("vii");
        reveal_strlit("vii°");
        reveal_strlit("VII+");
    }
}

/// The numeral of a triad names its scale degree: read as a Roman number (case,
/// degree sign and plus aside) it is `deg + 1` for the first seven degrees, and
/// VII past them; the quality mark does not change it.
pub proof fn lemma_roman_names_the_degree(deg: int, d3: int, d5: int)
    requires
        0 <= deg,
    ensures
        roman_value(spec_roman(deg, d3, d5).0) == if deg < 7 { deg + 1 } else { 7 },
{
    let r = if deg < 6 { deg } else { 6 };
    lemma_numerals_of_degree(r);
}

/// The position label names the lowest fret: read as a Roman number, the
/// numeral of fret `n` is `n`, for every fret from 1 to 18.
pub proof fn lemma_position_numeral_value(n: int)
    requires
        1 <= n <= 18,
    ensures
        roman_value(spec_position_numeral(n)) == n,
{
    reveal_with_fuel(roman_value_from, 6);
    if n == 1 {
        reveal_strlit("I");
    } else if n == 2 {
        reveal_strlit("II");
    } else if n == 3 {
        reveal_strlit("III");
    } else if n == 4 {
        reveal_strlit("IV");
    } else if n == 5 {
        reveal_strlit("V");
    } else if n == 6 {
        reveal_strlit("VI");
    } else if n == 7 {
        reveal_strlit("VII");
    } else if n == 8 {
        reveal_strlit("VIII");
    } else if n == 9 {
        reveal_strlit("IX");
    } else if n == 10 {
        reveal_strlit("X");
    } else if n == 11 {
        reveal_strlit("XI");
    } else if n == 12 {
        reveal_strlit("XII");
    } else if n == 13 {
        reveal_strlit("XIII");
    } else if n == 14 {
        reveal_strlit("XIV");
    } else if n == 15 {
        reveal_strlit("XV");
    } else if n == 16 {
        reveal_strlit("XVI");
    } else if n == 17 {
        reveal_strlit("XVII");
    } else if n == 18 {
        reveal_strlit("XVIII");
    }
}

/// A voicing stopped above the nut is labelled "Pos. " followed by a numeral
/// that reads back as its lowest fret (up to fret 18), so voicings at different
/// positions get different labels; one with every string open is "Open".
pub proof fn lemma_voicing_label_names_position(lowest: int)
    requires
        0 <= lowest <= 18,
    ensures
        lowest == 0 ==> spec_voicing_label(lowest) == "Open"@,
        lowest > 0 ==> spec_voicing_label(lowest).subrange(0, 5) == "Pos. "@
            && roman_value(spec_voicing_label(lowest).subrange(5, spec_voicing_label(lowest).len() as int)) == lowest,
{
    if lowest > 0 {
        reveal_strlit("Pos. ");
        let num = spec_position_numeral(lowest);
        let label = spec_voicing_label(lowest);
        assert(label == "Pos. "@ + num);
        assert(label.subrange(0, 5) =~= "Pos. "@);
        assert(label.subrange(5, label.len() as int) =~= num);
        lemma_position_numeral_value(lowest);
    }
}

} // verus!
