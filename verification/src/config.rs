//! The settings the playback core reads.

use vstd::prelude::*;

verus! {

/// Where the videos are.
#[derive(Clone, Debug)]
pub struct VideoConfig {
    /// The directory that is scanned for playable files.
    pub directory: String,
}

/// Where the log goes and how long it may grow.
#[derive(Clone, Debug)]
pub struct LoggingConfig {
    /// The log file.
    pub file: String,
    /// The number of lines the log is trimmed to.
    pub max_lines: usize,
}

/// The lines a log keeps when it may hold at most `max_lines`: nothing is to
/// be done while it holds no more than that, otherwise the newest
/// `max_lines` lines stay.
pub open spec fn kept_lines(lines: Seq<String>, max_lines: nat) -> Option<Seq<String>> {
    if lines.len() > max_lines {
        Some(lines.subrange(lines.len() - max_lines, lines.len() as int))
    } else {
        None
    }
}

impl LoggingConfig {
    /// Trims a log, given as its lines from oldest to newest. A log within
    /// its limit is left alone, which the absent answer says; a longer one is
    /// cut down to its newest lines.
    pub fn trim_log(&self, lines: Vec<String>) -> (kept: Option<Vec<String>>)
        ensures
            kept is Some <==> lines@.len() > self.max_lines,
            kept is Some ==> Some(kept->Some_0@) == kept_lines(lines@, self.max_lines as nat),
            kept is None ==> kept_lines(lines@, self.max_lines as nat) is None,
    {
        let mut lines = lines;
        if lines.len() > self.max_lines {
            let start: usize = lines.len() - self.max_lines;
            Some(lines.split_off(start))
        } else {
            None
        }
    }
}

/// A colour of the screen.
#[derive(Clone, Copy, Debug, PartialEq, Eq, Structural)]
pub struct Rgb {
    pub r: u8,
    pub g: u8,
    pub b: u8,
}

/// The colour used where a setting names none: white.
pub open spec fn fallback_color() -> Rgb {
    Rgb { r: 255, g: 255, b: 255 }
}

/// The value of a hexadecimal digit, in either case.
pub open spec fn hex_digit_value(c: char) -> Option<int> {
    let code = c as int;
    if 0x30 <= code <= 0x39 {
        Some(code - 0x30)
    } else if 0x41 <= code <= 0x46 {
        Some(code - 0x41 + 10)
    } else if 0x61 <= code <= 0x66 {
        Some(code - 0x61 + 10)
    } else {
        None
    }
}

/// The value of one colour channel written in two characters: two
/// hexadecimal digits, or a plus sign and one digit.
pub open spec fn channel_value(first: char, second: char) -> Option<int> {
    match (hex_digit_value(first), hex_digit_value(second)) {
        (Some(high), Some(low)) => Some(16 * high + low),
        (None, Some(low)) => if first == '+' {
            Some(low)
        } else {
            None
        },
        _ => None,
    }
}

/// The text behind its leading `#` signs.
pub open spec fn without_hashes(text: Seq<char>) -> Seq<char>
    decreases text.len(),
{
    if text.len() > 0 && text[0] == '#' {
        without_hashes(text.drop_first())
    } else {
        text
    }
}

/// The colour a setting stands for: `RRGGBB` behind any number of `#` signs,
/// and white for everything else.
pub open spec fn color_of(text: Seq<char>) -> Rgb {
    let digits = without_hashes(text);
    if digits.len() != 6 {
        fallback_color()
    } else {
        match (
            channel_value(digits[0], digits[1]),
            channel_value(digits[2], digits[3]),
            channel_value(digits[4], digits[5]),
        ) {
            (Some(r), Some(g), Some(b)) => Rgb { r: r as u8, g: g as u8, b: b as u8 },
            _ => fallback_color(),
        }
    }
}

fn hex_digit(c: char) -> (value: Option<u8>)
    ensures
        value is Some <==> hex_digit_value(c) is Some,
        value is Some ==> value->Some_0 as int == hex_digit_value(c)->Some_0,
        value is Some ==> value->Some_0 < 16,
{
    let code: u32 = c as u32;
    if 0x30 <= code && code <= 0x39 {
        Some((code - 0x30) as u8)
    } else if 0x41 <= code && code <= 0x46 {
        Some((code - 0x41 + 10) as u8)
    } else if 0x61 <= code && code <= 0x66 {
        Some((code - 0x61 + 10) as u8)
    } else {
        None
    }
}

fn channel(first: char, second: char) -> (value: Option<u8>)
    ensures
        value is Some <==> channel_value(first, second) is Some,
        value is Some ==> value->Some_0 as int == channel_value(first, second)->Some_0,
{
    match (hex_digit(first), hex_digit(second)) {
        (Some(high), Some(low)) => Some(16 * high + low),
        (None, Some(low)) => if first == '+' {
            Some(low)
        } else {
            None
        },
        _ => None,
    }
}

/// Reads a colour setting: six hexadecimal digits, `RRGGBB`, with or without
/// `#` in front. Anything else is white.
pub fn hex_to_color(hex: &str) -> (color: Rgb)
    ensures
        color == color_of(hex@),
{
    let len: usize = hex.unicode_len();
    let mut start: usize = 0;
    assert(hex@.subrange(0, len as int) =~= hex@);
    while start < len && hex.get_char(start) == '#'
        invariant
            start <= len,
            len == hex@.len(),
            without_hashes(hex@) == without_hashes(hex@.subrange(start as int, len as int)),
        decreases len - start,
    {
        assert(hex@.subrange(start as int, len as int).drop_first() =~= hex@.subrange(
            start + 1,
            len as int,
        ));
        start = start + 1;
    }
    let ghost digits = hex@.subrange(start as int, len as int);
    assert(without_hashes(digits) == digits);
    if len - start != 6 {
        return Rgb { r: 255, g: 255, b: 255 };
    }
    let red = channel(hex.get_char(start), hex.get_char(start + 1));
    let green = channel(hex.get_char(start + 2), hex.get_char(start + 3));
    let blue = channel(hex.get_char(start + 4), hex.get_char(start + 5));
    match (red, green, blue) {
        (Some(r), Some(g), Some(b)) => Rgb { r, g, b },
        _ => Rgb { r: 255, g: 255, b: 255 },
    }
}

} // verus!
