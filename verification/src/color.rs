//! Border colors and how they are written.

use crate::text::{is_digit, unsigned, NINE, PLUS, ZERO};
use vstd::prelude::*;
use vstd::utf8::encode_utf8;

verus! {

/// The character `#`.
pub const HASH: u8 = 0x23;

/// A color by its channels, each from 0 for none to 255 for all of it.
#[derive(Clone, Copy, Debug, PartialEq, Eq, Structural)]
pub struct Color {
    pub r: u8,
    pub g: u8,
    pub b: u8,
    pub a: u8,
}

/// The value of a hexadecimal digit; `None` of another character.
pub open spec fn hex_digit(b: u8) -> Option<u8> {
    if is_digit(b) {
        Some((b - ZERO) as u8)
    } else if 0x61 <= b <= 0x66 {
        Some((b - 0x61 + 10) as u8)
    } else if 0x41 <= b <= 0x46 {
        Some((b - 0x41 + 10) as u8)
    } else {
        None
    }
}

fn read_hex_digit(b: u8) -> (r: Option<u8>)
    ensures
        r == hex_digit(b),
{
    if ZERO <= b && b <= NINE {
        Some(b - ZERO)
    } else if 0x61 <= b && b <= 0x66 {
        Some(b - 0x61 + 10)
    } else if 0x41 <= b && b <= 0x46 {
        Some(b - 0x41 + 10)
    } else {
        None
    }
}

/// The value that two hexadecimal digits spell; `None` of other characters.
pub open spec fn hex_pair(first: u8, second: u8) -> Option<u8> {
    match (hex_digit(first), hex_digit(second)) {
        (Some(high), Some(low)) => Some((16 * high + low) as u8),
        _ => None,
    }
}

fn read_hex_pair(first: u8, second: u8) -> (r: Option<u8>)
    ensures
        r == hex_pair(first, second),
{
    match (read_hex_digit(first), read_hex_digit(second)) {
        (Some(high), Some(low)) => Some(16 * high + low),
        _ => None,
    }
}

/// The value that two hexadecimal digits spell, or one behind a `+`; `None` of other
/// characters.
pub open spec fn signed_pair(first: u8, second: u8) -> Option<u8> {
    if first == PLUS {
        hex_digit(second)
    } else {
        hex_pair(first, second)
    }
}

fn read_signed_pair(first: u8, second: u8) -> (r: Option<u8>)
    ensures
        r == signed_pair(first, second),
{
    if first == PLUS {
        read_hex_digit(second)
    } else {
        read_hex_pair(first, second)
    }
}

/// The `i`-th pair of a text.
pub open spec fn pair_at(hex: Seq<u8>, i: int) -> Option<u8> {
    hex_pair(hex[2 * i], hex[2 * i + 1])
}

/// A character of the text ends before the byte at `at`, and another one, if there is
/// one, starts there.
pub open spec fn boundary(hex: Seq<u8>, at: int) -> bool {
    at == hex.len() || (0 <= at < hex.len() && !(0x80 <= hex[at] < 0xc0))
}

/// The color that `RRGGBB` or `RRGGBBAA` stands for. Without `AA` the color is opaque.
pub open spec fn pairs_color(hex: Seq<u8>) -> Option<Color> {
    if hex.len() != 6 && hex.len() != 8 {
        None
    } else {
        let alpha = if hex.len() == 8 {
            pair_at(hex, 3)
        } else {
            Some(255u8)
        };
        match (pair_at(hex, 0), pair_at(hex, 1), pair_at(hex, 2), alpha) {
            (Some(r), Some(g), Some(b), Some(a)) => Some(Color { r, g, b, a }),
            _ => None,
        }
    }
}

/// What is written behind the `#`, if there is one.
pub open spec fn behind_hash(text: Seq<u8>) -> Seq<u8> {
    unsigned(text, HASH)
}

fn read_pair(text: &[u8], at: usize) -> (r: Option<u8>)
    requires
        at + 2 <= text@.len(),
    ensures
        r == hex_pair(text@[at as int], text@[at + 1]),
{
    read_hex_pair(text[at], text[at + 1])
}

/// Where the text behind the `#` starts.
fn hash_length(text: &[u8]) -> (start: usize)
    ensures
        start <= text@.len(),
        behind_hash(text@) == text@.skip(start as int),
{
    assert(text@.skip(0) =~= text@);
    if text.len() > 0 && text[0] == HASH {
        1
    } else {
        0
    }
}

fn is_boundary(text: &[u8], start: usize, at: usize) -> (r: bool)
    requires
        start <= text@.len(),
        at <= text@.len() - start,
    ensures
        r == boundary(text@.skip(start as int), at as int),
{
    at == text.len() - start || text[start + at] < 0x80 || text[start + at] >= 0xc0
}

/// Parse hex color string (`#RRGGBB` or `#RRGGBBAA`), the `#` being optional. Any other
/// text gives `None`.
pub fn parse_color(s: &str) -> (r: Option<Color>)
    ensures
        r == pairs_color(behind_hash(encode_utf8(s@))),
{
    let text = s.as_bytes();
    let start = hash_length(text);
    let len = text.len() - start;
    if len != 6 && len != 8 {
        return None;
    }
    let r = match read_pair(text, start) {
        Some(v) => v,
        None => {
            return None;
        },
    };
    let g = match read_pair(text, start + 2) {
        Some(v) => v,
        None => {
            return None;
        },
    };
    let b = match read_pair(text, start + 4) {
        Some(v) => v,
        None => {
            return None;
        },
    };
    let a = if len == 8 {
        match read_pair(text, start + 6) {
            Some(v) => v,
            None => {
                return None;
            },
        }
    } else {
        255
    };
    Some(Color { r, g, b, a })
}

/// What is written behind any number of `#`.
pub open spec fn behind_hashes(text: Seq<u8>) -> Seq<u8>
    decreases text.len(),
{
    if text.len() > 0 && text[0] == HASH {
        behind_hashes(text.skip(1))
    } else {
        text
    }
}

/// Where the text behind the `#`s starts.
fn hashes_length(text: &[u8]) -> (start: usize)
    ensures
        start <= text@.len(),
        behind_hashes(text@) == text@.skip(start as int),
{
    let mut start: usize = 0;
    assert(text@.skip(0) =~= text@);
    while start < text.len() && text[start] == HASH
        invariant
            start <= text@.len(),
            behind_hashes(text@) == behind_hashes(text@.skip(start as int)),
        decreases text@.len() - start,
    {
        assert(text@.skip(start as int).skip(1) =~= text@.skip(start + 1));
        start = start + 1;
    }
    start
}

/// The text is long enough for a color and can be cut into its pairs.
pub open spec fn has_pairs(hex: Seq<u8>) -> bool {
    &&& hex.len() >= 6
    &&& boundary(hex, 2)
    &&& boundary(hex, 4)
    &&& boundary(hex, 6)
    &&& hex.len() >= 8 ==> boundary(hex, 8)
}

/// The channel that the `i`-th pair of a text spells, or another one where it spells none.
pub open spec fn channel_or(hex: Seq<u8>, i: int, other: u8) -> u8 {
    match signed_pair(hex[2 * i], hex[2 * i + 1]) {
        Some(v) => v,
        None => other,
    }
}

fn read_channel_or(text: &[u8], at: usize, other: u8) -> (r: u8)
    requires
        at + 2 <= text@.len(),
    ensures
        signed_pair(text@[at as int], text@[at + 1]) matches Some(v) ==> r == v,
        signed_pair(text@[at as int], text@[at + 1]) is None ==> r == other,
{
    match read_signed_pair(text[at], text[at + 1]) {
        Some(v) => v,
        None => other,
    }
}

/// The color that a text starts with. A channel that is not written right is taken to
/// be none, an opacity that is not, full. A `+` and one digit are a pair, too.
pub open spec fn lenient_color(hex: Seq<u8>) -> Color {
    Color {
        r: channel_or(hex, 0, 0),
        g: channel_or(hex, 1, 0),
        b: channel_or(hex, 2, 0),
        a: if hex.len() >= 8 {
            channel_or(hex, 3, 255)
        } else {
            255
        },
    }
}

impl Color {
    /// Reads `RRGGBB` or `RRGGBBAA`, behind any number of `#`, and passes over what
    /// follows.
    pub fn from_hex(hex: &str) -> (r: Self)
        requires
            has_pairs(behind_hashes(encode_utf8(hex@))),
        ensures
            r == lenient_color(behind_hashes(encode_utf8(hex@))),
    {
        let text = hex.as_bytes();
        let start = hashes_length(text);
        let len = text.len() - start;
        Color {
            r: read_channel_or(text, start, 0),
            g: read_channel_or(text, start + 2, 0),
            b: read_channel_or(text, start + 4, 0),
            a: if len >= 8 {
                read_channel_or(text, start + 6, 255)
            } else {
                255
            },
        }
    }
}

/// Whether [`Color::from_hex`] can read the text.
pub fn holds_pairs(hex: &str) -> (r: bool)
    ensures
        r == has_pairs(behind_hashes(encode_utf8(hex@))),
{
    let text = hex.as_bytes();
    let start = hashes_length(text);
    let len = text.len() - start;
    len >= 6 && is_boundary(text, start, 2) && is_boundary(text, start, 4) && is_boundary(
        text,
        start,
        6,
    ) && (len < 8 || is_boundary(text, start, 8))
}

/// Where the strict reader finds a color, the lenient one finds the same.
pub proof fn law_color_readers_agree(text: Seq<u8>)
    requires
        pairs_color(behind_hash(text)) is Some,
    ensures
        pairs_color(behind_hash(text)) == Some(lenient_color(behind_hashes(text))),
{
    let hex = behind_hash(text);
    assert(pair_at(hex, 0) is Some);
    assert(hex[0] != HASH);
    assert(behind_hashes(hex) == hex);
}

/// A color that is found written right can be read by the lenient reader too.
pub proof fn law_written_colors_have_pairs(text: Seq<u8>)
    requires
        pairs_color(behind_hash(text)) is Some,
    ensures
        has_pairs(behind_hashes(text)),
{
    let hex = behind_hash(text);
    assert(pair_at(hex, 0) is Some);
    assert(pair_at(hex, 1) is Some);
    assert(pair_at(hex, 2) is Some);
    assert(hex.len() == 8 ==> pair_at(hex, 3) is Some);
    assert(hex[0] != HASH);
    assert(behind_hashes(hex) == hex);
    assert(boundary(hex, 2) && boundary(hex, 4) && boundary(hex, 6) && (hex.len() == 8 ==> boundary(
        hex,
        8,
    )));
}

/// The character of a hexadecimal digit, in small letters.
pub open spec fn small_digit(v: u8) -> u8
    recommends
        v < 16,
{
    if v < 10 {
        (0x30 + v) as u8
    } else {
        (0x61 + v - 10) as u8
    }
}

/// The character of a hexadecimal digit, in capital letters.
pub open spec fn capital_digit(v: u8) -> u8
    recommends
        v < 16,
{
    if v < 10 {
        (0x30 + v) as u8
    } else {
        (0x41 + v - 10) as u8
    }
}

/// A character is read as a hexadecimal digit exactly if the digit is written so.
pub proof fn law_hex_digits_are_read_back(b: u8, v: u8)
    ensures
        hex_digit(b) == Some(v) <==> v < 16 && (b == small_digit(v) || b == capital_digit(v)),
{
}

/// Two digits are read as a number exactly if they are the two digits of it to the base
/// 16, the higher one first.
pub proof fn law_hex_pairs_are_read_back(first: u8, second: u8, v: u8)
    ensures
        hex_pair(first, second) == Some(v) <==> hex_digit(first) == Some((v / 16) as u8)
            && hex_digit(second) == Some((v % 16) as u8),
        signed_pair(first, second) == Some(v) <==> (first == 0x2b && hex_digit(second) == Some(v))
            || hex_pair(first, second) == Some(v),
{
}

/// A channel, written as two digits.
pub open spec fn written(v: u8) -> Seq<u8> {
    seq![small_digit((v / 16) as u8), small_digit((v % 16) as u8)]
}

/// A color that is written as `RRGGBBAA` is read back, with or without a `#`, by both
/// readers. Written as `RRGGBB` it is read back as an opaque one.
pub proof fn law_written_colors_are_read_back(c: Color)
    ensures
        ({
            let opaque = written(c.r) + written(c.g) + written(c.b);
            let full = opaque + written(c.a);
            &&& pairs_color(behind_hash(full)) == Some(c)
            &&& pairs_color(behind_hash(seq![0x23u8] + full)) == Some(c)
            &&& pairs_color(behind_hash(opaque)) == Some(Color { a: 255, ..c })
            &&& pairs_color(behind_hash(seq![0x23u8] + opaque)) == Some(Color { a: 255, ..c })
            &&& lenient_color(full) == c
            &&& lenient_color(opaque) == (Color { a: 255, ..c })
        }),
{
    let opaque = written(c.r) + written(c.g) + written(c.b);
    let full = opaque + written(c.a);
    assert((seq![0x23u8] + full).skip(1) =~= full);
    assert((seq![0x23u8] + opaque).skip(1) =~= opaque);
    assert(full.len() == 8 && opaque.len() == 6);
    assert(full[0] == written(c.r)[0] && full[1] == written(c.r)[1]);
    assert(full[2] == written(c.g)[0] && full[3] == written(c.g)[1]);
    assert(full[4] == written(c.b)[0] && full[5] == written(c.b)[1]);
    assert(full[6] == written(c.a)[0] && full[7] == written(c.a)[1]);
    assert(opaque[0] == full[0] && opaque[1] == full[1] && opaque[2] == full[2] && opaque[3]
        == full[3] && opaque[4] == full[4] && opaque[5] == full[5]);
    law_hex_pairs_are_read_back(full[0], full[1], c.r);
    law_hex_pairs_are_read_back(full[2], full[3], c.g);
    law_hex_pairs_are_read_back(full[4], full[5], c.b);
    law_hex_pairs_are_read_back(full[6], full[7], c.a);
    law_hex_digits_are_read_back(full[0], (c.r / 16) as u8);
    law_hex_digits_are_read_back(full[1], (c.r % 16) as u8);
    law_hex_digits_are_read_back(full[2], (c.g / 16) as u8);
    law_hex_digits_are_read_back(full[3], (c.g % 16) as u8);
    law_hex_digits_are_read_back(full[4], (c.b / 16) as u8);
    law_hex_digits_are_read_back(full[5], (c.b % 16) as u8);
    law_hex_digits_are_read_back(full[6], (c.a / 16) as u8);
    law_hex_digits_are_read_back(full[7], (c.a % 16) as u8);
}

/// The strict reader finds a color exactly where there are six or eight hexadecimal
/// digits behind one `#` at most. It does not tell small letters from capital ones.
pub proof fn law_only_digits_are_colors(text: Seq<u8>)
    ensures
        pairs_color(text) is Some <==> (text.len() == 6 || text.len() == 8) && forall|i: int|
            0 <= i < text.len() ==> hex_digit(#[trigger] text[i]) is Some,
        behind_hash(seq![0x23u8] + text) == text,
        text.len() > 0 && text[0] != 0x23 ==> behind_hash(text) == text,
{
    assert((seq![0x23u8] + text).skip(1) =~= text);
    if pairs_color(text) is Some {
        assert(pair_at(text, 0) is Some && pair_at(text, 1) is Some && pair_at(text, 2) is Some);
        assert(text.len() == 8 ==> pair_at(text, 3) is Some);
        assert forall|i: int| 0 <= i < text.len() implies hex_digit(#[trigger] text[i]) is Some by {
            assert(i == 0 || i == 1 || i == 2 || i == 3 || i == 4 || i == 5 || i == 6 || i == 7);
        }
    }
    if (text.len() == 6 || text.len() == 8) && forall|i: int|
        0 <= i < text.len() ==> hex_digit(#[trigger] text[i]) is Some {
        assert(hex_digit(text[0]) is Some && hex_digit(text[1]) is Some);
        assert(hex_digit(text[2]) is Some && hex_digit(text[3]) is Some);
        assert(hex_digit(text[4]) is Some && hex_digit(text[5]) is Some);
        assert(text.len() == 8 ==> hex_digit(text[6]) is Some && hex_digit(text[7]) is Some);
    }
}

/// What a pair spells decides its own channel of a lenient color, and nothing else does:
/// what it spells, or no color, or for the last one full opacity, if it spells nothing or
/// is not there.
pub proof fn law_lenient_channels(hex: Seq<u8>)
    requires
        hex.len() >= 6,
    ensures
        ({
            let c = lenient_color(hex);
            let r = signed_pair(hex[0], hex[1]);
            let g = signed_pair(hex[2], hex[3]);
            let b = signed_pair(hex[4], hex[5]);
            let a = signed_pair(hex[6], hex[7]);
            &&& r is Some ==> c.r == r->0
            &&& r is None ==> c.r == 0
            &&& g is Some ==> c.g == g->0
            &&& g is None ==> c.g == 0
            &&& b is Some ==> c.b == b->0
            &&& b is None ==> c.b == 0
            &&& hex.len() >= 8 && a is Some ==> c.a == a->0
            &&& hex.len() < 8 || a is None ==> c.a == 255
        }),
{
}

/// Any number of `#` is passed over.
pub proof fn law_hashes_are_passed_over(text: Seq<u8>)
    ensures
        behind_hashes(seq![0x23u8] + text) == behind_hashes(text),
        text.len() == 0 || text[0] != 0x23 ==> behind_hashes(text) == text,
{
    assert((seq![0x23u8] + text).skip(1) =~= text);
}

/// The lenient reader can read a text exactly if six bytes at least are there and no
/// character is cut between two pairs: a byte with the two highest bits 1 and 0 goes on
/// with the character before it.
pub proof fn law_readable_texts(hex: Seq<u8>)
    ensures
        has_pairs(hex) <==> {
            &&& hex.len() >= 6
            &&& hex[2] / 0x40 != 2
            &&& hex[4] / 0x40 != 2
            &&& hex.len() > 6 ==> hex[6] / 0x40 != 2
            &&& hex.len() > 8 ==> hex[8] / 0x40 != 2
        },
{
}

}
