//! Per-key settings, their defaults, and the parsing of the text colour.

use vstd::prelude::*;
use vstd::string::{StrSliceExecFns, StringExecFns};
use vstd::utf8::{
    encode_utf8, encode_utf8_valid_utf8, is_ascii_chars, is_ascii_chars_encode_utf8, is_char_boundary,
    is_char_boundary_iff_not_is_continuation_byte,
};
use crate::pixels::Rgb;

verus! {

/// Refresh period used when none is set, in seconds.
pub const DEFAULT_REFRESH_SECONDS: u64 = 300;

/// Yellow threshold used when none is set, in percent.
pub const DEFAULT_THRESHOLD_YELLOW: u8 = 50;

/// Red threshold used when none is set, in percent.
pub const DEFAULT_THRESHOLD_RED: u8 = 90;

/// The settings of one key. A zero refresh period or threshold means "use
/// the default".
#[derive(Debug)]
pub struct Settings {
    pub api_key: String,
    pub window: String,
    pub refresh_seconds: u64,
    pub font_color: String,
    pub threshold_yellow: u8,
    pub threshold_red: u8,
}

impl Default for Settings {
    /// No API key, the 5h window, five minutes between refreshes, white
    /// text, yellow from 50% and red from 90%.
    fn default() -> (s: Self)
        ensures
            s.api_key@ == Seq::<char>::empty(),
            s.window@ == "5h"@,
            s.refresh_seconds == DEFAULT_REFRESH_SECONDS,
            s.font_color@ == "#FFFFFF"@,
            s.threshold_yellow == DEFAULT_THRESHOLD_YELLOW,
            s.threshold_red == DEFAULT_THRESHOLD_RED,
    {
        Settings {
            api_key: String::new(),
            window: String::from_str("5h"),
            refresh_seconds: DEFAULT_REFRESH_SECONDS,
            font_color: String::from_str("#FFFFFF"),
            threshold_yellow: DEFAULT_THRESHOLD_YELLOW,
            threshold_red: DEFAULT_THRESHOLD_RED,
        }
    }
}

/// A set value, or the default when the value is zero.
pub open spec fn or_default(value: int, default: int) -> int {
    if value == 0 {
        default
    } else {
        value
    }
}

impl Settings {
    /// Seconds between two refreshes: the set value, or 300 when it is zero.
    pub fn refresh_seconds(&self) -> (secs: u64)
        ensures
            secs == or_default(self.refresh_seconds as int, DEFAULT_REFRESH_SECONDS as int),
            secs > 0,
            self.refresh_seconds != 0 ==> secs == self.refresh_seconds,
            self.refresh_seconds == 0 ==> secs == DEFAULT_REFRESH_SECONDS,
    {
        if self.refresh_seconds == 0 {
            DEFAULT_REFRESH_SECONDS
        } else {
            self.refresh_seconds
        }
    }

    /// Percentage from which a bar turns yellow: the set value, or 50 when it
    /// is zero.
    pub fn threshold_yellow(&self) -> (t: u8)
        ensures
            t == or_default(self.threshold_yellow as int, DEFAULT_THRESHOLD_YELLOW as int),
            t > 0,
            self.threshold_yellow != 0 ==> t == self.threshold_yellow,
            self.threshold_yellow == 0 ==> t == DEFAULT_THRESHOLD_YELLOW,
    {
        if self.threshold_yellow == 0 {
            DEFAULT_THRESHOLD_YELLOW
        } else {
            self.threshold_yellow
        }
    }

    /// Percentage from which a bar turns red: the set value, or 90 when it is
    /// zero.
    pub fn threshold_red(&self) -> (t: u8)
        ensures
            t == or_default(self.threshold_red as int, DEFAULT_THRESHOLD_RED as int),
            t > 0,
            self.threshold_red != 0 ==> t == self.threshold_red,
            self.threshold_red == 0 ==> t == DEFAULT_THRESHOLD_RED,
    {
        if self.threshold_red == 0 {
            DEFAULT_THRESHOLD_RED
        } else {
            self.threshold_red
        }
    }

    /// The text colour: the parsed font colour, or white when it does not
    /// parse.
    pub fn font_rgb(&self) -> (c: Rgb)
        requires
            !hex_slicing_panics(self.font_color@),
        ensures
            c == text_colour(self.font_color@),
    {
        match parse_hex(self.font_color.as_str()) {
            Some(rgb) => rgb,
            None => (255, 255, 255),
        }
    }
}

/// The text colour a font colour setting gives: the colour it spells, or
/// white.
pub open spec fn text_colour(font_color: Seq<char>) -> Rgb {
    match parse_hex_spec(font_color) {
        Some(rgb) => rgb,
        None => (255u8, 255u8, 255u8),
    }
}

/// `c` has the Unicode White_Space property (what `char::is_whitespace`
/// tests and `str::trim` removes).
pub open spec fn is_whitespace(c: char) -> bool {
    ||| '\u{9}' <= c <= '\u{d}'
    ||| c == ' '
    ||| c == '\u{85}'
    ||| c == '\u{a0}'
    ||| c == '\u{1680}'
    ||| '\u{2000}' <= c <= '\u{200a}'
    ||| c == '\u{2028}'
    ||| c == '\u{2029}'
    ||| c == '\u{202f}'
    ||| c == '\u{205f}'
    ||| c == '\u{3000}'
}

/// Number of leading characters of `s` that are whitespace.
pub open spec fn leading_whitespace(s: Seq<char>) -> nat
    decreases s.len(),
{
    if s.len() > 0 && is_whitespace(s[0]) {
        1 + leading_whitespace(s.drop_first())
    } else {
        0
    }
}

/// Number of trailing characters of `s` that are whitespace.
pub open spec fn trailing_whitespace(s: Seq<char>) -> nat
    decreases s.len(),
{
    if s.len() > 0 && is_whitespace(s.last()) {
        1 + trailing_whitespace(s.drop_last())
    } else {
        0
    }
}

/// Number of leading `#` characters of `s`.
pub open spec fn leading_hashes(s: Seq<char>) -> nat
    decreases s.len(),
{
    if s.len() > 0 && s[0] == '#' {
        1 + leading_hashes(s.drop_first())
    } else {
        0
    }
}

/// `s` without leading and trailing whitespace.
pub open spec fn trim(s: Seq<char>) -> Seq<char> {
    let a = s.skip(leading_whitespace(s) as int);
    a.take(a.len() - trailing_whitespace(a))
}

/// The part of a colour setting that holds the digits: trimmed, then
/// without its leading `#`s.
pub open spec fn hex_body(s: Seq<char>) -> Seq<char> {
    let t = trim(s);
    t.skip(leading_hashes(t) as int)
}

/// Value of a hexadecimal digit (either case).
pub open spec fn hex_digit_value(c: char) -> Option<u8> {
    if '0' <= c <= '9' {
        Some((c as int - 48) as u8)
    } else if 'a' <= c <= 'f' {
        Some((c as int - 87) as u8)
    } else if 'A' <= c <= 'F' {
        Some((c as int - 55) as u8)
    } else {
        None
    }
}

/// The byte that two characters spell in base 16, as `u8::from_str_radix`
/// reads them: two digits, or `+` and one digit.
pub open spec fn hex_pair(a: char, b: char) -> Option<u8> {
    if a == '+' {
        hex_digit_value(b)
    } else {
        match (hex_digit_value(a), hex_digit_value(b)) {
            (Some(x), Some(y)) => Some((16 * x + y) as u8),
            _ => None,
        }
    }
}

/// What `parse_hex` gives for `s`: three bytes when the digit part has six
/// characters that spell them, else `None`.
pub open spec fn parse_hex_spec(s: Seq<char>) -> Option<Rgb> {
    let t = hex_body(s);
    if t.len() == 6 {
        match (hex_pair(t[0], t[1]), hex_pair(t[2], t[3]), hex_pair(t[4], t[5])) {
            (Some(r), Some(g), Some(b)) => Some((r, g, b)),
            _ => None,
        }
    } else {
        None
    }
}

/// The digit part is six bytes long in UTF-8 but byte 2 or 4 falls inside a
/// character, so that slicing it into pairs of bytes panics.
pub open spec fn hex_slicing_panics(s: Seq<char>) -> bool {
    let b = encode_utf8(hex_body(s));
    b.len() == 6 && !(is_char_boundary(b, 2) && is_char_boundary(b, 4))
}

proof fn lemma_leading_whitespace(s: Seq<char>, k: int)
    requires
        0 <= k <= s.len(),
        forall|j: int| 0 <= j < k ==> is_whitespace(#[trigger] s[j]),
        k == s.len() || !is_whitespace(s[k]),
    ensures
        leading_whitespace(s) == k,
    decreases k,
{
    if k > 0 {
        assert forall|j: int| 0 <= j < k - 1 implies is_whitespace(#[trigger] s.drop_first()[j]) by {
            assert(s.drop_first()[j] == s[j + 1]);
        }
        lemma_leading_whitespace(s.drop_first(), k - 1);
    }
}

proof fn lemma_trailing_whitespace(s: Seq<char>, k: int)
    requires
        0 <= k <= s.len(),
        forall|j: int| s.len() - k <= j < s.len() ==> is_whitespace(#[trigger] s[j]),
        k == s.len() || !is_whitespace(s[s.len() - k - 1]),
    ensures
        trailing_whitespace(s) == k,
    decreases k,
{
    if k > 0 {
        assert forall|j: int| s.drop_last().len() - (k - 1) <= j < s.drop_last().len() implies is_whitespace(
            #[trigger] s.drop_last()[j],
        ) by {
            assert(s.drop_last()[j] == s[j]);
        }
        lemma_trailing_whitespace(s.drop_last(), k - 1);
    }
}

proof fn lemma_leading_hashes(s: Seq<char>, k: int)
    requires
        0 <= k <= s.len(),
        forall|j: int| 0 <= j < k ==> #[trigger] s[j] == '#',
        k == s.len() || s[k] != '#',
    ensures
        leading_hashes(s) == k,
    decreases k,
{
    if k > 0 {
        assert forall|j: int| 0 <= j < k - 1 implies #[trigger] s.drop_first()[j] == '#' by {
            assert(s.drop_first()[j] == s[j + 1]);
        }
        lemma_leading_hashes(s.drop_first(), k - 1);
    }
}

/// `c` has the White_Space property.
fn is_whitespace_char(c: char) -> (r: bool)
    ensures
        r == is_whitespace(c),
{
    ('\u{9}' <= c && c <= '\u{d}') || c == ' ' || c == '\u{85}' || c == '\u{a0}' || c
        == '\u{1680}' || ('\u{2000}' <= c && c <= '\u{200a}') || c == '\u{2028}' || c
        == '\u{2029}' || c == '\u{202f}' || c == '\u{205f}' || c == '\u{3000}'
}

/// Value of a hexadecimal digit.
fn hex_digit(c: char) -> (d: Option<u8>)
    ensures
        d == hex_digit_value(c),
{
    if '0' <= c && c <= '9' {
        Some((c as u32 - 48) as u8)
    } else if 'a' <= c && c <= 'f' {
        Some((c as u32 - 87) as u8)
    } else if 'A' <= c && c <= 'F' {
        Some((c as u32 - 55) as u8)
    } else {
        None
    }
}

/// The byte that two characters spell in base 16.
fn hex_byte(a: char, b: char) -> (v: Option<u8>)
    ensures
        v == hex_pair(a, b),
{
    if a == '+' {
        hex_digit(b)
    } else {
        match (hex_digit(a), hex_digit(b)) {
            (Some(x), Some(y)) => Some(16 * x + y),
            _ => None,
        }
    }
}

/// Parse a colour written as six hexadecimal digits, with optional
/// surrounding whitespace and leading `#`s, such as `#FF8800`.
pub fn parse_hex(s: &str) -> (rgb: Option<Rgb>)
    requires
        !hex_slicing_panics(s@),
    ensures
        rgb == parse_hex_spec(s@),
{
    let n = s.unicode_len();
    let mut a: usize = 0;
    while a < n && is_whitespace_char(s.get_char(a))
        invariant
            n == s@.len(),
            a <= n,
            forall|j: int| 0 <= j < a ==> is_whitespace(#[trigger] s@[j]),
        decreases n - a,
    {
        a = a + 1;
    }
    let mut b: usize = n;
    while b > a && is_whitespace_char(s.get_char(b - 1))
        invariant
            n == s@.len(),
            a <= b <= n,
            forall|j: int| b <= j < n ==> is_whitespace(#[trigger] s@[j]),
        decreases b,
    {
        b = b - 1;
    }
    let mut h: usize = a;
    while h < b && s.get_char(h) == '#'
        invariant
            n == s@.len(),
            a <= h <= b,
            b <= n,
            forall|j: int| a <= j < h ==> #[trigger] s@[j] == '#',
        decreases b - h,
    {
        h = h + 1;
    }
    proof {
        let sv = s@;
        lemma_leading_whitespace(sv, a as int);
        let rest = sv.skip(a as int);
        assert forall|j: int| rest.len() - (n - b) <= j < rest.len() implies is_whitespace(
            #[trigger] rest[j],
        ) by {
            assert(rest[j] == sv[j + a]);
        }
        if n - b != rest.len() {
            assert(rest[rest.len() - (n - b) - 1] == sv[b - 1]);
        }
        lemma_trailing_whitespace(rest, (n - b) as int);
        let t = trim(sv);
        assert(t =~= sv.subrange(a as int, b as int));
        assert forall|j: int| 0 <= j < h - a implies #[trigger] t[j] == '#' by {
            assert(t[j] == sv[j + a]);
        }
        lemma_leading_hashes(t, (h - a) as int);
        assert(hex_body(sv) =~= sv.subrange(h as int, b as int));
    }
    if b - h != 6 {
        return None;
    }
    let r = hex_byte(s.get_char(h), s.get_char(h + 1));
    let g = hex_byte(s.get_char(h + 2), s.get_char(h + 3));
    let bl = hex_byte(s.get_char(h + 4), s.get_char(h + 5));
    match (r, g, bl) {
        (Some(r), Some(g), Some(bl)) => Some((r, g, bl)),
        _ => None,
    }
}

impl Clone for Settings {
    fn clone(&self) -> (s: Self)
        ensures
            s == *self,
    {
        Settings {
            api_key: self.api_key.clone(),
            window: self.window.clone(),
            refresh_seconds: self.refresh_seconds,
            font_color: self.font_color.clone(),
            threshold_yellow: self.threshold_yellow,
            threshold_red: self.threshold_red,
        }
    }
}

/// Upper-case hexadecimal digit of `d` (for `d < 16`).
pub open spec fn upper_hex_digit(d: int) -> char {
    if d < 10 {
        (48 + d) as char
    } else {
        (55 + d) as char
    }
}

/// The usual way to write a colour: `#` and two upper-case hexadecimal
/// digits for each of red, green and blue.
pub open spec fn hex_colour(c: Rgb) -> Seq<char> {
    seq![
        '#',
        upper_hex_digit(c.0 as int / 16),
        upper_hex_digit(c.0 as int % 16),
        upper_hex_digit(c.1 as int / 16),
        upper_hex_digit(c.1 as int % 16),
        upper_hex_digit(c.2 as int / 16),
        upper_hex_digit(c.2 as int % 16),
    ]
}

/// A colour setting whose digit part is plain ASCII never makes the parser
/// slice inside a character.
pub proof fn lemma_ascii_colour_never_panics(s: Seq<char>)
    requires
        is_ascii_chars(hex_body(s)),
    ensures
        !hex_slicing_panics(s),
{
    let t = hex_body(s);
    let b = encode_utf8(t);
    is_ascii_chars_encode_utf8(t);
    encode_utf8_valid_utf8(t);
    if b.len() == 6 {
        assert(t[2] as u8 == b[2] && t[4] as u8 == b[4]);
        assert(t[2] <= '\u{7f}' && t[4] <= '\u{7f}');
        is_char_boundary_iff_not_is_continuation_byte(b, 2);
        is_char_boundary_iff_not_is_continuation_byte(b, 4);
    }
}

/// Writing a colour as `#RRGGBB` and parsing it gives the colour back.
pub proof fn lemma_parse_hex_round_trip(c: Rgb)
    ensures
        parse_hex_spec(hex_colour(c)) == Some(c),
        !hex_slicing_panics(hex_colour(c)),
{
    let s = hex_colour(c);
    assert(leading_whitespace(s) == 0);
    assert(s.skip(0) =~= s);
    assert(trailing_whitespace(s) == 0);
    assert(s.take(s.len() - 0) =~= s);
    assert(trim(s) == s);
    lemma_leading_hashes(s, 1);
    let t = hex_body(s);
    assert(t =~= s.skip(1));
    assert(hex_pair(t[0], t[1]) == Some(c.0));
    assert(hex_pair(t[2], t[3]) == Some(c.1));
    assert(hex_pair(t[4], t[5]) == Some(c.2));
    assert(is_ascii_chars(t));
    lemma_ascii_colour_never_panics(s);
}

/// A set (non-zero) value is used as it is, whatever its size; only zero
/// falls back to the default.
pub proof fn lemma_set_values_are_kept(value: int, default: int)
    ensures
        value != 0 ==> or_default(value, default) == value,
        or_default(0, default) == default,
{
}

/// Lower-case hexadecimal digit of `d` (for `d < 16`).
pub open spec fn lower_hex_digit(d: int) -> char {
    if d < 10 {
        (48 + d) as char
    } else {
        (87 + d) as char
    }
}

/// Every hexadecimal digit, upper or lower case, reads as its value: `0`-`9`
/// as 0-9, `a`-`f` and `A`-`F` both as 10-15.
pub proof fn lemma_hex_digits_either_case(d: int)
    requires
        0 <= d < 16,
    ensures
        hex_digit_value(upper_hex_digit(d)) == Some(d as u8),
        hex_digit_value(lower_hex_digit(d)) == Some(d as u8),
        d >= 10 ==> lower_hex_digit(d) as int == upper_hex_digit(d) as int + 32,
{
}

/// A colour written `#rrggbb` in lower case.
pub open spec fn hex_colour_lower(c: Rgb) -> Seq<char> {
    seq![
        '#',
        lower_hex_digit(c.0 as int / 16),
        lower_hex_digit(c.0 as int % 16),
        lower_hex_digit(c.1 as int / 16),
        lower_hex_digit(c.1 as int % 16),
        lower_hex_digit(c.2 as int / 16),
        lower_hex_digit(c.2 as int % 16),
    ]
}

/// Writing a colour as `#rrggbb` in lower case and parsing it gives the
/// colour back.
pub proof fn lemma_parse_hex_round_trip_lower(c: Rgb)
    ensures
        parse_hex_spec(hex_colour_lower(c)) == Some(c),
        !hex_slicing_panics(hex_colour_lower(c)),
{
    let s = hex_colour_lower(c);
    assert(leading_whitespace(s) == 0);
    assert(s.skip(0) =~= s);
    assert(trailing_whitespace(s) == 0);
    assert(s.take(s.len() - 0) =~= s);
    assert(trim(s) == s);
    lemma_leading_hashes(s, 1);
    let t = hex_body(s);
    assert(t =~= s.skip(1));
    lemma_hex_digits_either_case(c.0 as int / 16);
    lemma_hex_digits_either_case(c.0 as int % 16);
    lemma_hex_digits_either_case(c.1 as int / 16);
    lemma_hex_digits_either_case(c.1 as int % 16);
    lemma_hex_digits_either_case(c.2 as int / 16);
    lemma_hex_digits_either_case(c.2 as int % 16);
    assert(hex_pair(t[0], t[1]) == Some(c.0));
    assert(hex_pair(t[2], t[3]) == Some(c.1));
    assert(hex_pair(t[4], t[5]) == Some(c.2));
    assert(is_ascii_chars(t));
    lemma_ascii_colour_never_panics(s);
}

} // verus!
