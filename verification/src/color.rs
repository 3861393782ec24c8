//! Badge colors: the color strings a badge may carry, and the terminal color
//! and style they resolve to.

use vstd::prelude::*;
use crate::text::{
    lower, to_lower, dec_value, all_digits,
    str_chars, compare_chars, KeyOrder, trim_ws, trim_bounds, sub_chars, find_char, find_in,
    lemma_find_char_bounds,
};

verus! {

/// A terminal color, as the renderer takes it.
#[derive(Debug, Clone, Copy, PartialEq, Eq)]
pub enum BadgeColor {
    Reset,
    Black,
    Red,
    Green,
    Yellow,
    Blue,
    Magenta,
    Cyan,
    Gray,
    DarkGray,
    LightRed,
    LightGreen,
    LightYellow,
    LightBlue,
    LightMagenta,
    LightCyan,
    White,
    Rgb(u8, u8, u8),
    Indexed(u8),
}

/// A text style with an optional foreground color; everything else about the
/// style is left at its default.
#[derive(Debug, Clone, Copy, PartialEq, Eq)]
pub struct BadgeStyle {
    pub fg: Option<BadgeColor>,
}

/// The value of a hexadecimal digit.
pub open spec fn hex_digit(c: char) -> Option<int> {
    if '0' <= c && c <= '9' {
        Some(c as int - '0' as int)
    } else if 'a' <= c && c <= 'f' {
        Some(c as int - 'a' as int + 10)
    } else if 'A' <= c && c <= 'F' {
        Some(c as int - 'A' as int + 10)
    } else {
        None
    }
}

/// All characters of `s` from `from` on are hexadecimal digits.
pub open spec fn all_hex(s: Seq<char>, from: int) -> bool {
    forall|i: int| from <= i < s.len() ==> (#[trigger] hex_digit(s[i])) is Some
}

/// The color of `#rrggbb`, or of `#rgb` where each digit stands for itself
/// twice.
pub open spec fn hex_color(s: Seq<char>) -> Option<BadgeColor> {
    if s.len() == 7 && s[0] == '#' && all_hex(s, 1) {
        Some(
            BadgeColor::Rgb(
                (hex_digit(s[1])->0 * 16 + hex_digit(s[2])->0) as u8,
                (hex_digit(s[3])->0 * 16 + hex_digit(s[4])->0) as u8,
                (hex_digit(s[5])->0 * 16 + hex_digit(s[6])->0) as u8,
            ),
        )
    } else if s.len() == 4 && s[0] == '#' && all_hex(s, 1) {
        Some(
            BadgeColor::Rgb(
                (hex_digit(s[1])->0 * 17) as u8,
                (hex_digit(s[2])->0 * 17) as u8,
                (hex_digit(s[3])->0 * 17) as u8,
            ),
        )
    } else {
        None
    }
}

fn hex_value(c: char) -> (r: Option<u8>)
    ensures
        r is None <==> hex_digit(c) is None,
        r matches Some(v) ==> v == hex_digit(c)->0 && v < 16,
{
    if '0' <= c && c <= '9' {
        Some((c as u32 - '0' as u32) as u8)
    } else if 'a' <= c && c <= 'f' {
        Some((c as u32 - 'a' as u32 + 10) as u8)
    } else if 'A' <= c && c <= 'F' {
        Some((c as u32 - 'A' as u32 + 10) as u8)
    } else {
        None
    }
}

/// Reads `#rrggbb` or `#rgb`.
fn parse_hex(cs: &Vec<char>) -> (r: Option<BadgeColor>)
    ensures
        r == hex_color(cs@),
{
    let n = cs.len();
    if (n != 7 && n != 4) || cs[0] != '#' {
        return None;
    }
    let mut digits: Vec<u8> = Vec::new();
    let mut i: usize = 1;
    while i < n
        invariant
            n == cs@.len(),
            1 <= i <= n,
            digits@.len() == i - 1,
            forall|j: int| 1 <= j < i ==> (#[trigger] hex_digit(cs@[j])) is Some,
            forall|j: int| 1 <= j < i ==> digits@[j - 1] == hex_digit(cs@[j])->0 && digits@[j - 1] < 16,
        decreases n - i,
    {
        match hex_value(cs[i]) {
            Some(v) => digits.push(v),
            None => {
                return None;
            },
        }
        i = i + 1;
    }
    if n == 7 {
        Some(BadgeColor::Rgb(
            digits[0] * 16 + digits[1],
            digits[2] * 16 + digits[3],
            digits[4] * 16 + digits[5],
        ))
    } else {
        Some(BadgeColor::Rgb(digits[0] * 17, digits[1] * 17, digits[2] * 17))
    }
}

/// A color channel written in decimal: one to three digits, at most 255,
/// with whitespace around them allowed.
pub open spec fn channel(s: Seq<char>) -> Option<u8> {
    let t = trim_ws(s);
    if 1 <= t.len() <= 3 && all_digits(t) && dec_value(t) <= 255 {
        Some(dec_value(t) as u8)
    } else {
        None
    }
}

/// The color of `rgb(r,g,b)` with three decimal channels.
pub open spec fn rgb_color(s: Seq<char>) -> Option<BadgeColor> {
    if s.len() >= 5 && s.take(4) == "rgb("@ && s.last() == ')' {
        let inner = s.subrange(4, s.len() - 1);
        let i = find_char(inner, ',', 0);
        let rest = inner.subrange(i + 1, inner.len() as int);
        let j = find_char(rest, ',', 0);
        let third = rest.subrange(j + 1, rest.len() as int);
        if i < inner.len() && j < rest.len() && find_char(third, ',', 0) == third.len() {
            match (channel(inner.take(i)), channel(rest.take(j)), channel(third)) {
                (Some(r), Some(g), Some(b)) => Some(BadgeColor::Rgb(r, g, b)),
                _ => None,
            }
        } else {
            None
        }
    } else {
        None
    }
}

/// Reads a decimal color channel.
fn parse_channel(s: &[char]) -> (r: Option<u8>)
    ensures
        r == channel(s@),
{
    let (a, b) = trim_bounds(s);
    let t = sub_chars(s, a, b);
    if t.len() < 1 || t.len() > 3 {
        return None;
    }
    let mut v: u32 = 0;
    let mut i: usize = 0;
    while i < t.len()
        invariant
            i <= t@.len() <= 3,
            t@ == trim_ws(s@),
            forall|k: int| 0 <= k < i ==> '0' <= #[trigger] t@[k] && t@[k] <= '9',
            v == dec_value(t@.take(i as int)),
            v < 1000,
            i == 0 ==> v == 0,
            i == 1 ==> v < 10,
            i == 2 ==> v < 100,
        decreases t.len() - i,
    {
        let c = t[i];
        if c < '0' || c > '9' {
            return None;
        }
        assert(t@.take(i + 1).drop_last() =~= t@.take(i as int));
        v = v * 10 + (c as u32 - '0' as u32);
        i = i + 1;
    }
    assert(t@.take(i as int) =~= t@);
    if v <= 255 {
        Some(v as u8)
    } else {
        None
    }
}

/// Reads `rgb(r,g,b)`.
fn parse_rgb(cs: &Vec<char>) -> (r: Option<BadgeColor>)
    ensures
        r == rgb_color(cs@),
{
    let n = cs.len();
    let prefix = str_chars("rgb(");
    if n < 5 || cs[n - 1] != ')' {
        return None;
    }
    let head = sub_chars(cs.as_slice(), 0, 4);
    match compare_chars(head.as_slice(), prefix.as_slice()) {
        KeyOrder::Equal => {},
        _ => {
            return None;
        },
    }
    assert(head@ =~= cs@.take(4));
    let inner = sub_chars(cs.as_slice(), 4, n - 1);
    let i = find_in(inner.as_slice(), ',');
    proof {
        lemma_find_char_bounds(inner@, ',', 0);
    }
    if i >= inner.len() {
        return None;
    }
    let rest = sub_chars(inner.as_slice(), i + 1, inner.len());
    let j = find_in(rest.as_slice(), ',');
    proof {
        lemma_find_char_bounds(rest@, ',', 0);
    }
    if j >= rest.len() {
        return None;
    }
    let third = sub_chars(rest.as_slice(), j + 1, rest.len());
    if find_in(third.as_slice(), ',') != third.len() {
        return None;
    }
    let first = sub_chars(inner.as_slice(), 0, i);
    let second = sub_chars(rest.as_slice(), 0, j);
    match (parse_channel(first.as_slice()), parse_channel(second.as_slice()), parse_channel(third.as_slice())) {
        (Some(r), Some(g), Some(b)) => Some(BadgeColor::Rgb(r, g, b)),
        _ => None,
    }
}

/// The color a (lower-case) color name stands for; `reset`, `default` and
/// `none` keep the surrounding color.
pub open spec fn named_color(s: Seq<char>) -> Option<BadgeColor> {
    if s == "reset"@ {
        Some(BadgeColor::Reset)
    } else if s == "default"@ {
        Some(BadgeColor::Reset)
    } else if s == "none"@ {
        Some(BadgeColor::Reset)
    } else if s == "black"@ {
        Some(BadgeColor::Black)
    } else if s == "red"@ {
        Some(BadgeColor::Red)
    } else if s == "green"@ {
        Some(BadgeColor::Green)
    } else if s == "yellow"@ {
        Some(BadgeColor::Yellow)
    } else if s == "blue"@ {
        Some(BadgeColor::Blue)
    } else if s == "magenta"@ {
        Some(BadgeColor::Magenta)
    } else if s == "cyan"@ {
        Some(BadgeColor::Cyan)
    } else if s == "gray"@ {
        Some(BadgeColor::Gray)
    } else if s == "grey"@ {
        Some(BadgeColor::Gray)
    } else if s == "darkgray"@ {
        Some(BadgeColor::DarkGray)
    } else if s == "darkgrey"@ {
        Some(BadgeColor::DarkGray)
    } else if s == "lightred"@ {
        Some(BadgeColor::LightRed)
    } else if s == "lightgreen"@ {
        Some(BadgeColor::LightGreen)
    } else if s == "lightyellow"@ {
        Some(BadgeColor::LightYellow)
    } else if s == "lightblue"@ {
        Some(BadgeColor::LightBlue)
    } else if s == "lightmagenta"@ {
        Some(BadgeColor::LightMagenta)
    } else if s == "lightcyan"@ {
        Some(BadgeColor::LightCyan)
    } else if s == "white"@ {
        Some(BadgeColor::White)
    } else {
        None
    }
}

/// The color a badge color string stands for: `#rrggbb` or `#rgb`, then
/// `rgb(r,g,b)`, then a color name in any ASCII case; anything else keeps the
/// surrounding color.
pub open spec fn color_of(s: Seq<char>) -> BadgeColor {
    match hex_color(s) {
        Some(c) => c,
        None => match rgb_color(s) {
            Some(c) => c,
            None => match named_color(lower(s)) {
                Some(c) => c,
                None => BadgeColor::Reset,
            },
        },
    }
}

fn matches_name(cs: &Vec<char>, name: &str) -> (r: bool)
    ensures
        r == (cs@ == name@),
{
    let n = str_chars(name);
    match compare_chars(cs.as_slice(), n.as_slice()) {
        KeyOrder::Equal => true,
        _ => false,
    }
}

/// The color a lower-case color name stands for.
fn parse_named(cs: &Vec<char>) -> (r: Option<BadgeColor>)
    ensures
        r == named_color(cs@),
{
    if matches_name(cs, "reset") {
        return Some(BadgeColor::Reset);
    }
    if matches_name(cs, "default") {
        return Some(BadgeColor::Reset);
    }
    if matches_name(cs, "none") {
        return Some(BadgeColor::Reset);
    }
    if matches_name(cs, "black") {
        return Some(BadgeColor::Black);
    }
    if matches_name(cs, "red") {
        return Some(BadgeColor::Red);
    }
    if matches_name(cs, "green") {
        return Some(BadgeColor::Green);
    }
    if matches_name(cs, "yellow") {
        return Some(BadgeColor::Yellow);
    }
    if matches_name(cs, "blue") {
        return Some(BadgeColor::Blue);
    }
    if matches_name(cs, "magenta") {
        return Some(BadgeColor::Magenta);
    }
    if matches_name(cs, "cyan") {
        return Some(BadgeColor::Cyan);
    }
    if matches_name(cs, "gray") {
        return Some(BadgeColor::Gray);
    }
    if matches_name(cs, "grey") {
        return Some(BadgeColor::Gray);
    }
    if matches_name(cs, "darkgray") {
        return Some(BadgeColor::DarkGray);
    }
    if matches_name(cs, "darkgrey") {
        return Some(BadgeColor::DarkGray);
    }
    if matches_name(cs, "lightred") {
        return Some(BadgeColor::LightRed);
    }
    if matches_name(cs, "lightgreen") {
        return Some(BadgeColor::LightGreen);
    }
    if matches_name(cs, "lightyellow") {
        return Some(BadgeColor::LightYellow);
    }
    if matches_name(cs, "lightblue") {
        return Some(BadgeColor::LightBlue);
    }
    if matches_name(cs, "lightmagenta") {
        return Some(BadgeColor::LightMagenta);
    }
    if matches_name(cs, "lightcyan") {
        return Some(BadgeColor::LightCyan);
    }
    if matches_name(cs, "white") {
        return Some(BadgeColor::White);
    }
    None
}

/// Reads a color string: hex, `rgb(r,g,b)`, or a name; anything else keeps
/// the surrounding color.
pub fn parse_color(color: &str) -> (r: BadgeColor)
    ensures
        r == color_of(color@),
{
    let cs = str_chars(color);
    if let Some(c) = parse_hex(&cs) {
        return c;
    }
    if let Some(c) = parse_rgb(&cs) {
        return c;
    }
    let l = to_lower(&cs);
    match parse_named(&l) {
        Some(c) => c,
        None => BadgeColor::Reset,
    }
}

/// Resolves a badge color string. An empty string keeps the surrounding
/// color; anything else is read by `parse_color`.
pub fn resolve_color(color: &str) -> (r: BadgeColor)
    ensures
        r == (if color@.len() == 0 { BadgeColor::Reset } else { color_of(color@) }),
{
    if color.is_empty() {
        return BadgeColor::Reset;
    }
    parse_color(color)
}

/// The style of a badge: its resolved color as the foreground.
pub fn resolve_style(color: &str) -> (r: BadgeStyle)
    ensures
        r.fg == Some(if color@.len() == 0 { BadgeColor::Reset } else { color_of(color@) }),
{
    BadgeStyle { fg: Some(resolve_color(color)) }
}


/// The terminal color's own name, in lower case; the colors given by value
/// have none.
pub open spec fn terminal_color_name(c: BadgeColor) -> Seq<char> {
    match c {
        BadgeColor::Reset => "reset"@,
        BadgeColor::Black => "black"@,
        BadgeColor::Red => "red"@,
        BadgeColor::Green => "green"@,
        BadgeColor::Yellow => "yellow"@,
        BadgeColor::Blue => "blue"@,
        BadgeColor::Magenta => "magenta"@,
        BadgeColor::Cyan => "cyan"@,
        BadgeColor::Gray => "gray"@,
        BadgeColor::DarkGray => "darkgray"@,
        BadgeColor::LightRed => "lightred"@,
        BadgeColor::LightGreen => "lightgreen"@,
        BadgeColor::LightYellow => "lightyellow"@,
        BadgeColor::LightBlue => "lightblue"@,
        BadgeColor::LightMagenta => "lightmagenta"@,
        BadgeColor::LightCyan => "lightcyan"@,
        BadgeColor::White => "white"@,
        BadgeColor::Rgb(..) => Seq::empty(),
        BadgeColor::Indexed(..) => Seq::empty(),
    }
}

/// A string of lower-case ASCII letters.
pub open spec fn lower_letters(s: Seq<char>) -> bool {
    forall|i: int| 0 <= i < s.len() ==> 'a' <= #[trigger] s[i] && s[i] <= 'z'
}

/// A name of lower-case letters is neither a hex color nor `rgb(..)`: it
/// resolves by name alone.
proof fn lemma_letters_resolve_by_name(s: Seq<char>)
    requires
        s.len() > 0,
        lower_letters(s),
    ensures
        color_of(s) == match named_color(s) {
            Some(c) => c,
            None => BadgeColor::Reset,
        },
{
    reveal_strlit("rgb(");
    assert(hex_color(s) is None);
    if s.len() >= 5 {
        assert(s.take(4)[3] == s[3]);
        assert("rgb("@[3] == '(');
        assert(s.take(4) != "rgb("@);
    }
    assert(rgb_color(s) is None);
    assert(lower(s) =~= s);
}

/// Every terminal color with a name is what that name resolves to: `green`
/// gives green (never light green), `lightgreen` gives light green, and so on
/// for the sixteen colors and `reset`.
pub proof fn law_color_names(c: BadgeColor)
    requires
        !(c is Rgb),
        !(c is Indexed),
    ensures
        color_of(terminal_color_name(c)) == c,
{
    reveal_strlit("reset");
    reveal_strlit("default");
    reveal_strlit("none");
    reveal_strlit("black");
    reveal_strlit("red");
    reveal_strlit("green");
    reveal_strlit("yellow");
    reveal_strlit("blue");
    reveal_strlit("magenta");
    reveal_strlit("cyan");
    reveal_strlit("gray");
    reveal_strlit("grey");
    reveal_strlit("darkgray");
    reveal_strlit("darkgrey");
    reveal_strlit("lightred");
    reveal_strlit("lightgreen");
    reveal_strlit("lightyellow");
    reveal_strlit("lightblue");
    reveal_strlit("lightmagenta");
    reveal_strlit("lightcyan");
    reveal_strlit("white");
    reveal_strlit("rgb(");
    let s = terminal_color_name(c);
    assert(s.len() > 0);
    assert(lower_letters(s));
    lemma_letters_resolve_by_name(s);
    assert(named_color(s) == Some(c));
}


/// Two lower-case hex digits for a byte.
pub open spec fn hex_byte(n: u8) -> Seq<char> {
    seq![crate::json::hex_lower(n as int / 16), crate::json::hex_lower(n as int % 16)]
}

proof fn lemma_hex_digit_of(d: int)
    requires
        0 <= d < 16,
    ensures
        hex_digit(crate::json::hex_lower(d)) == Some(d),
{
}

/// `#rrggbb` gives the color of those three bytes: writing a color's bytes as
/// hex and reading them back gives the same color, each channel in its place.
pub proof fn law_hex_color_reads_back(r: u8, g: u8, b: u8)
    ensures
        color_of(seq!['#'] + hex_byte(r) + hex_byte(g) + hex_byte(b)) == BadgeColor::Rgb(r, g, b),
{
    let s = seq!['#'] + hex_byte(r) + hex_byte(g) + hex_byte(b);
    assert(0 <= r as int / 16 < 16 && 0 <= r as int % 16 < 16 && 16 * (r as int / 16) + r as int % 16 == r)
        by (nonlinear_arith);
    assert(0 <= g as int / 16 < 16 && 0 <= g as int % 16 < 16 && 16 * (g as int / 16) + g as int % 16 == g)
        by (nonlinear_arith);
    assert(0 <= b as int / 16 < 16 && 0 <= b as int % 16 < 16 && 16 * (b as int / 16) + b as int % 16 == b)
        by (nonlinear_arith);
    lemma_hex_digit_of(r as int / 16);
    lemma_hex_digit_of(r as int % 16);
    lemma_hex_digit_of(g as int / 16);
    lemma_hex_digit_of(g as int % 16);
    lemma_hex_digit_of(b as int / 16);
    lemma_hex_digit_of(b as int % 16);
    assert(s.len() == 7);
    assert(s[1] == crate::json::hex_lower(r as int / 16) && s[2] == crate::json::hex_lower(r as int % 16));
    assert(s[3] == crate::json::hex_lower(g as int / 16) && s[4] == crate::json::hex_lower(g as int % 16));
    assert(s[5] == crate::json::hex_lower(b as int / 16) && s[6] == crate::json::hex_lower(b as int % 16));
    assert(all_hex(s, 1));
    assert(hex_color(s) == Some(BadgeColor::Rgb(r, g, b)));
}

/// `#rgb` gives each digit doubled: digit `d` stands for the byte `17 * d`.
pub proof fn law_short_hex_color(r: int, g: int, b: int)
    requires
        0 <= r < 16,
        0 <= g < 16,
        0 <= b < 16,
    ensures
        color_of(seq!['#', crate::json::hex_lower(r), crate::json::hex_lower(g), crate::json::hex_lower(b)])
            == BadgeColor::Rgb((17 * r) as u8, (17 * g) as u8, (17 * b) as u8),
{
    let s = seq!['#', crate::json::hex_lower(r), crate::json::hex_lower(g), crate::json::hex_lower(b)];
    lemma_hex_digit_of(r);
    lemma_hex_digit_of(g);
    lemma_hex_digit_of(b);
    assert(all_hex(s, 1));
}


/// A byte in three decimal digits, zero-padded.
pub open spec fn dec_byte(n: u8) -> Seq<char> {
    seq![
        crate::json::hex_lower(n as int / 100),
        crate::json::hex_lower(n as int / 10 % 10),
        crate::json::hex_lower(n as int % 10),
    ]
}

proof fn lemma_dec_byte(n: u8)
    ensures
        channel(dec_byte(n)) == Some(n),
        find_char(dec_byte(n), ',', 0) == 3,
        dec_byte(n).len() == 3,
{
    let t = dec_byte(n);
    let (a, b, c) = (n as int / 100, n as int / 10 % 10, n as int % 10);
    assert(0 <= n as int / 100 < 3 && 0 <= n as int / 10 % 10 < 10 && 0 <= n as int % 10 < 10 && 100 * (n as int
        / 100) + 10 * (n as int / 10 % 10) + n as int % 10 == n as int) by (nonlinear_arith);
    assert(t[0] as int == 48 + a && t[1] as int == 48 + b && t[2] as int == 48 + c);
    assert(!crate::text::is_ws(t[0]) && !crate::text::is_ws(t[2]));
    assert(crate::text::skip_ws(t, 0) == 0);
    assert(crate::text::back_ws(t, 0, 3) == 3);
    assert(t.subrange(0, 3) =~= t);
    assert(trim_ws(t) == t);
    assert(all_digits(t));
    let t2 = t.drop_last().drop_last();
    assert(t2.len() == 1 && t2.last() == t[0]);
    assert(t2.drop_last() =~= Seq::<char>::empty());
    assert(dec_value(t2.drop_last()) == 0);
    assert('0' as int == 48);
    assert(dec_value(t2) == a);
    assert(t.drop_last().last() == t[1]);
    assert(dec_value(t.drop_last()) == 10 * a + b);
    assert(dec_value(t) == n);
    assert(find_char(t, ',', 3) == 3);
    assert(find_char(t, ',', 2) == 3);
    assert(find_char(t, ',', 1) == 3);
}

/// `rgb(r,g,b)` gives the color of those three channels: writing a color's
/// bytes in decimal and reading them back gives the same color, each channel
/// in its place.
pub proof fn law_rgb_color_reads_back(r: u8, g: u8, b: u8)
    ensures
        color_of("rgb("@ + dec_byte(r) + seq![','] + dec_byte(g) + seq![','] + dec_byte(b) + seq![')'])
            == BadgeColor::Rgb(r, g, b),
{
    reveal_strlit("rgb(");
    lemma_dec_byte(r);
    lemma_dec_byte(g);
    lemma_dec_byte(b);
    let s = "rgb("@ + dec_byte(r) + seq![','] + dec_byte(g) + seq![','] + dec_byte(b) + seq![')'];
    assert(s.len() == 16);
    assert(s[0] == 'r');
    assert(hex_color(s) is None);
    assert(s.take(4) =~= "rgb("@);
    assert(s.last() == ')');
    let inner = s.subrange(4, s.len() - 1);
    assert(inner =~= dec_byte(r) + seq![','] + dec_byte(g) + seq![','] + dec_byte(b));
    assert(inner.take(3) =~= dec_byte(r));
    assert(inner[3] == ',');
    assert(find_char(inner, ',', 3) == 3);
    assert(find_char(inner, ',', 2) == 3);
    assert(find_char(inner, ',', 1) == 3);
    assert(find_char(inner, ',', 0) == 3);
    let rest = inner.subrange(4, inner.len() as int);
    assert(rest =~= dec_byte(g) + seq![','] + dec_byte(b));
    assert(rest.take(3) =~= dec_byte(g));
    assert(rest[3] == ',');
    assert(find_char(rest, ',', 3) == 3);
    assert(find_char(rest, ',', 2) == 3);
    assert(find_char(rest, ',', 1) == 3);
    assert(find_char(rest, ',', 0) == 3);
    let third = rest.subrange(4, rest.len() as int);
    assert(third =~= dec_byte(b));
    assert(rgb_color(s) == Some(BadgeColor::Rgb(r, g, b)));
}

} // verus!
