use vstd::prelude::*;

verus! {

// The three fixed code tables: style-add keywords, style-remove keywords, and
// the named 16-color keywords. Pure lookups, no state.

/// SGR code for a style keyword used with `+` (style add).
pub open spec fn spec_add_style(s: Seq<char>) -> Option<u8> {
    if s == "Reset"@ {
        Some(0u8)
    } else if s == "Bold"@ {
        Some(1u8)
    } else if s == "Dim"@ {
        Some(2u8)
    } else if s == "Italic"@ {
        Some(3u8)
    } else if s == "Underline"@ {
        Some(4u8)
    } else if s == "Blinking"@ {
        Some(5u8)
    } else if s == "Inverse"@ {
        Some(7u8)
    } else if s == "Hidden"@ {
        Some(8u8)
    } else if s == "Strikethrough"@ {
        Some(9u8)
    } else {
        None
    }
}

/// SGR code for a style keyword used with `-` (style remove).
pub open spec fn spec_sub_style(s: Seq<char>) -> Option<u8> {
    if s == "Bold"@ || s == "Dim"@ {
        Some(22u8)
    } else if s == "Italic"@ {
        Some(23u8)
    } else if s == "Underline"@ {
        Some(24u8)
    } else if s == "Blinking"@ {
        Some(25u8)
    } else if s == "Inverse"@ {
        Some(27u8)
    } else if s == "Hidden"@ {
        Some(28u8)
    } else if s == "Strikethrough"@ {
        Some(29u8)
    } else {
        None
    }
}

/// SGR code for a named 16-color keyword used with `#`.
pub open spec fn spec_color_simple(s: Seq<char>) -> Option<u8> {
    if s == "BlackFg"@ {
        Some(30u8)
    } else if s == "RedFg"@ {
        Some(31u8)
    } else if s == "GreenFg"@ {
        Some(32u8)
    } else if s == "YellowFg"@ {
        Some(33u8)
    } else if s == "BlueFg"@ {
        Some(34u8)
    } else if s == "MagentaFg"@ {
        Some(35u8)
    } else if s == "CyanFg"@ {
        Some(36u8)
    } else if s == "WhiteFg"@ {
        Some(37u8)
    } else if s == "DefaultFg"@ {
        Some(39u8)
    } else if s == "BlackBg"@ {
        Some(40u8)
    } else if s == "RedBg"@ {
        Some(41u8)
    } else if s == "GreenBg"@ {
        Some(42u8)
    } else if s == "YellowBg"@ {
        Some(43u8)
    } else if s == "BlueBg"@ {
        Some(44u8)
    } else if s == "MagentaBg"@ {
        Some(45u8)
    } else if s == "CyanBg"@ {
        Some(46u8)
    } else if s == "WhiteBg"@ {
        Some(47u8)
    } else if s == "DefaultBg"@ {
        Some(49u8)
    } else {
        None
    }
}

/// True exactly when the characters of `s` from `a` (inclusive) to `b`
/// (exclusive) spell out `kw`.
pub fn range_matches(s: &Vec<char>, a: usize, b: usize, kw: &str) -> (r: bool)
    requires
        a <= b && b <= s.len(),
    ensures
        r == (s@.subrange(a as int, b as int) == kw@),
{
    let n = kw.unicode_len();
    if n != b - a {
        proof {
            assert(s@.subrange(a as int, b as int).len() == b - a);
        }
        return false;
    }
    let mut i: usize = 0;
    while i < n
        invariant
            a <= b <= s.len(),
            n == b - a,
            n == kw@.len(),
            i <= n,
            forall|j: int| 0 <= j < i ==> s@[a + j] == kw@[j],
        decreases n - i,
    {
        if s[a + i] != kw.get_char(i) {
            proof {
                assert(s@.subrange(a as int, b as int)[i as int] != kw@[i as int]);
            }
            return false;
        }
        i += 1;
    }
    proof {
        assert(s@.subrange(a as int, b as int) =~= kw@);
    }
    true
}

/// Looks the `+`-table up for the keyword spelled by `s[a..b]`.
pub fn parse_add_style(s: &Vec<char>, a: usize, b: usize) -> (r: Option<u8>)
    requires
        a <= b && b <= s.len(),
    ensures
        r == spec_add_style(s@.subrange(a as int, b as int)),
{
    if range_matches(s, a, b, "Reset") {
        Some(0)
    } else if range_matches(s, a, b, "Bold") {
        Some(1)
    } else if range_matches(s, a, b, "Dim") {
        Some(2)
    } else if range_matches(s, a, b, "Italic") {
        Some(3)
    } else if range_matches(s, a, b, "Underline") {
        Some(4)
    } else if range_matches(s, a, b, "Blinking") {
        Some(5)
    } else if range_matches(s, a, b, "Inverse") {
        Some(7)
    } else if range_matches(s, a, b, "Hidden") {
        Some(8)
    } else if range_matches(s, a, b, "Strikethrough") {
        Some(9)
    } else {
        None
    }
}

/// Looks the `-`-table up for the keyword spelled by `s[a..b]`.
pub fn parse_sub_style(s: &Vec<char>, a: usize, b: usize) -> (r: Option<u8>)
    requires
        a <= b && b <= s.len(),
    ensures
        r == spec_sub_style(s@.subrange(a as int, b as int)),
{
    if range_matches(s, a, b, "Bold") || range_matches(s, a, b, "Dim") {
        Some(22)
    } else if range_matches(s, a, b, "Italic") {
        Some(23)
    } else if range_matches(s, a, b, "Underline") {
        Some(24)
    } else if range_matches(s, a, b, "Blinking") {
        Some(25)
    } else if range_matches(s, a, b, "Inverse") {
        Some(27)
    } else if range_matches(s, a, b, "Hidden") {
        Some(28)
    } else if range_matches(s, a, b, "Strikethrough") {
        Some(29)
    } else {
        None
    }
}

/// Looks the color-name table up for the keyword spelled by `s[a..b]`.
pub fn parse_color_simple(s: &Vec<char>, a: usize, b: usize) -> (r: Option<u8>)
    requires
        a <= b && b <= s.len(),
    ensures
        r == spec_color_simple(s@.subrange(a as int, b as int)),
{
    if range_matches(s, a, b, "BlackFg") {
        Some(30)
    } else if range_matches(s, a, b, "RedFg") {
        Some(31)
    } else if range_matches(s, a, b, "GreenFg") {
        Some(32)
    } else if range_matches(s, a, b, "YellowFg") {
        Some(33)
    } else if range_matches(s, a, b, "BlueFg") {
        Some(34)
    } else if range_matches(s, a, b, "MagentaFg") {
        Some(35)
    } else if range_matches(s, a, b, "CyanFg") {
        Some(36)
    } else if range_matches(s, a, b, "WhiteFg") {
        Some(37)
    } else if range_matches(s, a, b, "DefaultFg") {
        Some(39)
    } else if range_matches(s, a, b, "BlackBg") {
        Some(40)
    } else if range_matches(s, a, b, "RedBg") {
        Some(41)
    } else if range_matches(s, a, b, "GreenBg") {
        Some(42)
    } else if range_matches(s, a, b, "YellowBg") {
        Some(43)
    } else if range_matches(s, a, b, "BlueBg") {
        Some(44)
    } else if range_matches(s, a, b, "MagentaBg") {
        Some(45)
    } else if range_matches(s, a, b, "CyanBg") {
        Some(46)
    } else if range_matches(s, a, b, "WhiteBg") {
        Some(47)
    } else if range_matches(s, a, b, "DefaultBg") {
        Some(49)
    } else {
        None
    }
}

} // verus!
