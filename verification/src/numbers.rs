use vstd::prelude::*;

verus! {

// Numeric helpers: decimal rendering of SGR codes, the `;`-joined emitter
// form, and the decoders for decimal and hexadecimal color payloads.

/// A decimal digit character.
pub open spec fn is_digit(c: char) -> bool {
    48 <= c as u32 <= 57
}

/// The numeric value of a digit character (0 for anything else).
pub open spec fn spec_digit_val(c: char) -> nat {
    if is_digit(c) {
        (c as u32 - 48) as nat
    } else {
        0
    }
}

/// The value of a run of decimal digit characters, most significant first.
pub open spec fn spec_digits_val(s: Seq<char>) -> nat
    decreases s.len(),
{
    if s.len() == 0 {
        0
    } else {
        spec_digits_val(s.drop_last()) * 10 + spec_digit_val(s.last())
    }
}

/// A decimal color component: non-empty, digits only, value at most 255.
pub open spec fn spec_dec_val(s: Seq<char>) -> Option<u8> {
    if s.len() > 0 && (forall|i: int| 0 <= i < s.len() ==> is_digit(s[i])) && spec_digits_val(s)
        <= 255 {
        Some(spec_digits_val(s) as u8)
    } else {
        None
    }
}

/// The value of a digit run never shrinks as the run grows to the right.
pub proof fn lemma_digits_val_take_le(s: Seq<char>, k: int)
    requires
        0 <= k <= s.len(),
    ensures
        spec_digits_val(s.take(k)) <= spec_digits_val(s),
    decreases s.len() - k,
{
    if k == s.len() {
        assert(s.take(k) =~= s);
    } else {
        assert(s.take(k + 1).drop_last() =~= s.take(k));
        assert(spec_digits_val(s.take(k + 1)) == spec_digits_val(s.take(k)) * 10
            + spec_digit_val(s.take(k + 1).last()));
        lemma_digits_val_take_le(s, k + 1);
    }
}

/// The value of a hexadecimal digit character, if it is one.
pub open spec fn spec_hex_digit(c: char) -> Option<u8> {
    let v = c as u32;
    if 48 <= v <= 57 {
        Some((v - 48) as u8)
    } else if 97 <= v <= 102 {
        Some((v - 87) as u8)
    } else if 65 <= v <= 70 {
        Some((v - 55) as u8)
    } else {
        None
    }
}

/// The byte spelled by two hexadecimal digit characters.
pub open spec fn spec_hex_byte(c1: char, c2: char) -> Option<u8> {
    match (spec_hex_digit(c1), spec_hex_digit(c2)) {
        (Some(h), Some(l)) => Some((h * 16 + l) as u8),
        _ => None,
    }
}

/// Whether every character of `s` is a hexadecimal digit.
pub open spec fn all_hex_digits(s: Seq<char>) -> bool {
    forall|i: int| 0 <= i < s.len() ==> spec_hex_digit(s[i]) is Some
}

/// The value of a run of hexadecimal digit characters, most significant first.
pub open spec fn spec_hex_val(s: Seq<char>) -> nat
    decreases s.len(),
{
    if s.len() == 0 {
        0
    } else {
        spec_hex_val(s.drop_last()) * 16 + (match spec_hex_digit(s.last()) {
            Some(d) => d as nat,
            None => 0,
        })
    }
}

/// The value of a hexadecimal run never shrinks as the run grows to the right.
pub proof fn lemma_hex_val_take_le(s: Seq<char>, k: int)
    requires
        0 <= k <= s.len(),
    ensures
        spec_hex_val(s.take(k)) <= spec_hex_val(s),
    decreases s.len() - k,
{
    if k == s.len() {
        assert(s.take(k) =~= s);
    } else {
        assert(s.take(k + 1).drop_last() =~= s.take(k));
        assert(spec_hex_val(s.take(k + 1)) == spec_hex_val(s.take(k)) * 16 + (
        match spec_hex_digit(s.take(k + 1).last()) {
            Some(d) => d as nat,
            None => 0,
        }));
        lemma_hex_val_take_le(s, k + 1);
    }
}

/// The digit character for a value below ten.
pub open spec fn spec_digit_char(d: u8) -> char
    recommends
        d < 10,
{
    if d == 0 {
        '0'
    } else if d == 1 {
        '1'
    } else if d == 2 {
        '2'
    } else if d == 3 {
        '3'
    } else if d == 4 {
        '4'
    } else if d == 5 {
        '5'
    } else if d == 6 {
        '6'
    } else if d == 7 {
        '7'
    } else if d == 8 {
        '8'
    } else {
        '9'
    }
}

/// The decimal rendering of a code, without leading zeros.
pub open spec fn spec_dec_u8(n: u8) -> Seq<char> {
    if n < 10 {
        seq![spec_digit_char(n)]
    } else if n < 100 {
        seq![spec_digit_char(n / 10), spec_digit_char(n % 10)]
    } else {
        seq![spec_digit_char(n / 100), spec_digit_char((n / 10) % 10), spec_digit_char(n % 10)]
    }
}

/// Pending codes joined by `;`, each rendered in decimal.
pub open spec fn spec_join_codes(codes: Seq<u8>) -> Seq<char>
    decreases codes.len(),
{
    if codes.len() == 0 {
        Seq::empty()
    } else if codes.len() == 1 {
        spec_dec_u8(codes[0])
    } else {
        spec_join_codes(codes.drop_last()) + seq![';'] + spec_dec_u8(codes.last())
    }
}

/// The full escape sequence for a buffer of codes: `ESC [ codes m`, or
/// nothing at all when the buffer is empty.
pub open spec fn spec_sgr_seq(codes: Seq<u8>) -> Seq<char> {
    if codes.len() == 0 {
        Seq::empty()
    } else {
        seq!['\x1b', '['] + spec_join_codes(codes) + seq!['m']
    }
}

/// The digit character for a value below ten.
pub fn digit_char(d: u8) -> (r: char)
    requires
        d < 10,
    ensures
        r == spec_digit_char(d),
{
    if d == 0 {
        '0'
    } else if d == 1 {
        '1'
    } else if d == 2 {
        '2'
    } else if d == 3 {
        '3'
    } else if d == 4 {
        '4'
    } else if d == 5 {
        '5'
    } else if d == 6 {
        '6'
    } else if d == 7 {
        '7'
    } else if d == 8 {
        '8'
    } else {
        '9'
    }
}

/// Appends the decimal rendering of `n` to `out`.
pub fn push_u8_dec(out: &mut Vec<char>, n: u8)
    ensures
        final(out)@ == old(out)@ + spec_dec_u8(n),
{
    let ghost o0 = out@;
    if n < 10 {
        out.push(digit_char(n));
        proof {
            assert(out@ =~= o0 + spec_dec_u8(n));
        }
    } else if n < 100 {
        out.push(digit_char(n / 10));
        out.push(digit_char(n % 10));
        proof {
            assert(out@ =~= o0 + spec_dec_u8(n));
        }
    } else {
        out.push(digit_char(n / 100));
        out.push(digit_char((n / 10) % 10));
        out.push(digit_char(n % 10));
        proof {
            assert(out@ =~= o0 + spec_dec_u8(n));
        }
    }
}

/// The decimal rendering of `n` as a string.
pub fn u8_string(n: u8) -> (r: String)
    ensures
        r@ == spec_dec_u8(n),
{
    let mut v: Vec<char> = Vec::new();
    push_u8_dec(&mut v, n);
    proof {
        assert(v@ =~= spec_dec_u8(n));
    }
    crate::text::string_of_chars(&v)
}

/// Appends the `;`-joined decimal renderings of `codes` to `out`.
pub fn push_codes_joined(out: &mut Vec<char>, codes: &Vec<u8>)
    ensures
        final(out)@ == old(out)@ + spec_join_codes(codes@),
{
    let ghost o0 = out@;
    if codes.len() == 0 {
        proof {
            assert(out@ =~= o0 + spec_join_codes(codes@));
        }
        return ;
    }
    push_u8_dec(out, codes[0]);
    proof {
        assert(codes@.take(1).drop_last() =~= Seq::<u8>::empty());
        assert(codes@.take(1) =~= seq![codes@[0]]);
        assert(out@ =~= o0 + spec_join_codes(codes@.take(1)));
    }
    let mut k: usize = 1;
    while k < codes.len()
        invariant
            1 <= k <= codes@.len(),
            out@ == o0 + spec_join_codes(codes@.take(k as int)),
        decreases codes@.len() - k,
    {
        out.push(';');
        push_u8_dec(out, codes[k]);
        proof {
            assert(codes@.take(k + 1).drop_last() =~= codes@.take(k as int));
            assert(codes@.take(k + 1).last() == codes@[k as int]);
            assert(spec_join_codes(codes@.take(k + 1)) == spec_join_codes(codes@.take(k as int))
                + seq![';'] + spec_dec_u8(codes@[k as int]));
            assert(out@ =~= o0 + spec_join_codes(codes@.take(k + 1)));
        }
        k += 1;
    }
    proof {
        assert(codes@.take(codes@.len() as int) =~= codes@);
    }
}

/// Appends the full escape sequence for `codes` to `out`; an empty buffer
/// appends nothing.
pub fn push_sgr_seq(out: &mut Vec<char>, codes: &Vec<u8>)
    ensures
        final(out)@ == old(out)@ + spec_sgr_seq(codes@),
{
    let ghost o0 = out@;
    if codes.len() == 0 {
        proof {
            assert(out@ =~= o0 + spec_sgr_seq(codes@));
        }
        return ;
    }
    out.push('\x1b');
    out.push('[');
    proof {
        assert(out@ =~= o0 + seq!['\x1b', '[']);
    }
    push_codes_joined(out, codes);
    out.push('m');
    proof {
        assert(out@ =~= o0 + spec_sgr_seq(codes@));
    }
}

/// Reads the decimal color component spelled by `s[a..b]`.
pub fn parse_dec_component(s: &Vec<char>, a: usize, b: usize) -> (r: Option<u8>)
    requires
        a <= b && b <= s.len(),
    ensures
        r == spec_dec_val(s@.subrange(a as int, b as int)),
{
    let ghost sub = s@.subrange(a as int, b as int);
    if a == b {
        return None;
    }
    let mut acc: u32 = 0;
    let mut i: usize = a;
    while i < b
        invariant
            a <= i <= b <= s.len(),
            sub == s@.subrange(a as int, b as int),
            acc == spec_digits_val(sub.take(i - a)),
            acc <= 255,
            forall|j: int| 0 <= j < i - a ==> is_digit(sub[j]),
        decreases b - i,
    {
        let c = s[i];
        let v = c as u32;
        if v < 48 || v > 57 {
            proof {
                assert(!is_digit(sub[i - a]));
            }
            return None;
        }
        proof {
            assert(sub.take(i - a + 1).drop_last() =~= sub.take(i - a));
            assert(sub.take(i - a + 1).last() == sub[i - a]);
            assert(spec_digits_val(sub.take(i - a + 1)) == spec_digits_val(sub.take(i - a)) * 10
                + spec_digit_val(sub[i - a]));
            assert(sub[i - a] == c);
            assert(spec_digit_val(c) == v - 48);
        }
        let d = v - 48;
        if acc > 25 || (acc == 25 && d > 5) {
            proof {
                lemma_digits_val_take_le(sub, i - a + 1);
                assert(spec_digits_val(sub.take(i - a + 1)) > 255);
            }
            return None;
        }
        acc = acc * 10 + d;
        i += 1;
    }
    proof {
        assert(sub.take(b - a) =~= sub);
        assert(sub.len() > 0);
    }
    Some(acc as u8)
}

/// Reads the two-digit hexadecimal byte spelled at `s[i]`, `s[i + 1]`.
pub fn parse_hex_byte(s: &Vec<char>, i: usize) -> (r: Option<u8>)
    requires
        i + 1 < s.len(),
    ensures
        r == spec_hex_byte(s@[i as int], s@[i + 1]),
{
    match (hex_digit(s[i]), hex_digit(s[i + 1])) {
        (Some(h), Some(l)) => Some(h * 16 + l),
        _ => None,
    }
}

/// The value of a hexadecimal digit character, if it is one.
pub fn hex_digit(c: char) -> (r: Option<u8>)
    ensures
        r == spec_hex_digit(c),
{
    let v = c as u32;
    if 48 <= v && v <= 57 {
        Some((v - 48) as u8)
    } else if 97 <= v && v <= 102 {
        Some((v - 87) as u8)
    } else if 65 <= v && v <= 70 {
        Some((v - 55) as u8)
    } else {
        None
    }
}

} // verus!
