use vstd::prelude::*;

use crate::error::CompileError;
use crate::numbers::all_hex_digits;
use crate::numbers::parse_dec_component;
use crate::numbers::parse_hex_byte;
use crate::numbers::push_sgr_seq;
use crate::numbers::spec_dec_val;
use crate::numbers::spec_hex_byte;
use crate::numbers::spec_hex_digit;
use crate::numbers::spec_hex_val;
use crate::numbers::spec_sgr_seq;
use crate::tables::parse_add_style;
use crate::tables::parse_color_simple;
use crate::tables::parse_sub_style;
use crate::tables::spec_add_style;
use crate::tables::spec_color_simple;
use crate::tables::spec_sub_style;
use crate::text::string_of_chars;
use crate::text::to_char_vec;

verus! {

// The template compiler itself: the escape resolver, the directive parser and
// the emitter, stated over sequences of characters and implemented over a
// character vector with a forward cursor.

/// Whitespace absorbed after a line-continuation escape.
pub open spec fn is_ws(c: char) -> bool {
    c == ' ' || c == '\n' || c == '\r' || c == '\t'
}

/// The characters that end one directive of a chain.
pub open spec fn is_delim(c: char) -> bool {
    c == '+' || c == '-' || c == '#' || c == '&' || c == '}'
}

/// Offset (from `from`) of the first delimiter character at or after `from`.
pub open spec fn find_delim_n(s: Seq<char>, from: int) -> Option<nat>
    decreases s.len() - from,
{
    if from < 0 || from >= s.len() {
        None
    } else if is_delim(s[from]) {
        Some(0nat)
    } else {
        match find_delim_n(s, from + 1) {
            None => None,
            Some(n) => Some(n + 1),
        }
    }
}

/// Offset (from `from`) of the first occurrence of `c` at or after `from`.
pub open spec fn find_char_n(s: Seq<char>, from: int, c: char) -> Option<nat>
    decreases s.len() - from,
{
    if from < 0 || from >= s.len() {
        None
    } else if s[from] == c {
        Some(0nat)
    } else {
        match find_char_n(s, from + 1, c) {
            None => None,
            Some(n) => Some(n + 1),
        }
    }
}

/// The length of the whitespace run starting at `from`.
pub open spec fn spec_ws_run(s: Seq<char>, from: int) -> nat
    decreases s.len() - from,
{
    if from < 0 || from >= s.len() {
        0
    } else if is_ws(s[from]) {
        1 + spec_ws_run(s, from + 1)
    } else {
        0
    }
}

pub proof fn lemma_find_delim_n_at(s: Seq<char>, from: int, d: int)
    requires
        0 <= from <= d < s.len(),
        is_delim(s[d]),
        forall|k: int| from <= k < d ==> !is_delim(s[k]),
    ensures
        find_delim_n(s, from) == Some((d - from) as nat),
    decreases d - from,
{
    if from == d {
    } else {
        lemma_find_delim_n_at(s, from + 1, d);
    }
}

pub proof fn lemma_find_delim_n_none(s: Seq<char>, from: int)
    requires
        0 <= from,
        forall|k: int| from <= k < s.len() ==> !is_delim(s[k]),
    ensures
        find_delim_n(s, from) is None,
    decreases s.len() - from,
{
    if from >= s.len() {
    } else {
        lemma_find_delim_n_none(s, from + 1);
    }
}

pub proof fn lemma_find_char_n(s: Seq<char>, from: int, c: char)
    requires
        0 <= from,
    ensures
        match find_char_n(s, from, c) {
            Some(n) => from + n < s.len() && s[from + n] == c && (forall|k: int|
                from <= k < from + n ==> s[k] != c),
            None => forall|k: int| from <= k < s.len() ==> s[k] != c,
        },
    decreases s.len() - from,
{
    if from >= s.len() {
    } else if s[from] == c {
    } else {
        lemma_find_char_n(s, from + 1, c);
    }
}

pub proof fn lemma_find_char_n_at(s: Seq<char>, from: int, d: int, c: char)
    requires
        0 <= from <= d < s.len(),
        s[d] == c,
        forall|k: int| from <= k < d ==> s[k] != c,
    ensures
        find_char_n(s, from, c) == Some((d - from) as nat),
    decreases d - from,
{
    if from == d {
    } else {
        lemma_find_char_n_at(s, from + 1, d, c);
    }
}

pub proof fn lemma_find_char_n_none(s: Seq<char>, from: int, c: char)
    requires
        0 <= from,
        forall|k: int| from <= k < s.len() ==> s[k] != c,
    ensures
        find_char_n(s, from, c) is None,
    decreases s.len() - from,
{
    if from >= s.len() {
    } else {
        lemma_find_char_n_none(s, from + 1, c);
    }
}

pub proof fn lemma_ws_run(s: Seq<char>, from: int)
    requires
        0 <= from <= s.len(),
    ensures
        from + spec_ws_run(s, from) <= s.len(),
        forall|k: int| from <= k < from + spec_ws_run(s, from) ==> is_ws(s[k]),
        from + spec_ws_run(s, from) < s.len() ==> !is_ws(s[from + spec_ws_run(s, from)]),
    decreases s.len() - from,
{
    if from >= s.len() {
    } else if is_ws(s[from]) {
        lemma_ws_run(s, from + 1);
    } else {
    }
}

/// A valid Unicode scalar value: what `\u{...}` may decode to.
pub open spec fn is_scalar_value(v: nat) -> bool {
    v < 0xD800 || (0xE000 <= v && v <= 0x10FFFF)
}

/// What a `\x..` escape at `i` (the index of the first hex digit) decodes to.
pub open spec fn spec_7bit(s: Seq<char>, i: int) -> Option<char> {
    if i + 2 <= s.len() && 0 <= i {
        match spec_hex_byte(s[i], s[i + 1]) {
            Some(v) => Some(v as char),
            None => None,
        }
    } else {
        None
    }
}

/// What a `\u{..}` escape decodes to, given the run of characters strictly
/// between the brace pair: one to six hex digits spelling a Unicode scalar
/// value.
pub open spec fn spec_unicode_char(digits: Seq<char>) -> Option<char> {
    if 0 < digits.len() <= 6 && all_hex_digits(digits) && is_scalar_value(spec_hex_val(digits)) {
        Some(spec_hex_val(digits) as char)
    } else {
        None
    }
}

/// Resolves the escape whose introducing backslash stands just before `i`:
/// yields the characters it emits and the index at which scanning resumes.
pub open spec fn spec_escape(s: Seq<char>, i: int) -> Result<(Seq<char>, int), CompileError> {
    if i < 0 || i >= s.len() {
        Err(CompileError::InvalidEscape)
    } else {
        let c = s[i];
        if c == '\'' {
            Ok((seq!['\''], i + 1))
        } else if c == '"' {
            Ok((seq!['"'], i + 1))
        } else if c == 'n' {
            Ok((seq!['\n'], i + 1))
        } else if c == 'r' {
            Ok((seq!['\r'], i + 1))
        } else if c == 't' {
            Ok((seq!['\t'], i + 1))
        } else if c == '\\' {
            Ok((seq!['\\'], i + 1))
        } else if c == '0' {
            Ok((seq!['\0'], i + 1))
        } else if c == 'x' {
            match spec_7bit(s, i + 1) {
                Some(d) => Ok((seq![d], i + 3)),
                None => Err(CompileError::InvalidEscape),
            }
        } else if c == 'u' {
            match find_char_n(s, i + 2, '}') {
                None => Err(CompileError::InvalidEscape),
                Some(n) => {
                    let digits = s.subrange(i + 2, i + 2 + n);
                    match spec_unicode_char(digits) {
                        Some(d) => Ok((seq![d], i + 2 + n + 1)),
                        None => Err(CompileError::InvalidEscape),
                    }
                },
            }
        } else if c == '\n' {
            Ok((Seq::empty(), i + 1 + spec_ws_run(s, i + 1)))
        } else {
            Err(CompileError::InvalidEscape)
        }
    }
}

/// Every successful escape resumes past the escaped character and within the
/// template.
pub proof fn lemma_spec_escape_bounds(s: Seq<char>, i: int)
    requires
        0 <= i,
    ensures
        spec_escape(s, i) matches Ok(p) ==> i + 1 <= p.1 <= s.len(),
{
    if 0 <= i < s.len() {
        let c = s[i];
        if c == 'u' {
            lemma_find_char_n(s, i + 2, '}');
        } else if c == '\n' {
            lemma_ws_run(s, i + 1);
        }
    }
}

/// One step of a directive chain: `i` is the index of the directive symbol
/// (`+`, `-`, `#` or `&`), `buf` the codes accumulated so far. Yields the
/// emitted text and the number of characters consumed from `i` on, the last
/// of them the closing `}` of the group.
pub open spec fn spec_chain(s: Seq<char>, i: int, buf: Seq<u8>) -> Result<
    (Seq<char>, nat),
    CompileError,
>
    decreases s.len() - i, 0int,
{
    match find_delim_n(s, i + 1) {
        None => Err(CompileError::MissingCloseBracket),
        Some(n) => {
            let d = i + 1 + n;
            if d >= s.len() {
                Err(CompileError::MissingCloseBracket)
            } else {
                let seg = s.subrange(i + 1, d);
                let sym = s[i];
                if sym == '+' {
                    match spec_add_style(seg) {
                        None => Err(CompileError::InvalidKeyword),
                        Some(code) => spec_chain_step(s, d, buf.push(code), Seq::empty(), n),
                    }
                } else if sym == '-' {
                    match spec_sub_style(seg) {
                        None => Err(CompileError::InvalidKeyword),
                        Some(code) => spec_chain_step(s, d, buf.push(code), Seq::empty(), n),
                    }
                } else if sym == '#' {
                    match spec_color_codes(seg) {
                        None => Err(CompileError::InvalidColor),
                        Some(cs) => spec_chain_step(s, d, buf + cs, Seq::empty(), n),
                    }
                } else {
                    // '&': a passthrough fragment splits the escape sequence:
                    // flush the pending codes, emit the fragment in its own
                    // braces, and start a fresh buffer.
                    spec_chain_step(
                        s,
                        d,
                        Seq::empty(),
                        spec_sgr_seq(buf) + seq!['{'] + seg + seq!['}'],
                        n,
                    )
                }
            }
        },
    }
}

/// Closes the chain at `d` if the delimiter there is `}`, flushing the
/// buffer; otherwise continues the chain at `d`. `emitted` is the text the
/// step just produced, `n` the offset of `d` from the previous symbol.
pub open spec fn spec_chain_step(
    s: Seq<char>,
    d: int,
    buf: Seq<u8>,
    emitted: Seq<char>,
    n: nat,
) -> Result<(Seq<char>, nat), CompileError>
    decreases s.len() - d, 1int,
{
    if s[d] == '}' {
        Ok((emitted + spec_sgr_seq(buf), n + 2))
    } else {
        match spec_chain(s, d, buf) {
            Err(e) => Err(e),
            Ok((frag, c)) => Ok((emitted + frag, n + 1 + c)),
        }
    }
}

/// Parses one brace group; `i` is the index just after the opening `{`.
/// Yields the emitted text and the number of characters consumed from `i`.
pub open spec fn spec_param(s: Seq<char>, i: int) -> Result<(Seq<char>, nat), CompileError> {
    if i >= s.len() {
        // An opening brace at the very end of the template passes through.
        Ok((seq!['{'], 0nat))
    } else if s[i] == '{' {
        Ok((seq!['{'], 1nat))
    } else if s[i] == '}' {
        Ok((seq!['{', '}'], 1nat))
    } else if s[i] == '+' || s[i] == '-' || s[i] == '#' {
        spec_chain(s, i, Seq::empty())
    } else {
        // A leading name: reserved and re-emitted as a trailing placeholder
        // if style directives follow, passed through verbatim otherwise.
        match find_delim_n(s, i + 1) {
            None => Ok((seq!['{'] + s.subrange(i, s.len() as int), (s.len() - i) as nat)),
            Some(n) => {
                let d = i + 1 + n;
                if s[d] == '}' {
                    Ok((seq!['{'] + s.subrange(i, d) + seq!['}'], (d + 1 - i) as nat))
                } else {
                    match spec_chain(s, d, Seq::empty()) {
                        Err(e) => Err(e),
                        Ok((frag, c)) => Ok(
                            (
                                frag + seq!['{'] + s.subrange(i, d) + seq!['}'],
                                ((d - i) + c) as nat,
                            ),
                        ),
                    }
                }
            },
        }
    }
}

/// The numeric color forms of a `#` directive: a named color, or an `f`/`b`
/// prefix with a parenthesised decimal payload or a bracketed hex payload.
pub open spec fn spec_color_codes(seg: Seq<char>) -> Option<Seq<u8>> {
    match spec_color_simple(seg) {
        Some(c) => Some(seq![c]),
        None => {
            if seg.len() < 3 {
                None
            } else if seg[0] != 'f' && seg[0] != 'b' {
                None
            } else {
                let prefix: u8 = if seg[0] == 'f' {
                    38
                } else {
                    48
                };
                let left = seg[1];
                let right = seg[seg.len() - 1];
                let inner = seg.subrange(2, seg.len() - 1);
                if left == '(' && right == ')' {
                    match spec_dec_payload(inner) {
                        Some(cs) => Some(seq![prefix] + cs),
                        None => None,
                    }
                } else if left == '[' && right == ']' {
                    match spec_hex_payload(inner) {
                        Some(cs) => Some(seq![prefix] + cs),
                        None => None,
                    }
                } else {
                    None
                }
            }
        },
    }
}

/// A comma-separated decimal payload: one component is an indexed color,
/// three components are a truecolor triple.
pub open spec fn spec_dec_payload(inner: Seq<char>) -> Option<Seq<u8>> {
    match find_char_n(inner, 0, ',') {
        None => match spec_dec_val(inner) {
            Some(v) => Some(seq![5u8, v]),
            None => None,
        },
        Some(p1) => match find_char_n(inner, p1 as int + 1, ',') {
            None => None,
            Some(n2) => {
                let p2 = p1 as int + 1 + n2;
                match find_char_n(inner, p2 + 1, ',') {
                    Some(_) => None,
                    None => {
                        let r = spec_dec_val(inner.subrange(0, p1 as int));
                        let g = spec_dec_val(inner.subrange(p1 as int + 1, p2));
                        let b = spec_dec_val(inner.subrange(p2 + 1, inner.len() as int));
                        match (r, g, b) {
                            (Some(rv), Some(gv), Some(bv)) => Some(seq![2u8, rv, gv, bv]),
                            _ => None,
                        }
                    },
                }
            },
        },
    }
}

/// A bracketed hex payload: two digits are an indexed color, six digits a
/// truecolor triple.
pub open spec fn spec_hex_payload(inner: Seq<char>) -> Option<Seq<u8>> {
    if inner.len() == 2 {
        match spec_hex_byte(inner[0], inner[1]) {
            Some(v) => Some(seq![5u8, v]),
            None => None,
        }
    } else if inner.len() == 6 {
        match (spec_hex_byte(inner[0], inner[1]), spec_hex_byte(inner[2], inner[3]), spec_hex_byte(
            inner[4],
            inner[5],
        )) {
            (Some(rv), Some(gv), Some(bv)) => Some(seq![2u8, rv, gv, bv]),
            _ => None,
        }
    } else {
        None
    }
}

/// The compilation of the template from index `i` on. When `escapes` is
/// false (a raw literal) backslashes are ordinary characters; directive
/// parsing happens either way.
pub open spec fn spec_compile_from(s: Seq<char>, i: int, escapes: bool) -> Result<
    Seq<char>,
    CompileError,
>
    decreases s.len() - i,
{
    if i < 0 || i >= s.len() {
        Ok(Seq::empty())
    } else {
        let c = s[i];
        if c == '\\' && escapes {
            match spec_escape(s, i + 1) {
                Err(e) => Err(e),
                Ok((frag, j)) => {
                    proof {
                        lemma_spec_escape_bounds(s, i + 1);
                    }
                    if j >= s.len() {
                        Ok(frag)
                    } else {
                        match spec_compile_from(s, j, escapes) {
                            Ok(rest) => Ok(frag + rest),
                            Err(e) => Err(e),
                        }
                    }
                },
            }
        } else if c == '{' {
            match spec_param(s, i + 1) {
                Err(e) => Err(e),
                Ok((frag, n)) => {
                    let j = i + 1 + n;
                    if j >= s.len() {
                        Ok(frag)
                    } else {
                        match spec_compile_from(s, j, escapes) {
                            Ok(rest) => Ok(frag + rest),
                            Err(e) => Err(e),
                        }
                    }
                },
            }
        } else if c == '}' {
            // A doubled `}}` collapses; a lone `}` is tolerated as literal
            // text and left for the host to judge.
            let j = if i + 1 < s.len() && s[i + 1] == '}' {
                i + 2
            } else {
                i + 1
            };
            match spec_compile_from(s, j, escapes) {
                Ok(rest) => Ok(seq!['}'] + rest),
                Err(e) => Err(e),
            }
        } else {
            match spec_compile_from(s, i + 1, escapes) {
                Ok(rest) => Ok(seq![c] + rest),
                Err(e) => Err(e),
            }
        }
    }
}

/// The compilation of a whole template.
pub open spec fn spec_compile(s: Seq<char>, escapes: bool) -> Result<Seq<char>, CompileError> {
    spec_compile_from(s, 0, escapes)
}

/// Prefixes `p` to the text of a successful compilation tail.
pub open spec fn spec_prepend(p: Seq<char>, r: Result<Seq<char>, CompileError>) -> Result<
    Seq<char>,
    CompileError,
> {
    match r {
        Ok(t) => Ok(p + t),
        Err(e) => Err(e),
    }
}

pub proof fn lemma_prepend_empty(r: Result<Seq<char>, CompileError>)
    ensures
        spec_prepend(Seq::empty(), r) == r,
{
    match r {
        Ok(t) => {
            assert(Seq::empty() + t =~= t);
        },
        Err(_) => {},
    }
}

pub proof fn lemma_prepend_assoc(p: Seq<char>, q: Seq<char>, r: Result<Seq<char>, CompileError>)
    ensures
        spec_prepend(p, spec_prepend(q, r)) == spec_prepend(p + q, r),
{
    match r {
        Ok(t) => {
            assert(p + (q + t) =~= (p + q) + t);
        },
        Err(_) => {},
    }
}

/// Index of the first delimiter character at or after `from`, if any.
pub fn find_delim(s: &Vec<char>, from: usize) -> (r: Option<usize>)
    requires
        from <= s.len(),
    ensures
        match r {
            Some(d) => from <= d < s.len() && find_delim_n(s@, from as int) == Some(
                (d - from) as nat,
            ),
            None => find_delim_n(s@, from as int) is None,
        },
{
    let mut j = from;
    while j < s.len()
        invariant
            from <= j <= s.len(),
            forall|k: int| from <= k < j ==> !is_delim(s@[k]),
        decreases s.len() - j,
    {
        let c = s[j];
        if c == '+' || c == '-' || c == '#' || c == '&' || c == '}' {
            proof {
                lemma_find_delim_n_at(s@, from as int, j as int);
            }
            return Some(j);
        }
        proof {
            assert(!is_delim(s@[j as int]));
        }
        j += 1;
    }
    proof {
        lemma_find_delim_n_none(s@, from as int);
    }
    None
}

/// Index of the first occurrence of `c` in `s[from..hi)`, reported against
/// the window `s[lo..hi)` that the specification functions see.
pub fn find_char_range(s: &Vec<char>, lo: usize, hi: usize, from: usize, c: char) -> (r: Option<
    usize,
>)
    requires
        lo <= from <= hi <= s.len(),
    ensures
        ({
            let inner = s@.subrange(lo as int, hi as int);
            match r {
                Some(d) => from <= d < hi && find_char_n(inner, from - lo, c) == Some(
                    (d - from) as nat,
                ),
                None => find_char_n(inner, from - lo, c) is None,
            }
        }),
{
    let ghost inner = s@.subrange(lo as int, hi as int);
    let mut j = from;
    while j < hi
        invariant
            lo <= from <= j <= hi <= s.len(),
            inner == s@.subrange(lo as int, hi as int),
            forall|k: int| from - lo <= k < j - lo ==> inner[k] != c,
        decreases hi - j,
    {
        if s[j] == c {
            proof {
                assert(inner[j - lo] == c);
                lemma_find_char_n_at(inner, from - lo, j - lo, c);
            }
            return Some(j);
        }
        proof {
            assert(inner[j - lo] != c);
        }
        j += 1;
    }
    proof {
        lemma_find_char_n_none(inner, from - lo, c);
    }
    None
}

/// Index of the first non-whitespace character at or after `from`.
pub fn skip_ws(s: &Vec<char>, from: usize) -> (r: usize)
    requires
        from <= s.len(),
    ensures
        r as int == from + spec_ws_run(s@, from as int),
        r <= s.len(),
{
    let mut j = from;
    while j < s.len() && (s[j] == ' ' || s[j] == '\n' || s[j] == '\r' || s[j] == '\t')
        invariant
            from <= j <= s.len(),
            spec_ws_run(s@, from as int) == (j - from) + spec_ws_run(s@, j as int),
        decreases s.len() - j,
    {
        proof {
            assert(is_ws(s@[j as int]));
            assert(spec_ws_run(s@, j as int) == 1 + spec_ws_run(s@, j + 1));
        }
        j += 1;
    }
    j
}

/// Appends the characters of `s[a..b]` to `out`.
pub fn push_range(out: &mut Vec<char>, s: &Vec<char>, a: usize, b: usize)
    requires
        a <= b <= s.len(),
    ensures
        final(out)@ == old(out)@ + s@.subrange(a as int, b as int),
{
    let ghost o0 = out@;
    let mut k = a;
    while k < b
        invariant
            a <= k <= b <= s.len(),
            out@ == o0 + s@.subrange(a as int, k as int),
        decreases b - k,
    {
        out.push(s[k]);
        proof {
            assert(out@ =~= o0 + s@.subrange(a as int, k + 1));
        }
        k += 1;
    }
}

/// Decodes the two-hex-digit escape whose first digit stands at `i`.
pub fn parse_7bit(s: &Vec<char>, i: usize) -> (r: Option<char>)
    requires
        i <= s.len(),
    ensures
        r == spec_7bit(s@, i as int),
{
    if s.len() < 2 || i > s.len() - 2 {
        return None;
    }
    match crate::numbers::parse_hex_byte(s, i) {
        Some(v) => {
            let r = crate::text::char_from_u32(v as u32);
            proof {
                assert((v as u32) < 0xD800);
                assert(r is Some);
                assert(r->Some_0 == (v as u32) as char);
                assert((v as u32) as char == v as char);
            }
            r
        },
        None => None,
    }
}

/// Decodes the `\u{..}` escape whose `u` stands at `i`: yields the decoded
/// character and the index just after the closing `}`.
pub fn parse_24bit(s: &Vec<char>, i: usize) -> (r: Option<(char, usize)>)
    requires
        i <= s.len(),
    ensures
        ({
            match find_char_n(s@, i + 2, '}') {
                None => r is None,
                Some(n) => {
                    let digits = s@.subrange(i + 2, i + 2 + n);
                    match spec_unicode_char(digits) {
                        Some(d) => r == Some((d, (i + 2 + n + 1) as usize)) && i + 2 + n + 1
                            <= s.len(),
                        None => r is None,
                    }
                },
            }
        }),
{
    if s.len() < 2 || i > s.len() - 2 {
        proof {
            assert(find_char_n(s@, i + 2, '}') is None);
        }
        return None;
    }
    let close = match find_char_range(s, i + 2, s.len(), i + 2, '}') {
        None => {
            proof {
                assert(s@.subrange(i + 2, s.len() as int) =~= s@.skip(i + 2));
                lemma_subrange_find_char(s@, i + 2);
            }
            return None;
        },
        Some(d) => d,
    };
    proof {
        lemma_subrange_find_char(s@, i + 2);
    }
    let ghost n = (close - (i + 2)) as nat;
    let ghost digits = s@.subrange(i + 2, i + 2 + n);
    if close == i + 2 {
        // no digits between the braces
        proof {
            assert(digits.len() == 0);
            assert(spec_unicode_char(digits) is None);
        }
        return None;
    }
    if close - (i + 2) > 6 {
        // more digits than the escape grammar allows
        proof {
            assert(digits.len() > 6);
            assert(spec_unicode_char(digits) is None);
        }
        return None;
    }
    let mut acc: u32 = 0;
    let mut big = false;
    let mut k = i + 2;
    while k < close
        invariant
            i + 2 <= k <= close < s.len(),
            digits == s@.subrange(i + 2, close as int),
            n == close - (i + 2),
            find_char_n(s@, i + 2, '}') == Some(n),
            !big ==> acc == spec_hex_val(digits.take(k - (i + 2))) && acc <= 0x10FFFF,
            big ==> spec_hex_val(digits.take(k - (i + 2))) > 0x10FFFF,
            forall|j: int| 0 <= j < k - (i + 2) ==> spec_hex_digit(digits[j]) is Some,
        decreases close - k,
    {
        let c = s[k];
        let d = match crate::numbers::hex_digit(c) {
            Some(d) => d,
            None => {
                proof {
                    assert(digits[k - (i + 2)] == c);
                    assert(!all_hex_digits(digits));
                    assert(spec_unicode_char(digits) is None);
                }
                return None;
            },
        };
        proof {
            let t = (k - (i + 2)) as int;
            assert(digits.take(t + 1).drop_last() =~= digits.take(t));
            assert(digits.take(t + 1).last() == digits[t]);
            assert(digits[t] == c);
            assert(spec_hex_val(digits.take(t + 1)) == spec_hex_val(digits.take(t)) * 16
                + d as nat);
        }
        if big || acc > 0x10FFFF / 16 || acc * 16 > 0x10FFFF - (d as u32) {
            proof {
                if !big {
                    assert(spec_hex_val(digits.take(k - (i + 2) + 1)) > 0x10FFFF);
                }
            }
            big = true;
            acc = 0;
        } else {
            acc = acc * 16 + (d as u32);
        }
        k += 1;
    }
    proof {
        assert(digits.take(n as int) =~= digits);
    }
    if big {
        proof {
            assert(spec_hex_val(digits) > 0x10FFFF);
            assert(!is_scalar_value(spec_hex_val(digits)));
        }
        return None;
    }
    let ghost v = spec_hex_val(digits);
    match crate::text::char_from_u32(acc) {
        Some(ch) => {
            proof {
                assert(acc as nat == v);
                assert(is_scalar_value(v));
                assert(ch == (acc as char));
                assert(ch == (v as char));
                assert(spec_unicode_char(digits) == Some((v as char)));
            }
            Some((ch, close + 1))
        },
        None => {
            proof {
                assert(acc as nat == v);
                assert(!is_scalar_value(v));
                assert(spec_unicode_char(digits) is None);
            }
            None
        },
    }
}

/// Searching a suffix window for `}` is the same as searching the sequence.
pub proof fn lemma_subrange_find_char(s: Seq<char>, from: int)
    requires
        0 <= from <= s.len(),
    ensures
        find_char_n(s.subrange(from, s.len() as int), 0, '}') == find_char_n(s, from, '}'),
    decreases s.len() - from,
{
    let sub = s.subrange(from, s.len() as int);
    lemma_find_char_n(s, from, '}');
    lemma_find_char_n(sub, 0, '}');
    match find_char_n(s, from, '}') {
        Some(n) => {
            assert(sub[n as int] == '}');
            assert(forall|k: int| 0 <= k < n ==> sub[k] != '}');
            lemma_find_char_n_at(sub, 0, n as int, '}');
        },
        None => {
            assert(forall|k: int| 0 <= k < sub.len() ==> sub[k] != '}');
            lemma_find_char_n_none(sub, 0, '}');
        },
    }
}

/// Resolves one escape; `i` is the index of the character after the
/// backslash. Appends the resolved text to `out` and returns the index at
/// which scanning resumes.
pub fn parse_escape(s: &Vec<char>, i: usize, out: &mut Vec<char>) -> (r: Result<
    usize,
    CompileError,
>)
    requires
        i <= s.len(),
    ensures
        match spec_escape(s@, i as int) {
            Ok(p) => r is Ok && r->Ok_0 as int == p.1 && r->Ok_0 <= s.len() && final(out)@ == old(
                out,
            )@ + p.0,
            Err(e) => r == Err::<usize, CompileError>(e),
        },
{
    let ghost o0 = out@;
    if i == s.len() {
        return Err(CompileError::InvalidEscape);
    }
    let c = s[i];
    if c == '\'' {
        out.push('\'');
        proof {
            assert(out@ =~= o0 + seq!['\'']);
        }
        Ok(i + 1)
    } else if c == '"' {
        out.push('"');
        proof {
            assert(out@ =~= o0 + seq!['"']);
        }
        Ok(i + 1)
    } else if c == 'n' {
        out.push('\n');
        proof {
            assert(out@ =~= o0 + seq!['\n']);
        }
        Ok(i + 1)
    } else if c == 'r' {
        out.push('\r');
        proof {
            assert(out@ =~= o0 + seq!['\r']);
        }
        Ok(i + 1)
    } else if c == 't' {
        out.push('\t');
        proof {
            assert(out@ =~= o0 + seq!['\t']);
        }
        Ok(i + 1)
    } else if c == '\\' {
        out.push('\\');
        proof {
            assert(out@ =~= o0 + seq!['\\']);
        }
        Ok(i + 1)
    } else if c == '0' {
        out.push('\0');
        proof {
            assert(out@ =~= o0 + seq!['\0']);
        }
        Ok(i + 1)
    } else if c == 'x' {
        match parse_7bit(s, i + 1) {
            Some(d) => {
                out.push(d);
                proof {
                    assert(out@ =~= o0 + seq![d]);
                }
                Ok(i + 3)
            },
            None => Err(CompileError::InvalidEscape),
        }
    } else if c == 'u' {
        match parse_24bit(s, i) {
            Some((d, j)) => {
                out.push(d);
                proof {
                    assert(out@ =~= o0 + seq![d]);
                }
                Ok(j)
            },
            None => Err(CompileError::InvalidEscape),
        }
    } else if c == '\n' {
        let j = skip_ws(s, i + 1);
        proof {
            assert(out@ =~= o0 + Seq::<char>::empty());
        }
        Ok(j)
    } else {
        Err(CompileError::InvalidEscape)
    }
}

/// Resolves one `+`/`-`/`#` directive segment `s[a..b]` into codes appended
/// to `buf`.
pub fn parse_sgr(sym: char, s: &Vec<char>, a: usize, b: usize, buf: &mut Vec<u8>) -> (r: Result<
    (),
    CompileError,
>)
    requires
        a <= b <= s.len(),
        sym == '+' || sym == '-' || sym == '#',
    ensures
        ({
            let seg = s@.subrange(a as int, b as int);
            if sym == '+' {
                match spec_add_style(seg) {
                    Some(code) => r is Ok && final(buf)@ == old(buf)@.push(code),
                    None => r == Err::<(), CompileError>(CompileError::InvalidKeyword)
                        && final(buf)@ == old(buf)@,
                }
            } else if sym == '-' {
                match spec_sub_style(seg) {
                    Some(code) => r is Ok && final(buf)@ == old(buf)@.push(code),
                    None => r == Err::<(), CompileError>(CompileError::InvalidKeyword)
                        && final(buf)@ == old(buf)@,
                }
            } else {
                match spec_color_codes(seg) {
                    Some(cs) => r is Ok && final(buf)@ == old(buf)@ + cs,
                    None => r == Err::<(), CompileError>(CompileError::InvalidColor)
                        && final(buf)@ == old(buf)@,
                }
            }
        }),
{
    if sym == '+' {
        match parse_add_style(s, a, b) {
            Some(code) => {
                buf.push(code);
                Ok(())
            },
            None => Err(CompileError::InvalidKeyword),
        }
    } else if sym == '-' {
        match parse_sub_style(s, a, b) {
            Some(code) => {
                buf.push(code);
                Ok(())
            },
            None => Err(CompileError::InvalidKeyword),
        }
    } else {
        if parse_color(s, a, b, buf) {
            Ok(())
        } else {
            Err(CompileError::InvalidColor)
        }
    }
}

/// Appends the codes of `cs` to `buf`.
pub fn append_codes(buf: &mut Vec<u8>, cs: &Vec<u8>)
    ensures
        final(buf)@ == old(buf)@ + cs@,
{
    let ghost b0 = buf@;
    let mut k: usize = 0;
    while k < cs.len()
        invariant
            k <= cs.len(),
            buf@ == b0 + cs@.subrange(0, k as int),
        decreases cs.len() - k,
    {
        buf.push(cs[k]);
        proof {
            assert(buf@ =~= b0 + cs@.subrange(0, k + 1));
        }
        k += 1;
    }
    proof {
        assert(cs@.subrange(0, cs.len() as int) =~= cs@);
    }
}

/// Decodes the decimal payload `s[lo..hi]` (the text between the
/// parentheses of an `f(..)`/`b(..)` color form).
pub fn parse_dec_payload(s: &Vec<char>, lo: usize, hi: usize) -> (r: Option<Vec<u8>>)
    requires
        lo <= hi <= s.len(),
    ensures
        ({
            let inner = s@.subrange(lo as int, hi as int);
            match spec_dec_payload(inner) {
                Some(cs) => r is Some && r->Some_0@ == cs,
                None => r is None,
            }
        }),
{
    let ghost inner = s@.subrange(lo as int, hi as int);
    match find_char_range(s, lo, hi, lo, ',') {
        None => {
            match parse_dec_component(s, lo, hi) {
                Some(v) => {
                    let mut cs: Vec<u8> = Vec::new();
                    cs.push(5);
                    cs.push(v);
                    proof {
                        assert(cs@ =~= seq![5u8, v]);
                    }
                    Some(cs)
                },
                None => None,
            }
        },
        Some(p1) => {
            match find_char_range(s, lo, hi, p1 + 1, ',') {
                None => None,
                Some(p2) => {
                    match find_char_range(s, lo, hi, p2 + 1, ',') {
                        Some(_) => None,
                        None => {
                            proof {
                                assert(inner.subrange(0, p1 - lo) =~= s@.subrange(
                                    lo as int,
                                    p1 as int,
                                ));
                                assert(inner.subrange(p1 - lo + 1, p2 - lo) =~= s@.subrange(
                                    p1 + 1,
                                    p2 as int,
                                ));
                                assert(inner.subrange(p2 - lo + 1, inner.len() as int)
                                    =~= s@.subrange(p2 + 1, hi as int));
                            }
                            let rv = match parse_dec_component(s, lo, p1) {
                                Some(v) => v,
                                None => {
                                    return None;
                                },
                            };
                            let gv = match parse_dec_component(s, p1 + 1, p2) {
                                Some(v) => v,
                                None => {
                                    return None;
                                },
                            };
                            let bv = match parse_dec_component(s, p2 + 1, hi) {
                                Some(v) => v,
                                None => {
                                    return None;
                                },
                            };
                            let mut cs: Vec<u8> = Vec::new();
                            cs.push(2);
                            cs.push(rv);
                            cs.push(gv);
                            cs.push(bv);
                            proof {
                                assert(cs@ =~= seq![2u8, rv, gv, bv]);
                            }
                            Some(cs)
                        },
                    }
                },
            }
        },
    }
}

/// Decodes the hexadecimal payload `s[lo..hi]` (the text between the
/// brackets of an `f[..]`/`b[..]` color form).
pub fn parse_hex_payload(s: &Vec<char>, lo: usize, hi: usize) -> (r: Option<Vec<u8>>)
    requires
        lo <= hi <= s.len(),
    ensures
        ({
            let inner = s@.subrange(lo as int, hi as int);
            match spec_hex_payload(inner) {
                Some(cs) => r is Some && r->Some_0@ == cs,
                None => r is None,
            }
        }),
{
    let ghost inner = s@.subrange(lo as int, hi as int);
    let len = hi - lo;
    if len == 2 {
        proof {
            assert(inner[0] == s@[lo as int]);
            assert(inner[1] == s@[lo + 1]);
        }
        match parse_hex_byte(s, lo) {
            Some(v) => {
                let mut cs: Vec<u8> = Vec::new();
                cs.push(5);
                cs.push(v);
                proof {
                    assert(cs@ =~= seq![5u8, v]);
                }
                Some(cs)
            },
            None => None,
        }
    } else if len == 6 {
        proof {
            assert(inner[0] == s@[lo as int]);
            assert(inner[1] == s@[lo + 1]);
            assert(inner[2] == s@[lo + 2]);
            assert(inner[3] == s@[lo + 3]);
            assert(inner[4] == s@[lo + 4]);
            assert(inner[5] == s@[lo + 5]);
        }
        let rv = match parse_hex_byte(s, lo) {
            Some(v) => v,
            None => {
                return None;
            },
        };
        let gv = match parse_hex_byte(s, lo + 2) {
            Some(v) => v,
            None => {
                return None;
            },
        };
        let bv = match parse_hex_byte(s, lo + 4) {
            Some(v) => v,
            None => {
                return None;
            },
        };
        let mut cs: Vec<u8> = Vec::new();
        cs.push(2);
        cs.push(rv);
        cs.push(gv);
        cs.push(bv);
        proof {
            assert(cs@ =~= seq![2u8, rv, gv, bv]);
        }
        Some(cs)
    } else {
        None
    }
}

/// Resolves a `#` color segment `s[a..b]`: appends its codes to `buf` and
/// reports whether the segment was a valid color.
pub fn parse_color(s: &Vec<char>, a: usize, b: usize, buf: &mut Vec<u8>) -> (r: bool)
    requires
        a <= b <= s.len(),
    ensures
        ({
            let seg = s@.subrange(a as int, b as int);
            match spec_color_codes(seg) {
                Some(cs) => r && final(buf)@ == old(buf)@ + cs,
                None => !r && final(buf)@ == old(buf)@,
            }
        }),
{
    let ghost seg = s@.subrange(a as int, b as int);
    let ghost b0 = buf@;
    match parse_color_simple(s, a, b) {
        Some(c) => {
            buf.push(c);
            proof {
                assert(buf@ =~= b0 + seq![c]);
            }
            return true;
        },
        None => {},
    }
    if b - a < 3 {
        return false;
    }
    let c0 = s[a];
    proof {
        assert(seg[0] == c0);
    }
    if c0 != 'f' && c0 != 'b' {
        return false;
    }
    let prefix: u8 = if c0 == 'f' {
        38
    } else {
        48
    };
    let left = s[a + 1];
    let right = s[b - 1];
    let ghost inner = seg.subrange(2, seg.len() - 1);
    proof {
        assert(inner =~= s@.subrange(a + 2, b - 1));
        assert(seg[1] == left);
        assert(seg[seg.len() - 1] == right);
    }
    if left == '(' && right == ')' {
        match parse_dec_payload(s, a + 2, b - 1) {
            Some(cs) => {
                buf.push(prefix);
                append_codes(buf, &cs);
                proof {
                    assert(buf@ =~= b0 + (seq![prefix] + cs@));
                }
                true
            },
            None => false,
        }
    } else if left == '[' && right == ']' {
        match parse_hex_payload(s, a + 2, b - 1) {
            Some(cs) => {
                buf.push(prefix);
                append_codes(buf, &cs);
                proof {
                    assert(buf@ =~= b0 + (seq![prefix] + cs@));
                }
                true
            },
            None => false,
        }
    } else {
        false
    }
}


/// Parses a directive chain whose first symbol stands at `i0`, appending the
/// emitted text to `out` and returning the index just after the group's
/// closing brace.
#[verifier::rlimit(100)]
pub fn parse_chain(s: &Vec<char>, i0: usize, out: &mut Vec<char>) -> (r: Result<
    usize,
    CompileError,
>)
    requires
        i0 < s.len(),
    ensures
        match spec_chain(s@, i0 as int, Seq::empty()) {
            Ok(p) => r is Ok && r->Ok_0 as int == i0 + p.1 && r->Ok_0 <= s.len() && final(out)@
                == old(out)@ + p.0,
            Err(e) => r == Err::<usize, CompileError>(e),
        },
{
    let ghost o0 = out@;
    let ghost target = spec_chain(s@, i0 as int, Seq::<u8>::empty());
    let mut buf: Vec<u8> = Vec::new();
    let mut cur = i0;
    let ghost mut emitted: Seq<char> = Seq::empty();
    proof {
        match spec_chain(s@, cur as int, buf@) {
            Ok(p) => {
                assert(emitted + p.0 =~= p.0);
            },
            Err(_) => {},
        }
    }
    loop
        invariant
            i0 <= cur < s.len(),
            o0 == old(out)@,
            out@ == o0 + emitted,
            target == spec_chain(s@, i0 as int, Seq::<u8>::empty()),
            ({
                match spec_chain(s@, cur as int, buf@) {
                    Ok(p) => target is Ok && target->Ok_0.0 == emitted + p.0 && target->Ok_0.1
                        == (cur - i0) + p.1,
                    Err(e) => target == Err::<(Seq<char>, nat), CompileError>(e),
                }
            }),
        decreases s.len() - cur,
    {
        let ghost bufpre = buf@;
        let ghost empre = emitted;
        let d = match find_delim(s, cur + 1) {
            None => {
                proof {
                    assert(spec_chain(s@, cur as int, buf@) == Err::<
                        (Seq<char>, nat),
                        CompileError,
                    >(CompileError::MissingCloseBracket));
                }
                return Err(CompileError::MissingCloseBracket);
            },
            Some(d) => d,
        };
        let ghost n = (d - (cur + 1)) as nat;
        let ghost seg = s@.subrange(cur as int + 1, d as int);
        let ghost mut step: Seq<char> = Seq::empty();
        let sym = s[cur];
        if sym == '+' || sym == '-' || sym == '#' {
            match parse_sgr(sym, s, cur + 1, d, &mut buf) {
                Ok(()) => {},
                Err(e) => {
                    proof {
                        assert(spec_chain(s@, cur as int, bufpre) == Err::<
                            (Seq<char>, nat),
                            CompileError,
                        >(e));
                    }
                    return Err(e);
                },
            }
        } else {
            // a `&` passthrough fragment: flush the pending codes, emit the
            // fragment in its own braces, and start a fresh buffer
            push_sgr_seq(out, &buf);
            buf.clear();
            out.push('{');
            push_range(out, s, cur + 1, d);
            out.push('}');
            proof {
                step = spec_sgr_seq(bufpre) + seq!['{'] + seg + seq!['}'];
                assert(out@ =~= o0 + (empre + step));
            }
        }
        proof {
            emitted = empre + step;
            assert(out@ =~= o0 + emitted);
            assert(spec_chain(s@, cur as int, bufpre) == spec_chain_step(
                s@,
                d as int,
                buf@,
                step,
                n,
            ));
        }
        if s[d] == '}' {
            push_sgr_seq(out, &buf);
            proof {
                assert(spec_chain_step(s@, d as int, buf@, step, n) == Ok::<
                    (Seq<char>, nat),
                    CompileError,
                >((step + spec_sgr_seq(buf@), (n + 2) as nat)));
                let p = spec_chain(s@, cur as int, bufpre)->Ok_0;
                assert(p.0 == step + spec_sgr_seq(buf@));
                assert(p.1 == n + 2);
                assert(target->Ok_0.0 == empre + p.0);
                assert(target->Ok_0.1 == (cur - i0) + p.1);
                assert(i0 + target->Ok_0.1 == d + 1);
                assert(out@ =~= o0 + (empre + (step + spec_sgr_seq(buf@))));
            }
            return Ok(d + 1);
        }
        proof {
            match spec_chain(s@, d as int, buf@) {
                Ok(p2) => {
                    assert(empre + (step + p2.0) =~= emitted + p2.0);
                },
                Err(_) => {},
            }
        }
        cur = d;
    }
}

/// Parses one brace group; `i` is the index just after the opening `{`.
/// Appends the emitted text to `out` and returns the index at which scanning
/// resumes.
pub fn parse_param(s: &Vec<char>, i: usize, out: &mut Vec<char>) -> (r: Result<
    usize,
    CompileError,
>)
    requires
        i <= s.len(),
    ensures
        match spec_param(s@, i as int) {
            Ok(p) => r is Ok && r->Ok_0 as int == i + p.1 && r->Ok_0 <= s.len() && final(out)@
                == old(out)@ + p.0,
            Err(e) => r == Err::<usize, CompileError>(e),
        },
{
    let ghost o0 = out@;
    if i == s.len() {
        out.push('{');
        proof {
            assert(out@ =~= o0 + seq!['{']);
        }
        return Ok(i);
    }
    let c = s[i];
    if c == '{' {
        out.push('{');
        proof {
            assert(out@ =~= o0 + seq!['{']);
        }
        return Ok(i + 1);
    }
    if c == '}' {
        out.push('{');
        out.push('}');
        proof {
            assert(out@ =~= o0 + seq!['{', '}']);
        }
        return Ok(i + 1);
    }
    if c == '+' || c == '-' || c == '#' {
        let res = parse_chain(s, i, out);
        proof {
            assert(spec_param(s@, i as int) == spec_chain(s@, i as int, Seq::<u8>::empty()));
        }
        return res;
    }
    match find_delim(s, i + 1) {
        None => {
            out.push('{');
            push_range(out, s, i, s.len());
            proof {
                assert(out@ =~= o0 + (seq!['{'] + s@.subrange(i as int, s@.len() as int)));
            }
            Ok(s.len())
        },
        Some(d) => {
            if s[d] == '}' {
                out.push('{');
                push_range(out, s, i, d);
                out.push('}');
                proof {
                    assert(out@ =~= o0 + (seq!['{'] + s@.subrange(i as int, d as int)
                        + seq!['}']));
                }
                Ok(d + 1)
            } else {
                match parse_chain(s, d, out) {
                    Ok(j) => {
                        out.push('{');
                        push_range(out, s, i, d);
                        out.push('}');
                        proof {
                            match spec_chain(s@, d as int, Seq::<u8>::empty()) {
                                Ok(p2) => {
                                    assert(out@ =~= o0 + (p2.0 + seq!['{'] + s@.subrange(
                                        i as int,
                                        d as int,
                                    ) + seq!['}']));
                                },
                                Err(_) => {},
                            }
                        }
                        Ok(j)
                    },
                    Err(e) => Err(e),
                }
            }
        },
    }
}

/// Compiles a whole template held as a character vector.
pub fn compile_chars(s: &Vec<char>, escapes: bool) -> (r: Result<Vec<char>, CompileError>)
    ensures
        match r {
            Ok(out) => spec_compile(s@, escapes) == Ok::<Seq<char>, CompileError>(out@),
            Err(e) => spec_compile(s@, escapes) == Err::<Seq<char>, CompileError>(e),
        },
{
    let mut out: Vec<char> = Vec::new();
    let mut i: usize = 0;
    proof {
        lemma_prepend_empty(spec_compile_from(s@, 0, escapes));
        assert(out@ =~= Seq::<char>::empty());
    }
    while i < s.len()
        invariant
            i <= s.len(),
            spec_prepend(out@, spec_compile_from(s@, i as int, escapes)) == spec_compile(
                s@,
                escapes,
            ),
        decreases s.len() - i,
    {
        let ghost opre = out@;
        let c = s[i];
        if escapes && c == '\\' {
            match parse_escape(s, i + 1, &mut out) {
                Ok(j) => {
                    proof {
                        lemma_spec_escape_bounds(s@, i + 1);
                        let p = spec_escape(s@, i + 1)->Ok_0;
                        let frag = p.0;
                        if j >= s.len() {
                            assert(spec_compile_from(s@, j as int, escapes) == Ok::<
                                Seq<char>,
                                CompileError,
                            >(Seq::empty()));
                            assert(frag + Seq::<char>::empty() =~= frag);
                        }
                        assert(spec_compile_from(s@, i as int, escapes) == spec_prepend(
                            frag,
                            spec_compile_from(s@, j as int, escapes),
                        ));
                        lemma_prepend_assoc(
                            opre,
                            frag,
                            spec_compile_from(s@, j as int, escapes),
                        );
                    }
                    i = j;
                },
                Err(e) => {
                    proof {
                        assert(spec_compile_from(s@, i as int, escapes) == Err::<
                            Seq<char>,
                            CompileError,
                        >(e));
                    }
                    return Err(e);
                },
            }
        } else if c == '{' {
            match parse_param(s, i + 1, &mut out) {
                Ok(j) => {
                    proof {
                        let p = spec_param(s@, i as int + 1)->Ok_0;
                        let frag = p.0;
                        if j >= s.len() {
                            assert(spec_compile_from(s@, j as int, escapes) == Ok::<
                                Seq<char>,
                                CompileError,
                            >(Seq::empty()));
                            assert(frag + Seq::<char>::empty() =~= frag);
                        }
                        assert(spec_compile_from(s@, i as int, escapes) == spec_prepend(
                            frag,
                            spec_compile_from(s@, j as int, escapes),
                        ));
                        lemma_prepend_assoc(
                            opre,
                            frag,
                            spec_compile_from(s@, j as int, escapes),
                        );
                    }
                    i = j;
                },
                Err(e) => {
                    proof {
                        assert(spec_compile_from(s@, i as int, escapes) == Err::<
                            Seq<char>,
                            CompileError,
                        >(e));
                    }
                    return Err(e);
                },
            }
        } else if c == '}' {
            let j: usize = if i + 1 < s.len() {
                if s[i + 1] == '}' {
                    i + 2
                } else {
                    i + 1
                }
            } else {
                i + 1
            };
            out.push('}');
            proof {
                assert(out@ =~= opre + seq!['}']);
                assert(spec_compile_from(s@, i as int, escapes) == spec_prepend(
                    seq!['}'],
                    spec_compile_from(s@, j as int, escapes),
                ));
                lemma_prepend_assoc(opre, seq!['}'], spec_compile_from(s@, j as int, escapes));
            }
            i = j;
        } else {
            out.push(c);
            proof {
                assert(out@ =~= opre + seq![c]);
                assert(spec_compile_from(s@, i as int, escapes) == spec_prepend(
                    seq![c],
                    spec_compile_from(s@, i as int + 1, escapes),
                ));
                lemma_prepend_assoc(
                    opre,
                    seq![c],
                    spec_compile_from(s@, i as int + 1, escapes),
                );
            }
            i = i + 1;
        }
    }
    proof {
        assert(spec_compile_from(s@, i as int, escapes) == Ok::<Seq<char>, CompileError>(
            Seq::empty(),
        ));
        assert(out@ + Seq::<char>::empty() =~= out@);
    }
    Ok(out)
}

/// Compiles a template: escapes are resolved, directives become SGR escape
/// sequences, plain placeholders pass through.
pub fn parse_string(s: &str) -> (r: Result<String, CompileError>)
    ensures
        match r {
            Ok(out) => spec_compile(s@, true) == Ok::<Seq<char>, CompileError>(out@),
            Err(e) => spec_compile(s@, true) == Err::<Seq<char>, CompileError>(e),
        },
{
    let chars = to_char_vec(s);
    match compile_chars(&chars, true) {
        Ok(v) => Ok(string_of_chars(&v)),
        Err(e) => Err(e),
    }
}

/// The compiler entry point: takes one string literal as written in source,
/// quotes included, and returns the compiled text between the quotes. A raw
/// literal skips escape resolution but still has its directives compiled.
pub fn compile_literal(s: &str) -> (r: Result<String, CompileError>)
    ensures
        match crate::literal::spec_unwrap(s@) {
            None => r == Err::<String, CompileError>(CompileError::NotAStringLiteral),
            Some(u) => match spec_compile(u.1, !u.0) {
                Ok(o) => r is Ok && r->Ok_0@ == o,
                Err(e) => r == Err::<String, CompileError>(e),
            },
        },
{
    match crate::literal::unwrap_string(s) {
        None => Err(CompileError::NotAStringLiteral),
        Some(crate::literal::UnwrappedLiteral::String(inner)) => parse_string(inner),
        Some(crate::literal::UnwrappedLiteral::RawString(inner, _reps)) => {
            let chars = to_char_vec(inner);
            match compile_chars(&chars, false) {
                Ok(v) => Ok(string_of_chars(&v)),
                Err(e) => Err(e),
            }
        },
    }
}

} // verus!
