use vstd::prelude::*;

use crate::text::push_char;

verus! {

// Unwrapping of quoted string literals, and rebuilding of raw-literal
// quoting: the entry point's view of the host-provided source text.

/// A string literal stripped of its quoting: an ordinary literal, or a raw
/// literal together with the number of `#` repetitions of its quoting.
#[derive(Debug)]
pub enum UnwrappedLiteral<'a> {
    String(&'a str),
    RawString(&'a str, usize),
}

/// The length of the `#` run starting at `from`.
pub open spec fn leading_hashes(s: Seq<char>, from: int) -> nat
    decreases s.len() - from,
{
    if from < 0 || from >= s.len() {
        0
    } else if s[from] == '#' {
        1 + leading_hashes(s, from + 1)
    } else {
        0
    }
}

/// The length of the `#` run ending just before `upto`.
pub open spec fn trailing_hashes(s: Seq<char>, upto: int) -> nat
    decreases upto,
{
    if upto <= 0 || upto > s.len() {
        0
    } else if s[upto - 1] == '#' {
        1 + trailing_hashes(s, upto - 1)
    } else {
        0
    }
}

/// What unwrapping a quoted literal yields: whether it was raw, the text
/// between the quotes, and the number of `#` pairs of a raw quoting.
pub open spec fn spec_unwrap(s: Seq<char>) -> Option<(bool, Seq<char>, nat)> {
    if s.len() >= 1 && s[0] == 'r' {
        let t = s.subrange(1, s.len() as int);
        let lead = leading_hashes(t, 0);
        if lead == t.len() {
            None
        } else {
            let trail = trailing_hashes(t, t.len() as int);
            let core = t.subrange(lead as int, t.len() - trail);
            if core.len() >= 2 && core[0] == '"' && core[core.len() - 1] == '"' {
                Some((true, core.subrange(1, core.len() - 1), ((lead + trail) / 2) as nat))
            } else {
                None
            }
        }
    } else {
        if s.len() >= 2 && s[0] == '"' && s[s.len() - 1] == '"' {
            Some((false, s.subrange(1, s.len() - 1), 0nat))
        } else {
            None
        }
    }
}

/// Strips the surrounding plain quotes of an ordinary string literal.
pub fn correct_string(s: &str) -> (r: Option<&str>)
    ensures
        match r {
            Some(t) => s@.len() >= 2 && s@[0] == '"' && s@[s@.len() - 1] == '"' && t@
                == s@.subrange(1, s@.len() - 1),
            None => !(s@.len() >= 2 && s@[0] == '"' && s@[s@.len() - 1] == '"'),
        },
{
    let n = s.unicode_len();
    if n >= 2 && s.get_char(0) == '"' && s.get_char(n - 1) == '"' {
        Some(s.substring_char(1, n - 1))
    } else {
        None
    }
}

/// Strips the quoting of a string literal: either the plain `"` pair, or the
/// `r`, the `#` runs and the `"` pair of a raw literal.
pub fn unwrap_string(s: &str) -> (r: Option<UnwrappedLiteral>)
    ensures
        match r {
            None => spec_unwrap(s@) is None,
            Some(u) => match u {
                UnwrappedLiteral::String(t) => spec_unwrap(s@) == Some((false, t@, 0nat)),
                UnwrappedLiteral::RawString(t, k) => spec_unwrap(s@) matches Some(v) && v.0
                    == true && v.1 == t@ && v.2 == k as nat,
            },
        },
{
    let n = s.unicode_len();
    if n >= 1 && s.get_char(0) == 'r' {
        let ghost t = s@.subrange(1, n as int);
        // count the leading hashes of the text after the `r`
        let mut j: usize = 1;
        while j < n && s.get_char(j) == '#'
            invariant
                1 <= j <= n,
                n == s@.len(),
                t == s@.subrange(1, n as int),
                leading_hashes(t, 0) == (j - 1) + leading_hashes(t, j - 1),
            decreases n - j,
        {
            proof {
                assert(t[j - 1] == '#');
                assert(leading_hashes(t, j - 1) == 1 + leading_hashes(t, j as int));
            }
            j += 1;
        }
        let lead = j - 1;
        proof {
            if j == n {
                assert(leading_hashes(t, lead as int) == 0);
            } else {
                assert(t[lead as int] != '#');
                assert(leading_hashes(t, lead as int) == 0);
            }
            assert(leading_hashes(t, 0) == lead);
        }
        if j == n {
            // nothing but hashes after the `r`
            return None;
        }
        // count the trailing hashes
        let mut e: usize = n;
        while e > 1 && s.get_char(e - 1) == '#'
            invariant
                1 <= e <= n,
                n == s@.len(),
                t == s@.subrange(1, n as int),
                trailing_hashes(t, (n - 1) as int) == (n - e) + trailing_hashes(t, (e - 1) as int),
                forall|k: int| e <= k < n ==> s@[k] == '#',
            decreases e,
        {
            proof {
                assert(t[e - 2] == '#');
                assert(trailing_hashes(t, (e - 1) as int) == 1 + trailing_hashes(
                    t,
                    (e - 2) as int,
                ));
            }
            e -= 1;
        }
        let trail = n - e;
        proof {
            if e > 1 {
                assert(t[e - 2] != '#');
            }
            assert(trailing_hashes(t, (e - 1) as int) == 0);
            assert(trailing_hashes(t, (n - 1) as int) == trail);
            // the run of trailing hashes cannot reach the non-hash at `lead`
            assert(s@[1 + lead] != '#');
            assert(e > 1 + lead);
        }
        let c_lo = 1 + lead;
        let c_hi = e;
        let ghost core = t.subrange(lead as int, t.len() - trail);
        proof {
            assert(core =~= s@.subrange(c_lo as int, c_hi as int));
        }
        if c_hi - c_lo < 2 {
            return None;
        }
        if s.get_char(c_lo) != '"' || s.get_char(c_hi - 1) != '"' {
            proof {
                assert(core[0] == s@[c_lo as int]);
                assert(core[core.len() - 1] == s@[c_hi - 1]);
            }
            return None;
        }
        let inner = s.substring_char(c_lo + 1, c_hi - 1);
        proof {
            assert(core[0] == s@[c_lo as int]);
            assert(core[core.len() - 1] == s@[c_hi - 1]);
            assert(core.subrange(1, core.len() - 1) =~= s@.subrange(c_lo + 1, c_hi - 1));
        }
        Some(UnwrappedLiteral::RawString(inner, (lead + trail) / 2))
    } else {
        match correct_string(s) {
            Some(inner) => Some(UnwrappedLiteral::String(inner)),
            None => None,
        }
    }
}

/// Rebuilds the quoting of a raw string literal around `s`, with `i` hash
/// signs on either side.
pub fn parse_raw_string(s: &str, i: usize) -> (r: String)
    ensures
        r@ == seq!['r'] + Seq::new(i as nat, |j: int| '#') + seq!['"'] + s@ + seq!['"'] + Seq::new(
            i as nat,
            |j: int| '#',
        ),
{
    let ghost hashes = Seq::new(i as nat, |j: int| '#');
    let mut r = String::new();
    push_char(&mut r, 'r');
    proof {
        assert(r@ =~= seq!['r'] + hashes.take(0));
    }
    let mut k: usize = 0;
    while k < i
        invariant
            k <= i,
            r@ == seq!['r'] + hashes.take(k as int),
            hashes == Seq::new(i as nat, |j: int| '#'),
        decreases i - k,
    {
        push_char(&mut r, '#');
        proof {
            assert(r@ =~= seq!['r'] + hashes.take(k + 1));
        }
        k += 1;
    }
    proof {
        assert(hashes.take(i as int) =~= hashes);
    }
    push_char(&mut r, '"');
    r.append(s);
    push_char(&mut r, '"');
    let ghost mid = seq!['r'] + hashes + seq!['"'] + s@ + seq!['"'];
    proof {
        assert(r@ =~= mid);
        assert(r@ =~= mid + hashes.take(0));
    }
    let mut k2: usize = 0;
    while k2 < i
        invariant
            k2 <= i,
            r@ == mid + hashes.take(k2 as int),
            hashes == Seq::new(i as nat, |j: int| '#'),
            mid == seq!['r'] + hashes + seq!['"'] + s@ + seq!['"'],
        decreases i - k2,
    {
        push_char(&mut r, '#');
        proof {
            assert(r@ =~= mid + hashes.take(k2 + 1));
        }
        k2 += 1;
    }
    proof {
        assert(hashes.take(i as int) =~= hashes);
        assert(r@ =~= mid + hashes);
    }
    r
}

} // verus!
