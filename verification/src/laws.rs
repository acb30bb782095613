use vstd::prelude::*;

use crate::compile::find_delim_n;
use crate::compile::is_delim;
use crate::compile::lemma_find_delim_n_at;
use crate::compile::spec_chain;
use crate::compile::spec_chain_step;
use crate::compile::spec_color_codes;
use crate::compile::spec_compile;
use crate::compile::spec_compile_from;
use crate::compile::spec_param;
use crate::error::CompileError;
use crate::numbers::spec_sgr_seq;
use crate::tables::spec_add_style;
use crate::tables::spec_color_simple;

verus! {

// Laws of the compiler, stated once and proved for every input they speak
// of.

/// Law: a template with no brace and no backslash compiles to itself,
/// unchanged, raw or not.
pub proof fn lemma_plain_text_unchanged(s: Seq<char>, escapes: bool)
    requires
        forall|k: int| 0 <= k < s.len() ==> s[k] != '{' && s[k] != '}' && s[k] != '\\',
    ensures
        spec_compile(s, escapes) == Ok::<Seq<char>, CompileError>(s),
{
    lemma_plain_from(s, 0, escapes);
    assert(s.subrange(0, s.len() as int) =~= s);
}

proof fn lemma_plain_from(s: Seq<char>, i: int, escapes: bool)
    requires
        0 <= i <= s.len(),
        forall|k: int| 0 <= k < s.len() ==> s[k] != '{' && s[k] != '}' && s[k] != '\\',
    ensures
        spec_compile_from(s, i, escapes) == Ok::<Seq<char>, CompileError>(
            s.subrange(i, s.len() as int),
        ),
    decreases s.len() - i,
{
    if i == s.len() {
        assert(s.subrange(i, s.len() as int) =~= Seq::<char>::empty());
    } else {
        lemma_plain_from(s, i + 1, escapes);
        assert(seq![s[i]] + s.subrange(i + 1, s.len() as int) =~= s.subrange(i, s.len() as int));
    }
}

/// Every keyword of the style-add table is non-empty and holds no delimiter
/// character.
pub proof fn lemma_add_keyword_shape(k: Seq<char>)
    requires
        spec_add_style(k) is Some,
    ensures
        k.len() > 0,
        forall|j: int| 0 <= j < k.len() ==> !is_delim(#[trigger] k[j]),
{
    reveal_strlit("Reset");
    reveal_strlit("Bold");
    reveal_strlit("Dim");
    reveal_strlit("Italic");
    reveal_strlit("Underline");
    reveal_strlit("Blinking");
    reveal_strlit("Inverse");
    reveal_strlit("Hidden");
    reveal_strlit("Strikethrough");
}

/// Every keyword of the color-name table is non-empty and holds no delimiter
/// character.
pub proof fn lemma_color_keyword_shape(k: Seq<char>)
    requires
        spec_color_simple(k) is Some,
    ensures
        k.len() > 0,
        forall|j: int| 0 <= j < k.len() ==> !is_delim(#[trigger] k[j]),
{
    reveal_strlit("BlackFg");
    reveal_strlit("RedFg");
    reveal_strlit("GreenFg");
    reveal_strlit("YellowFg");
    reveal_strlit("BlueFg");
    reveal_strlit("MagentaFg");
    reveal_strlit("CyanFg");
    reveal_strlit("WhiteFg");
    reveal_strlit("DefaultFg");
    reveal_strlit("BlackBg");
    reveal_strlit("RedBg");
    reveal_strlit("GreenBg");
    reveal_strlit("YellowBg");
    reveal_strlit("BlueBg");
    reveal_strlit("MagentaBg");
    reveal_strlit("CyanBg");
    reveal_strlit("WhiteBg");
    reveal_strlit("DefaultBg");
}

/// A single directive group `{<sym><keyword>}` around a keyword that maps to
/// the single code `c` compiles to exactly one escape sequence holding that
/// code: `ESC [ <c> m`.
proof fn lemma_single_directive(s: Seq<char>, k: Seq<char>, c: u8, escapes: bool)
    requires
        s == seq!['{', s[1]] + k + seq!['}'],
        s.len() == k.len() + 3,
        k.len() > 0,
        forall|j: int| 0 <= j < k.len() ==> !is_delim(#[trigger] k[j]),
        s[1] == '+' ==> spec_add_style(k) == Some(c),
        s[1] == '+' || s[1] == '#',
        s[1] == '#' ==> spec_color_codes(k) == Some(seq![c]),
    ensures
        spec_compile(s, escapes) == Ok::<Seq<char>, CompileError>(spec_sgr_seq(seq![c])),
{
    let n = s.len() as int;
    assert(s[0] == '{');
    assert(forall|j: int| 0 <= j < k.len() ==> s[2 + j] == k[j]);
    assert(s[n - 1] == '}');
    assert(forall|t: int| 2 <= t < n - 1 ==> !is_delim(s[t]));
    assert(is_delim(s[n - 1]));
    lemma_find_delim_n_at(s, 2, n - 1);
    assert(find_delim_n(s, 2) == Some(k.len()));
    assert(s.subrange(2, n - 1) =~= k);
    let buf = if s[1] == '+' {
        Seq::<u8>::empty().push(c)
    } else {
        Seq::<u8>::empty() + seq![c]
    };
    assert(buf =~= seq![c]);
    assert(spec_chain(s, 1, Seq::empty()) == spec_chain_step(
        s,
        n - 1,
        seq![c],
        Seq::<char>::empty(),
        k.len(),
    ));
    assert(spec_chain_step(s, n - 1, seq![c], Seq::<char>::empty(), k.len()) == Ok::<
        (Seq<char>, nat),
        CompileError,
    >((Seq::<char>::empty() + spec_sgr_seq(seq![c]), (k.len() + 2) as nat)));
    assert(Seq::<char>::empty() + spec_sgr_seq(seq![c]) =~= spec_sgr_seq(seq![c]));
    assert(spec_param(s, 1) == Ok::<(Seq<char>, nat), CompileError>(
        (spec_sgr_seq(seq![c]), (k.len() + 2) as nat),
    ));
    assert(spec_compile_from(s, 0, escapes) == Ok::<Seq<char>, CompileError>(
        spec_sgr_seq(seq![c]),
    ));
}

/// Law: for every keyword `k` of the style-add table, compiling `{+k}` never
/// fails and yields exactly `ESC [ <code> m` with the table's code for `k`.
pub proof fn lemma_add_style_compiles(k: Seq<char>, c: u8, escapes: bool)
    requires
        spec_add_style(k) == Some(c),
    ensures
        spec_compile(seq!['{', '+'] + k + seq!['}'], escapes) == Ok::<Seq<char>, CompileError>(
            spec_sgr_seq(seq![c]),
        ),
{
    lemma_add_keyword_shape(k);
    let s = seq!['{', '+'] + k + seq!['}'];
    assert(s =~= seq!['{', s[1]] + k + seq!['}']);
    lemma_single_directive(s, k, c, escapes);
}

/// Law: for every named color `k` (each `..Fg` and `..Bg` name), compiling
/// `{#k}` never fails and yields exactly `ESC [ <code> m` with the table's
/// code for `k`.
pub proof fn lemma_named_color_compiles(k: Seq<char>, c: u8, escapes: bool)
    requires
        spec_color_simple(k) == Some(c),
    ensures
        spec_compile(seq!['{', '#'] + k + seq!['}'], escapes) == Ok::<Seq<char>, CompileError>(
            spec_sgr_seq(seq![c]),
        ),
{
    lemma_color_keyword_shape(k);
    let s = seq!['{', '#'] + k + seq!['}'];
    assert(s =~= seq!['{', s[1]] + k + seq!['}']);
    assert(spec_color_codes(k) == Some(seq![c]));
    lemma_single_directive(s, k, c, escapes);
}

} // verus!

