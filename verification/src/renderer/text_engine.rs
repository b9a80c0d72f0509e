//! Locale handling for text rendering: the font-fallback locale used on
//! macOS for CJK text.

use crate::strings::push_char;
use vstd::prelude::*;
use vstd::string::StringExecFns;

verus! {

broadcast use vstd::string::axiom_spec_iter;

/// `s` with every `'_'` replaced by `'-'`.
pub open spec fn dash_normalized(s: Seq<char>) -> Seq<char> {
    s.map_values(|c: char| if c == '_' { '-' } else { c })
}

pub open spec fn ascii_lower(c: char) -> char {
    if 'A' <= c <= 'Z' {
        ((c as u32) + 32) as char
    } else {
        c
    }
}

pub open spec fn ascii_upper(c: char) -> char {
    if 'a' <= c <= 'z' {
        ((c as u32) - 32) as char
    } else {
        c
    }
}

/// Index of the first `'-'` in `s`, or `s.len()` when there is none.
pub open spec fn first_dash(s: Seq<char>) -> int
    decreases s.len(),
{
    if s.len() == 0 {
        0
    } else if s[0] == '-' {
        0
    } else {
        1 + first_dash(s.drop_first())
    }
}

pub proof fn lemma_first_dash(s: Seq<char>)
    ensures
        0 <= first_dash(s) <= s.len(),
        first_dash(s) < s.len() ==> s[first_dash(s)] == '-',
        forall|i: int| 0 <= i < first_dash(s) ==> s[i] != '-',
    decreases s.len(),
{
    if s.len() > 0 && s[0] != '-' {
        lemma_first_dash(s.drop_first());
        assert forall|i: int| 0 <= i < first_dash(s) implies s[i] != '-' by {
            if i > 0 {
                assert(s[i] == s.drop_first()[i - 1]);
            }
        }
    }
}

/// `t` is the two-letter subtag `a b`, ignoring ASCII case (compared in
/// lower case).
pub open spec fn is_lower_tag(t: Seq<char>, a: char, b: char) -> bool {
    t.len() == 2 && ascii_lower(t[0]) == a && ascii_lower(t[1]) == b
}

/// `t` is the two-letter subtag `a b`, ignoring ASCII case (compared in
/// upper case).
pub open spec fn is_upper_tag(t: Seq<char>, a: char, b: char) -> bool {
    t.len() == 2 && ascii_upper(t[0]) == a && ascii_upper(t[1]) == b
}

/// Scanning the `'-'`-separated subtags of `rest` in order: 1 if the first
/// region subtag met is `HK`, 2 if it is `TW`, 0 if there is none.
pub open spec fn han_region(rest: Seq<char>) -> int
    decreases rest.len(),
{
    let d = first_dash(rest);
    let t = rest.take(d);
    if is_upper_tag(t, 'H', 'K') {
        1
    } else if is_upper_tag(t, 'T', 'W') {
        2
    } else if d < rest.len() {
        proof {
            lemma_first_dash(rest);
        }
        han_region(rest.skip(d + 1))
    } else {
        0
    }
}

/// The font-fallback locale for `locale`: Japanese and Korean map to their
/// bare language, Chinese to `zh-HK`, `zh-TW` or (by default) `zh-CN` after
/// the first `HK`/`TW` subtag, and anything else to the locale with `_`
/// spelled `-`.
pub open spec fn spec_fallback_locale(locale: Seq<char>) -> Seq<char> {
    let n = dash_normalized(locale);
    let d = first_dash(n);
    let first = n.take(d);
    if is_lower_tag(first, 'j', 'a') {
        seq!['j', 'a']
    } else if is_lower_tag(first, 'k', 'o') {
        seq!['k', 'o']
    } else if is_lower_tag(first, 'z', 'h') {
        let region = if d < n.len() {
            han_region(n.skip(d + 1))
        } else {
            0
        };
        if region == 1 {
            seq!['z', 'h', '-', 'H', 'K']
        } else if region == 2 {
            seq!['z', 'h', '-', 'T', 'W']
        } else {
            seq!['z', 'h', '-', 'C', 'N']
        }
    } else {
        n
    }
}

fn lower(c: char) -> (r: char)
    ensures
        r == ascii_lower(c),
{
    if 'A' <= c && c <= 'Z' {
        ((c as u8) + 32) as char
    } else {
        c
    }
}

fn upper(c: char) -> (r: char)
    ensures
        r == ascii_upper(c),
{
    if 'a' <= c && c <= 'z' {
        ((c as u8) - 32) as char
    } else {
        c
    }
}

/// The characters of `s`, with `'_'` spelled `'-'`.
fn normalized_chars(s: &str) -> (r: Vec<char>)
    ensures
        r@ == dash_normalized(s@),
{
    let mut out: Vec<char> = Vec::new();
    for c in it: s.chars()
        invariant
            it.seq() == s@,
            out@ == dash_normalized(it.seq().take(it.index() as int)),
    {
        let ghost before = out@;
        out.push(if c == '_' {
            '-'
        } else {
            c
        });
        proof {
            assert(it.seq().take(it.index() + 1) =~= it.seq().take(it.index() as int).push(c));
            assert(out@ =~= dash_normalized(it.seq().take(it.index() + 1)));
        }
    }
    out
}

/// Position of the first `'-'` at or after `from`, or `v.len()`.
fn next_dash(v: &Vec<char>, from: usize) -> (r: usize)
    requires
        from <= v@.len(),
    ensures
        r == from + first_dash(v@.skip(from as int)),
{
    let mut i = from;
    proof {
        lemma_first_dash(v@.skip(from as int));
    }
    while i < v.len() && v[i] != '-'
        invariant
            from <= i <= v@.len(),
            forall|j: int| from <= j < i ==> v@[j] != '-',
            i - from <= first_dash(v@.skip(from as int)),
            0 <= first_dash(v@.skip(from as int)) <= v@.len() - from,
            first_dash(v@.skip(from as int)) < v@.len() - from ==> v@.skip(from as int)[first_dash(
                v@.skip(from as int),
            )] == '-',
            forall|j: int|
                0 <= j < first_dash(v@.skip(from as int)) ==> v@.skip(from as int)[j] != '-',
        decreases v@.len() - i,
    {
        proof {
            assert(v@.skip(from as int)[i - from] == v@[i as int]);
        }
        i = i + 1;
    }
    proof {
        if i < v@.len() {
            assert(v@.skip(from as int)[i - from] == v@[i as int]);
        }
    }
    i
}

/// Whether the first `d` characters of `n` are the subtag `a b`, ignoring
/// ASCII case.
fn first_tag_is(n: &Vec<char>, d: usize, a: char, b: char) -> (r: bool)
    requires
        d <= n@.len(),
    ensures
        r == is_lower_tag(n@.take(d as int), a, b),
{
    d == 2 && lower(n[0]) == a && lower(n[1]) == b
}

/// The fallback locale for CJK text on macOS (see [`spec_fallback_locale`]).
pub fn macos_fallback_locale(locale: &str) -> (r: String)
    ensures
        r@ == spec_fallback_locale(locale@),
{
    let n = normalized_chars(locale);
    let d = next_dash(&n, 0);
    proof {
        assert(n@.skip(0) =~= n@);
        lemma_first_dash(n@);
    }
    if first_tag_is(&n, d, 'j', 'a') {
        proof {
            reveal_strlit("ja");
        }
        return String::from_str("ja");
    }
    if first_tag_is(&n, d, 'k', 'o') {
        proof {
            reveal_strlit("ko");
        }
        return String::from_str("ko");
    }
    if first_tag_is(&n, d, 'z', 'h') {
        let mut region: u8 = 0;
        if d < n.len() {
            let mut pos: usize = d + 1;
            let mut done = false;
            while !done
                invariant_except_break
                    region == 0,
                    !done ==> han_region(n@.skip(pos as int)) == han_region(n@.skip(d + 1)),
                    done ==> han_region(n@.skip(d + 1)) == 0,
                invariant
                    pos <= n@.len(),
                    d < n@.len(),
                ensures
                    region as int == han_region(n@.skip(d + 1)),
                decreases n@.len() - pos + if done {
                    0int
                } else {
                    1int
                },
            {
                let e = next_dash(&n, pos);
                let ghost rest = n@.skip(pos as int);
                proof {
                    lemma_first_dash(rest);
                    assert(rest.take(e - pos) =~= n@.subrange(pos as int, e as int));
                }
                let len = e - pos;
                if len == 2 && upper(n[pos]) == 'H' && upper(n[pos + 1]) == 'K' {
                    region = 1;
                    break;
                }
                if len == 2 && upper(n[pos]) == 'T' && upper(n[pos + 1]) == 'W' {
                    region = 2;
                    break;
                }
                if e < n.len() {
                    proof {
                        assert(rest.skip(e - pos + 1) =~= n@.skip(e + 1));
                    }
                    pos = e + 1;
                } else {
                    done = true;
                }
            }
        }
        let ghost region_spec = if d < n@.len() {
            han_region(n@.skip(d + 1))
        } else {
            0
        };
        assert(region == region_spec);
        if region == 1 {
            proof {
                reveal_strlit("zh-HK");
            }
            return String::from_str("zh-HK");
        } else if region == 2 {
            proof {
                reveal_strlit("zh-TW");
            }
            return String::from_str("zh-TW");
        } else {
            proof {
                reveal_strlit("zh-CN");
            }
            return String::from_str("zh-CN");
        }
    }
    let mut out = String::new();
    let mut i: usize = 0;
    while i < n.len()
        invariant
            i <= n@.len(),
            out@ == n@.take(i as int),
        decreases n@.len() - i,
    {
        push_char(&mut out, n[i]);
        i = i + 1;
        proof {
            assert(out@ =~= n@.take(i as int));
        }
    }
    proof {
        assert(n@.take(n@.len() as int) =~= n@);
    }
    out
}

/// `_` and `-` separate subtags alike: a locale and its `-`-spelled form get
/// the same fallback.
pub proof fn law_underscore_equals_dash(locale: Seq<char>)
    ensures
        spec_fallback_locale(dash_normalized(locale)) == spec_fallback_locale(locale),
{
    assert(dash_normalized(dash_normalized(locale)) =~= dash_normalized(locale));
}

} // verus!
