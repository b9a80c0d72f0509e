//! Layout context types, and the names given to anonymous widgets.

use crate::strings::push_char;
use crate::ui_model::ids::UiId;
use vstd::prelude::*;
use vstd::string::StringExecFns;

verus! {

/// Primary layout axis for the current container.
#[derive(Clone, Copy, Debug, PartialEq, Eq, Structural)]
pub enum LayoutDirection {
    Vertical,
    Horizontal,
}

impl Default for LayoutDirection {
    fn default() -> (r: Self)
        ensures
            r == LayoutDirection::Vertical,
    {
        LayoutDirection::Vertical
    }
}

/// The character of decimal digit `d`.
pub open spec fn digit_char(d: nat) -> char {
    (48 + d) as char
}

/// `n` in decimal, most significant digit first, without leading zeros.
pub open spec fn decimal(n: nat) -> Seq<char>
    decreases n,
{
    if n < 10 {
        seq![digit_char(n)]
    } else {
        decimal(n / 10).push(digit_char(n % 10))
    }
}

/// Name of the anonymous widget numbered `counter`: `_ui_` and the number.
pub open spec fn spec_anon_name(counter: u64) -> Seq<char> {
    "_ui_"@ + decimal(counter as nat)
}

/// `s` followed by `n` in decimal.
fn push_decimal(s: &mut String, n: u64)
    ensures
        final(s)@ == old(s)@ + decimal(n as nat),
    decreases n,
{
    if n >= 10 {
        push_decimal(s, n / 10);
    }
    let d = (n % 10) as u8;
    let ghost before = s@;
    push_char(s, (48u8 + d) as char);
    proof {
        if n >= 10 {
            assert(s@ =~= old(s)@ + decimal((n / 10) as nat).push(digit_char((n % 10) as nat)));
        } else {
            assert(s@ =~= old(s)@ + seq![digit_char(n as nat)]);
        }
    }
}

/// The id given to the anonymous widget numbered `counter` (widgets placed
/// without an explicit id are numbered in placement order).
pub fn anon_id(counter: u64) -> (r: UiId)
    ensures
        r@ == spec_anon_name(counter),
{
    let mut name = String::from_str("_ui_");
    proof {
        reveal_strlit("_ui_");
    }
    push_decimal(&mut name, counter);
    UiId::from_string(name)
}

proof fn lemma_decimal_len(n: nat)
    ensures
        decimal(n).len() >= 1,
        n < 10 <==> decimal(n).len() == 1,
    decreases n,
{
    if n >= 10 {
        lemma_decimal_len(n / 10);
    }
}

proof fn lemma_digit_injective(a: nat, b: nat)
    requires
        a < 10,
        b < 10,
        digit_char(a) == digit_char(b),
    ensures
        a == b,
{
    assert((digit_char(a) as int) == 48 + a);
    assert((digit_char(b) as int) == 48 + b);
}

proof fn lemma_decimal_injective(a: nat, b: nat)
    requires
        decimal(a) == decimal(b),
    ensures
        a == b,
    decreases a,
{
    lemma_decimal_len(a);
    lemma_decimal_len(b);
    if a < 10 {
        assert(decimal(a)[0] == digit_char(a));
        assert(decimal(b)[0] == digit_char(b));
        lemma_digit_injective(a, b);
    } else {
        let da = decimal(a);
        let db = decimal(b);
        assert(da.last() == digit_char(a % 10));
        assert(db.last() == digit_char(b % 10));
        lemma_digit_injective(a % 10, b % 10);
        assert(da.drop_last() =~= decimal(a / 10));
        assert(db.drop_last() =~= decimal(b / 10));
        lemma_decimal_injective(a / 10, b / 10);
    }
}

/// Anonymous widgets never share an id: different numbers give different
/// names.
pub proof fn law_anon_names_are_distinct(a: u64, b: u64)
    requires
        a != b,
    ensures
        spec_anon_name(a) != spec_anon_name(b),
{
    if spec_anon_name(a) == spec_anon_name(b) {
        let p = "_ui_"@;
        assert(spec_anon_name(a).skip(p.len() as int) =~= decimal(a as nat));
        assert(spec_anon_name(b).skip(p.len() as int) =~= decimal(b as nat));
        lemma_decimal_injective(a as nat, b as nat);
    }
}

} // verus!
