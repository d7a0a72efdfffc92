use vstd::prelude::*;
use crate::literals::hex_val;
use crate::literals::is_hex_digit_char;
use crate::literals::is_numeric_char;
use crate::literals::lemma_numeric_prefix_end;
use crate::literals::numeric_prefix_end;
use crate::literals::spec_parse_color;
use crate::object_tree::Document;
use crate::resolving::elem_hit;
use crate::resolving::scope_hit;

verus! {

/// Two characters that differ at most by letter case.
pub open spec fn same_char_ci(a: char, b: char) -> bool {
    ||| a == b
    ||| ('a' <= a && a <= 'z' && b as int == a as int - 32)
    ||| ('A' <= a && a <= 'Z' && b as int == a as int + 32)
}

/// Two texts that differ at most by letter case.
pub open spec fn same_text_ci(a: Seq<char>, b: Seq<char>) -> bool {
    a.len() == b.len() && forall|i: int| 0 <= i < a.len() ==> same_char_ci(a[i], #[trigger] b[i])
}

proof fn lemma_hex_digit_ci(a: char, b: char)
    requires
        same_char_ci(a, b),
    ensures
        is_hex_digit_char(a) == is_hex_digit_char(b),
        is_hex_digit_char(a) ==> hex_val(a) == hex_val(b),
{
}

/// Color literal parsing does not care about letter case: two literals
/// that differ only in the case of their characters parse to the same
/// value, or both fail.
pub proof fn lemma_parse_color_case_insensitive(a: Seq<char>, b: Seq<char>)
    requires
        same_text_ci(a, b),
    ensures
        spec_parse_color(a) == spec_parse_color(b),
{
    if a.len() == 0 {
        return ;
    }
    assert(same_char_ci(a[0], b[0]));
    if a[0] != '#' {
        assert(b[0] != '#');
        return ;
    }
    assert(b[0] == '#');
    let ba = a.drop_first();
    let bb = b.drop_first();
    assert forall|i: int| 0 <= i < ba.len() implies same_char_ci(ba[i], #[trigger] bb[i]) by {
        assert(ba[i] == a[i + 1]);
        assert(bb[i] == b[i + 1]);
        assert(same_char_ci(a[i + 1], b[i + 1]));
    }
    assert forall|i: int| 0 <= i < ba.len() implies is_hex_digit_char(#[trigger] ba[i])
        == is_hex_digit_char(bb[i]) && (is_hex_digit_char(ba[i]) ==> hex_val(ba[i]) == hex_val(
        bb[i],
    )) by {
        lemma_hex_digit_ci(ba[i], bb[i]);
    }
}

/// Number literal parsing always splits the text at the end of its
/// leading run of digits and dots: everything before the split is
/// numeric, and the character at the split, if any, is not.
pub proof fn lemma_number_literal_split(s: Seq<char>)
    ensures
        0 <= numeric_prefix_end(s) <= s.len(),
        forall|j: int| 0 <= j < numeric_prefix_end(s) ==> is_numeric_char(#[trigger] s[j]),
        numeric_prefix_end(s) < s.len() ==> !is_numeric_char(s[numeric_prefix_end(s)]),
{
    lemma_numeric_prefix_end(s);
}

/// LAW (scope shadowing): pushing an inner scope onto the stack hides
/// every outer binding of a name that the inner scope also offers, and
/// leaves lookups of other names untouched.  An identifier shadowed at
/// an inner scope therefore never resolves to an outer scope's binding
/// of the same name.
pub proof fn lemma_scope_shadowing(
    d: Document,
    scopes: Seq<usize>,
    inner: usize,
    name: Seq<char>,
)
    ensures
        !(elem_hit(d, inner as int, name) is NoHit) ==> scope_hit(d, scopes.push(inner), name)
            == elem_hit(d, inner as int, name),
        elem_hit(d, inner as int, name) is NoHit ==> scope_hit(d, scopes.push(inner), name)
            == scope_hit(d, scopes, name),
{
    assert(scopes.push(inner).last() == inner);
    assert(scopes.push(inner).drop_last() =~= scopes);
}

} // verus!
