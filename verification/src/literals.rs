use vstd::prelude::*;
use vstd::string::StrSliceExecFns;
use vstd::string::StringExecFns;
use crate::ident::str_eq;

verus! {

/// Unit suffix of a number literal.  The suffix decides the type the
/// literal carries: physical pixels are lengths, logical pixels are
/// logical lengths, seconds and milliseconds are durations.
#[derive(Clone, Copy, PartialEq, Eq, Structural, Debug)]
pub enum Unit {
    /// No suffix: a plain, dimensionless number.
    Plain,
    /// `%`
    Percent,
    /// `px`: logical pixels.
    Px,
    /// `phx`: physical pixels.
    Phx,
    /// `s`: seconds.
    S,
    /// `ms`: milliseconds.
    Ms,
}

/// An exact decimal number: `mantissa / 10^scale`.  Number literals are
/// finite decimals, so the pass keeps them exactly instead of rounding.
#[derive(Clone, Copy, PartialEq, Eq, Structural, Debug)]
pub struct NumberValue {
    /// The digits of the literal, dot removed.
    pub mantissa: u64,
    /// How many of those digits sit after the decimal dot.
    pub scale: usize,
}

impl NumberValue {
    /// The whole number `n`.
    pub fn from_integer(n: u64) -> (r: NumberValue)
        ensures
            r == (NumberValue { mantissa: n, scale: 0 }),
    {
        NumberValue { mantissa: n, scale: 0 }
    }
}

/// Error cases of number-literal parsing, with the exact user-facing text.
#[derive(Clone, Copy, PartialEq, Eq, Structural, Debug)]
pub enum NumberLiteralError {
    /// The numeric prefix is not a well-formed decimal.
    CannotParse,
    /// The suffix after the numeric prefix is not a known unit.
    InvalidUnit,
}

impl NumberLiteralError {
    pub fn message(&self) -> (r: String)
        ensures
            *self is CannotParse ==> r@ == "Cannot parse number literal"@,
            *self is InvalidUnit ==> r@ == "Invalid unit"@,
    {
        match self {
            NumberLiteralError::CannotParse => String::from_str("Cannot parse number literal"),
            NumberLiteralError::InvalidUnit => String::from_str("Invalid unit"),
        }
    }
}

pub open spec fn is_digit_char(c: char) -> bool {
    '0' <= c && c <= '9'
}

pub open spec fn digit_val(c: char) -> int {
    c as int - 48
}

/// A character that may appear in the numeric prefix of a literal.
pub open spec fn is_numeric_char(c: char) -> bool {
    is_digit_char(c) || c == '.'
}

/// Length of the leading run of digits and dots.
pub open spec fn numeric_prefix_end(s: Seq<char>) -> int
    decreases s.len(),
{
    if s.len() == 0 {
        0
    } else if !is_numeric_char(s[0]) {
        0
    } else {
        1 + numeric_prefix_end(s.drop_first())
    }
}

pub proof fn lemma_numeric_prefix_end(s: Seq<char>)
    ensures
        0 <= numeric_prefix_end(s) <= s.len(),
        forall|j: int| 0 <= j < numeric_prefix_end(s) ==> is_numeric_char(#[trigger] s[j]),
        numeric_prefix_end(s) < s.len() ==> !is_numeric_char(s[numeric_prefix_end(s)]),
    decreases s.len(),
{
    if s.len() > 0 && is_numeric_char(s[0]) {
        lemma_numeric_prefix_end(s.drop_first());
        let e = numeric_prefix_end(s);
        assert forall|j: int| 0 <= j < e implies is_numeric_char(#[trigger] s[j]) by {
            if j > 0 {
                assert(s.drop_first()[j - 1] == s[j]);
            }
        }
        if e < s.len() {
            assert(s.drop_first()[e - 1] == s[e]);
        }
    }
}

/// Number of dots in a numeric prefix.
pub open spec fn dots_in(p: Seq<char>) -> int
    decreases p.len(),
{
    if p.len() == 0 {
        0
    } else {
        dots_in(p.drop_last()) + if p.last() == '.' { 1int } else { 0int }
    }
}

/// The digits of the prefix read as one integer, the dot skipped.
pub open spec fn mantissa_of(p: Seq<char>) -> int
    decreases p.len(),
{
    if p.len() == 0 {
        0
    } else if p.last() == '.' {
        mantissa_of(p.drop_last())
    } else {
        mantissa_of(p.drop_last()) * 10 + digit_val(p.last())
    }
}

/// How many digits of the prefix sit after the dot.
pub open spec fn scale_of(p: Seq<char>) -> int
    decreases p.len(),
{
    if p.len() == 0 {
        0
    } else if p.last() == '.' {
        0
    } else if dots_in(p.drop_last()) == 0 {
        0
    } else {
        scale_of(p.drop_last()) + 1
    }
}

/// A well-formed numeric prefix: at least one digit, at most one dot.
pub open spec fn wf_number(p: Seq<char>) -> bool {
    &&& p.len() - dots_in(p) >= 1
    &&& dots_in(p) <= 1
}

/// The unit named by a literal's suffix, if the suffix is recognized.
pub open spec fn spec_unit_of(s: Seq<char>) -> Option<Unit> {
    if s =~= Seq::<char>::empty() {
        Some(Unit::Plain)
    } else if s =~= "%"@ {
        Some(Unit::Percent)
    } else if s =~= "px"@ {
        Some(Unit::Px)
    } else if s =~= "phx"@ {
        Some(Unit::Phx)
    } else if s =~= "s"@ {
        Some(Unit::S)
    } else if s =~= "ms"@ {
        Some(Unit::Ms)
    } else {
        None
    }
}

/// What `parse_number_literal` returns on every input: the numeric prefix
/// must be a well-formed decimal whose digits fit the mantissa, and the
/// rest of the text must name a unit.
pub open spec fn spec_parse_number(s: Seq<char>) -> Result<(NumberValue, Unit), NumberLiteralError> {
    let p = s.subrange(0, numeric_prefix_end(s));
    let suffix = s.subrange(numeric_prefix_end(s), s.len() as int);
    if !wf_number(p) || mantissa_of(p) > u64::MAX {
        Err(NumberLiteralError::CannotParse)
    } else {
        match spec_unit_of(suffix) {
            Option::None => Err(NumberLiteralError::InvalidUnit),
            Option::Some(u) => Ok(
                (
                    NumberValue {
                        mantissa: mantissa_of(p) as u64,
                        scale: scale_of(p) as usize,
                    },
                    u,
                ),
            ),
        }
    }
}

/// Recognize a unit suffix.
fn unit_of(s: &str) -> (r: Option<Unit>)
    ensures
        r == spec_unit_of(s@),
{
    if s.unicode_len() == 0 {
        proof {
            assert(s@ =~= Seq::<char>::empty());
        }
        Some(Unit::Plain)
    } else if str_eq(s, "%") {
        Some(Unit::Percent)
    } else if str_eq(s, "px") {
        Some(Unit::Px)
    } else if str_eq(s, "phx") {
        Some(Unit::Phx)
    } else if str_eq(s, "s") {
        Some(Unit::S)
    } else if str_eq(s, "ms") {
        Some(Unit::Ms)
    } else {
        proof {
            assert(!(s@ =~= Seq::<char>::empty()));
        }
        None
    }
}

proof fn lemma_mantissa_nonneg(p: Seq<char>)
    requires
        forall|j: int| 0 <= j < p.len() ==> is_numeric_char(#[trigger] p[j]),
    ensures
        mantissa_of(p) >= 0,
    decreases p.len(),
{
    if p.len() > 0 {
        lemma_mantissa_nonneg(p.drop_last());
    }
}

/// Growing a numeric prefix never shrinks its mantissa.
proof fn lemma_mantissa_monotone(p: Seq<char>, i: int)
    requires
        0 <= i <= p.len(),
        forall|j: int| 0 <= j < p.len() ==> is_numeric_char(#[trigger] p[j]),
    ensures
        mantissa_of(p) >= mantissa_of(p.subrange(0, i)),
    decreases p.len() - i,
{
    if i < p.len() {
        let q = p.subrange(0, i + 1);
        assert(q.drop_last() =~= p.subrange(0, i));
        lemma_mantissa_nonneg(p.subrange(0, i));
        lemma_mantissa_monotone(p, i + 1);
    } else {
        assert(p.subrange(0, i) =~= p);
    }
}

/// Length of the leading run of digits and dots of `s`.
fn numeric_prefix_len(s: &str) -> (r: usize)
    ensures
        r == numeric_prefix_end(s@),
{
    proof {
        lemma_numeric_prefix_end(s@);
    }
    let n: usize = s.unicode_len();
    let mut i: usize = 0;
    while i < n
        invariant
            0 <= i <= n,
            n == s@.len(),
            forall|j: int| 0 <= j < i ==> is_numeric_char(#[trigger] s@[j]),
            i <= numeric_prefix_end(s@),
            0 <= numeric_prefix_end(s@) <= n,
            forall|j: int| 0 <= j < numeric_prefix_end(s@) ==> is_numeric_char(#[trigger] s@[j]),
            numeric_prefix_end(s@) < n ==> !is_numeric_char(s@[numeric_prefix_end(s@)]),
        decreases n - i,
    {
        let c = s.get_char(i);
        if !(('0' <= c && c <= '9') || c == '.') {
            return i;
        }
        i += 1;
    }
    i
}

/// Split a number literal into its numeric value and its unit suffix.
///
/// The numeric prefix is the leading run of digits and dots.  It parses
/// when it holds at least one digit, at most one dot, and its digits fit
/// a 64-bit mantissa; anything after it must be a recognized unit.  The
/// mantissa bound is a machine limit of the exact-decimal value model:
/// a literal whose digits overflow it is rejected as unparsable rather
/// than rounded.
pub fn parse_number_literal(s: &str) -> (r: Result<(NumberValue, Unit), NumberLiteralError>)
    ensures
        r == spec_parse_number(s@),
{
    proof {
        lemma_numeric_prefix_end(s@);
    }
    let n: usize = s.unicode_len();
    let end: usize = numeric_prefix_len(s);
    let ghost pe = numeric_prefix_end(s@);
    let ghost p = s@.subrange(0, pe);

    let mut mantissa: u64 = 0;
    let mut scale: usize = 0;
    let mut dots: usize = 0;
    let mut digits: usize = 0;
    let mut i: usize = 0;
    // Accumulate the mantissa left to right over the numeric prefix.
    while i < end
        invariant
            0 <= i <= end,
            end == pe,
            n == s@.len(),
            pe == numeric_prefix_end(s@),
            p == s@.subrange(0, pe),
            0 <= pe <= n,
            forall|j: int| 0 <= j < pe ==> is_numeric_char(#[trigger] s@[j]),
            dots == dots_in(s@.subrange(0, i as int)),
            dots <= i,
            mantissa == mantissa_of(s@.subrange(0, i as int)),
            scale == scale_of(s@.subrange(0, i as int)),
            scale <= i,
            digits == i - dots,
        decreases end - i,
    {
        let c = s.get_char(i);
        let ghost pre = s@.subrange(0, i as int);
        let ghost post = s@.subrange(0, i + 1 as int);
        proof {
            assert(post.drop_last() =~= pre);
            assert(post.last() == s@[i as int]);
        }
        if c == '.' {
            dots = dots + 1;
            scale = 0;
        } else {
            if mantissa > 0xFFFF_FFFF_FFFF_FFFFu64 / 10
                || mantissa * 10 > 0xFFFF_FFFF_FFFF_FFFFu64 - ((c as u64) - 48)
            {
                // The digits overflow the mantissa: the literal cannot be
                // represented, which is a parse failure.
                proof {
                    assert(mantissa_of(post) > u64::MAX);
                    lemma_mantissa_monotone(p, i + 1);
                    assert(p.subrange(0, i + 1 as int) =~= post);
                    assert(mantissa_of(p) > u64::MAX);
                }
                return Err(NumberLiteralError::CannotParse);
            }
            mantissa = mantissa * 10 + ((c as u64) - 48);
            if dots > 0 {
                scale = scale + 1;
            }
            digits = digits + 1;
        }
        i += 1;
    }
    proof {
        assert(s@.subrange(0, i as int) == p);
    }
    if digits == 0 || dots > 1 {
        return Err(NumberLiteralError::CannotParse);
    }
    let suffix: &str = s.substring_char(i, n);
    proof {
        assert(suffix@ =~= s@.subrange(pe, n as int));
    }
    match unit_of(suffix) {
        Option::Some(u) => Ok((NumberValue { mantissa, scale }, u)),
        Option::None => Err(NumberLiteralError::InvalidUnit),
    }
}

/// Strip the surrounding double quotes of a string literal.  Escape
/// sequences are passed through unchanged.
pub fn unescape_string(s: &str) -> (r: Option<String>)
    ensures
        match r {
            Option::Some(out) => s@.len() >= 2 && s@[0] == '"' && s@.last() == '"' && out@
                == s@.subrange(1, s@.len() - 1),
            Option::None => s@.len() < 2 || s@[0] != '"' || s@.last() != '"',
        },
{
    let n: usize = s.unicode_len();
    if n < 2 {
        return Option::None;
    }
    if s.get_char(0) != '"' || s.get_char(n - 1) != '"' {
        return Option::None;
    }
    let inner: &str = s.substring_char(1, n - 1);
    Option::Some(String::from_str(inner))
}


/// A hexadecimal digit, either case.
pub open spec fn is_hex_digit_char(c: char) -> bool {
    is_digit_char(c) || ('a' <= c && c <= 'f') || ('A' <= c && c <= 'F')
}

pub open spec fn hex_val(c: char) -> int {
    if is_digit_char(c) {
        c as int - 48
    } else if 'a' <= c && c <= 'f' {
        c as int - 87
    } else {
        c as int - 55
    }
}

/// One hex digit at position `i`, doubled into a full byte (`a` -> `aa`).
pub open spec fn hex_single(s: Seq<char>, i: int) -> Option<int> {
    if is_hex_digit_char(s[i]) {
        Some(hex_val(s[i]) * 17)
    } else {
        None
    }
}

/// Two hex digits at positions `i`, `i + 1` read as one byte.
pub open spec fn hex_pair(s: Seq<char>, i: int) -> Option<int> {
    if is_hex_digit_char(s[i]) && is_hex_digit_char(s[i + 1]) {
        Some(hex_val(s[i]) * 16 + hex_val(s[i + 1]))
    } else {
        None
    }
}

/// Pack four channel bytes as `0xAARRGGBB`.
pub open spec fn pack_argb(r: Option<int>, g: Option<int>, b: Option<int>, a: Option<int>) -> Option<
    u32,
> {
    if r is Some && g is Some && b is Some && a is Some {
        Some(
            (a->Some_0 * 0x1000000 + r->Some_0 * 0x10000 + g->Some_0 * 0x100 + b->Some_0) as u32,
        )
    } else {
        None
    }
}

/// What `parse_color_literal` returns: `#rgb`, `#rgba`, `#rrggbb` and
/// `#rrggbbaa` forms, case-insensitive, packed as `0xAARRGGBB`; any other
/// shape yields nothing.
pub open spec fn spec_parse_color(s: Seq<char>) -> Option<u32> {
    if s.len() == 0 || s[0] != '#' {
        None
    } else {
        let b = s.drop_first();
        if b.len() == 3 {
            pack_argb(hex_single(b, 0), hex_single(b, 1), hex_single(b, 2), Some(255int))
        } else if b.len() == 4 {
            pack_argb(hex_single(b, 0), hex_single(b, 1), hex_single(b, 2), hex_single(b, 3))
        } else if b.len() == 6 {
            pack_argb(hex_pair(b, 0), hex_pair(b, 2), hex_pair(b, 4), Some(255int))
        } else if b.len() == 8 {
            pack_argb(hex_pair(b, 0), hex_pair(b, 2), hex_pair(b, 4), hex_pair(b, 6))
        } else {
            None
        }
    }
}

/// The value of one hex digit, if `c` is one.
fn hex_digit(c: char) -> (r: Option<u8>)
    ensures
        is_hex_digit_char(c) ==> r == Some(hex_val(c) as u8) && hex_val(c) < 16,
        !is_hex_digit_char(c) ==> r is None,
{
    if '0' <= c && c <= '9' {
        Some((c as u8) - 48)
    } else if 'a' <= c && c <= 'f' {
        Some((c as u8) - 87)
    } else if 'A' <= c && c <= 'F' {
        Some((c as u8) - 55)
    } else {
        None
    }
}

/// One doubled hex digit of the literal body (positions count from the `#`).
fn exec_hex_single(s: &str, i: usize) -> (r: Option<u8>)
    requires
        1 <= i < s@.len(),
    ensures
        match hex_single(s@.drop_first(), i - 1) {
            Some(v) => r == Some(v as u8) && 0 <= v < 256,
            None => r is None,
        },
{
    proof {
        assert(s@.drop_first()[i - 1] == s@[i as int]);
    }
    match hex_digit(s.get_char(i)) {
        Some(v) => Some(v * 17),
        None => None,
    }
}

/// One byte of the literal body from two hex digits.
fn exec_hex_pair(s: &str, i: usize) -> (r: Option<u8>)
    requires
        1 <= i,
        i + 1 < s@.len(),
        s@.len() <= usize::MAX,
    ensures
        match hex_pair(s@.drop_first(), i - 1) {
            Some(v) => r == Some(v as u8) && 0 <= v < 256,
            None => r is None,
        },
{
    proof {
        assert(s@.drop_first()[i - 1] == s@[i as int]);
        assert(s@.drop_first()[i as int] == s@[i + 1]);
    }
    match (hex_digit(s.get_char(i)), hex_digit(s.get_char(i + 1))) {
        (Some(hi), Some(lo)) => Some(hi * 16 + lo),
        _ => None,
    }
}

/// Pack the four channels; any missing channel fails the whole literal.
fn exec_pack(r: Option<u8>, g: Option<u8>, b: Option<u8>, a: Option<u8>) -> (out: Option<u32>)
    ensures
        match (r, g, b, a) {
            (Some(rv), Some(gv), Some(bv), Some(av)) => out == Some(
                ((av as u32) * 0x1000000 + (rv as u32) * 0x10000 + (gv as u32) * 0x100 + (
                bv as u32)) as u32,
            ),
            _ => out is None,
        },
{
    match (r, g, b, a) {
        (Some(rv), Some(gv), Some(bv), Some(av)) => Some(
            (av as u32) * 0x1000000 + (rv as u32) * 0x10000 + (gv as u32) * 0x100 + (bv as u32),
        ),
        _ => None,
    }
}

/// Parse a hash-prefixed color literal into its packed `0xAARRGGBB` value.
///
/// `#rgb` and `#rgba` double each digit; `#rrggbb` and `#rrggbbaa` read
/// byte pairs; a missing alpha channel is opaque.  Anything else - wrong
/// length, a character that is no hex digit, no leading `#` - is rejected.
pub fn parse_color_literal(s: &str) -> (r: Option<u32>)
    ensures
        r == spec_parse_color(s@),
{
    let n: usize = s.unicode_len();
    if n == 0 || s.get_char(0) != '#' {
        return None;
    }
    let body: usize = n - 1;
    if body == 3 {
        exec_pack(
            exec_hex_single(s, 1),
            exec_hex_single(s, 2),
            exec_hex_single(s, 3),
            Some(255),
        )
    } else if body == 4 {
        exec_pack(
            exec_hex_single(s, 1),
            exec_hex_single(s, 2),
            exec_hex_single(s, 3),
            exec_hex_single(s, 4),
        )
    } else if body == 6 {
        exec_pack(exec_hex_pair(s, 1), exec_hex_pair(s, 3), exec_hex_pair(s, 5), Some(255))
    } else if body == 8 {
        exec_pack(
            exec_hex_pair(s, 1),
            exec_hex_pair(s, 3),
            exec_hex_pair(s, 5),
            exec_hex_pair(s, 7),
        )
    } else {
        None
    }
}

} // verus!
