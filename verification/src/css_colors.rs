use vstd::prelude::*;

verus! {

/// The CSS3 named-color table as a function: red, green, blue, and the
/// alpha channel truncated to a whole number.
pub uninterp spec fn named_color_lookup(name: Seq<char>) -> Option<(u8, u8, u8, u32)>;

/// Relies on css_color_parser2::NAMED_COLORS, the fixed table of CSS3
/// named colors; the result depends on the name alone.  The truncated
/// alpha is 0 or 1: the table holds alpha 0.0 only for `transparent`
/// and 1.0 for every other entry.
#[verifier::external_body]
pub fn lookup_named_color(name: &str) -> (r: Option<(u8, u8, u8, u32)>)
    ensures
        r == named_color_lookup(name@),
        r matches Some(c) ==> c.3 <= 1,
{
    css_color_parser2::NAMED_COLORS.get(name).map(|c| (c.r, c.g, c.b, c.a as u32))
}

/// Pack a named color's channels the way a color literal is packed:
/// `0xAARRGGBB`, the alpha byte scaled from the truncated alpha.
pub open spec fn spec_named_color_value(c: (u8, u8, u8, u32)) -> u32 {
    ((c.3 * 255) * 0x1000000 + c.0 * 0x10000 + c.1 * 0x100 + c.2) as u32
}

/// The packed `0xAARRGGBB` value of a named color, if the name is known.
pub fn named_color_value(name: &str) -> (r: Option<u32>)
    ensures
        r == match named_color_lookup(name@) {
            Some(c) => Some(spec_named_color_value(c)),
            None => None::<u32>,
        },
{
    match lookup_named_color(name) {
        Some((red, green, blue, alpha)) => {
            let v: u32 = (alpha * 255) * 0x1000000 + (red as u32) * 0x10000 + (green as u32) * 0x100
                + (blue as u32);
            Some(v)
        },
        None => None,
    }
}

} // verus!
