use binding_resolver::literals::parse_color_literal;
use binding_resolver::literals::parse_number_literal;
use binding_resolver::literals::unescape_string;
use binding_resolver::literals::Unit;

#[test]
fn test_parse_color_literal() {
    assert_eq!(parse_color_literal("#abc"), Some(0xffaabbcc));
    assert_eq!(parse_color_literal("#ABC"), Some(0xffaabbcc));
    assert_eq!(parse_color_literal("#AbC"), Some(0xffaabbcc));
    assert_eq!(parse_color_literal("#AbCd"), Some(0xddaabbcc));
    assert_eq!(parse_color_literal("#01234567"), Some(0x67012345));
    assert_eq!(parse_color_literal("#012345"), Some(0xff012345));
    assert_eq!(parse_color_literal("_01234567"), None);
    assert_eq!(parse_color_literal("→↓←"), None);
    assert_eq!(parse_color_literal("#→↓←"), None);
    assert_eq!(parse_color_literal("#1234567890"), None);
}

#[test]
fn test_parse_number_literal() {
    fn doit(s: &str) -> Result<(f64, Unit), String> {
        parse_number_literal(s)
            .map(|(v, u)| (v.mantissa as f64 / 10f64.powi(v.scale as i32), u))
            .map_err(|e| {
                let m = e.message();
                let mut out = String::new();
                out.push_str(&m);
                out
            })
    }

    assert_eq!(doit("10"), Ok((10., Unit::Plain)));
    assert_eq!(doit("10phx"), Ok((10., Unit::Phx)));
    assert_eq!(doit("10.0phx"), Ok((10., Unit::Phx)));
    assert_eq!(doit("10.0"), Ok((10., Unit::Plain)));
    assert_eq!(doit("1.1phx"), Ok((1.1, Unit::Phx)));
    assert_eq!(doit("10.10"), Ok((10.10, Unit::Plain)));
    assert_eq!(doit("10000000"), Ok((10000000., Unit::Plain)));
    assert_eq!(doit("10000001phx"), Ok((10000001., Unit::Phx)));

    let wrong_unit = Err("Invalid unit".to_owned());
    let cannot_parse = Err("Cannot parse number literal".to_owned());
    assert_eq!(doit("10000001 phx"), wrong_unit);
    assert_eq!(doit("12.10.12phx"), cannot_parse);
    assert_eq!(doit("12.12oo"), wrong_unit);
    assert_eq!(doit("12.12€"), wrong_unit);
}

#[test]
fn number_literal_units_and_percent() {
    let (v, u) = parse_number_literal("30%").unwrap();
    assert_eq!(v.mantissa, 30);
    assert_eq!(v.scale, 0);
    assert_eq!(u, Unit::Percent);
    let (v, u) = parse_number_literal("250ms").unwrap();
    assert_eq!(v.mantissa, 250);
    assert_eq!(u, Unit::Ms);
    let (_, u) = parse_number_literal("2s").unwrap();
    assert_eq!(u, Unit::S);
    let (_, u) = parse_number_literal("12px").unwrap();
    assert_eq!(u, Unit::Px);
}

#[test]
fn string_literal_unescape() {
    assert_eq!(unescape_string("\"hello\"").as_deref(), Some("hello"));
    assert_eq!(unescape_string("\"\"").as_deref(), Some(""));
    assert_eq!(unescape_string("hello"), None);
    assert_eq!(unescape_string("\"unterminated"), None);
}
