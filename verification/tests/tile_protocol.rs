use rio_tiles::protocol::{parse, parse_kind, parse_shader, FloatText, TileCommand, TileKind, TileShader, TileSpec};
use rio_tiles::text::{check_float_literal, parse_unsigned};

/// The number a float field holds, read the way the renderer reads it.
fn value(t: &FloatText) -> f32 {
    std::str::from_utf8(&t.text).unwrap().parse().unwrap()
}

fn insert(input: &[u8]) -> TileSpec {
    match parse(input) {
        Some(TileCommand::Insert(spec)) => spec,
        other => panic!("expected Insert, got {:?}", other),
    }
}

#[test]
fn parse_heat_equation_tile() {
    let input = b"Tile=shader:heat_equation,x:100,y:50,w:256,h:256";
    let cmd = parse(input).unwrap();
    match cmd {
        TileCommand::Insert(spec) => {
            assert_eq!(spec.shader, TileShader::HeatEquation);
            assert_eq!(value(&spec.x), 100.0);
            assert_eq!(value(&spec.y), 50.0);
            assert_eq!(value(&spec.width), 256.0);
            assert_eq!(value(&spec.height), 256.0);
        }
        _ => panic!("expected Insert"),
    }
}

#[test]
fn parse_heat_shorthand() {
    let input = b"Tile=shader:heat,x:0,y:0,w:128,h:128,r:0.8,g:0.2,b:0.1";
    let cmd = parse(input).unwrap();
    match cmd {
        TileCommand::Insert(spec) => {
            assert_eq!(spec.shader, TileShader::HeatEquation);
            assert_eq!(value(&spec.custom[0]), 0.8);
            assert_eq!(value(&spec.custom[1]), 0.2);
            assert_eq!(value(&spec.custom[2]), 0.1);
        }
        _ => panic!("expected Insert"),
    }
}

#[test]
fn parse_clear() {
    let input = b"Tile=clear";
    assert_eq!(parse(input), Some(TileCommand::Clear));
}

#[test]
fn parse_remove() {
    let input = b"Tile=remove:42";
    assert_eq!(parse(input), Some(TileCommand::Remove(42)));
}

#[test]
fn default_spec_values() {
    let spec = TileSpec::default();
    assert_eq!(spec.id, 0);
    assert_eq!(spec.shader, TileShader::Plasma);
    assert_eq!(spec.kind, TileKind::Persistent);
    assert_eq!(value(&spec.x), 0.0);
    assert_eq!(value(&spec.y), 0.0);
    assert_eq!(value(&spec.width), 256.0);
    assert_eq!(value(&spec.height), 256.0);
    assert_eq!(value(&spec.time_offset), 0.0);
    for c in spec.custom.iter() {
        assert_eq!(value(c), 1.0);
    }
}

#[test]
fn parameters_not_given_keep_defaults() {
    let spec = insert(b"Tile=shader:clock");
    assert_eq!(spec.shader, TileShader::Clock);
    assert_eq!(value(&spec.width), 256.0);
    assert_eq!(value(&spec.custom[3]), 1.0);
    assert_eq!(spec.kind, TileKind::Persistent);
}

#[test]
fn all_parameters() {
    let spec = insert(b"Tile=id:7,kind:transient,shader:noise,time_offset:1.5,a:0.25,x:-3,y:+4");
    assert_eq!(spec.id, 7);
    assert_eq!(spec.kind, TileKind::Transient);
    assert_eq!(spec.shader, TileShader::Noise);
    assert_eq!(value(&spec.time_offset), 1.5);
    assert_eq!(value(&spec.custom[3]), 0.25);
    assert_eq!(value(&spec.x), -3.0);
    assert_eq!(value(&spec.y), 4.0);
}

#[test]
fn later_parameter_overrides_earlier() {
    let spec = insert(b"Tile=x:1,x:2,id:3,id:9");
    assert_eq!(value(&spec.x), 2.0);
    assert_eq!(spec.id, 9);
}

#[test]
fn every_float_value_is_checked_even_when_overridden() {
    assert_eq!(parse(b"Tile=x:oops,x:2"), None);
}

#[test]
fn unknown_keys_are_ignored() {
    assert_eq!(parse(b"Tile=x:1,foo:bar"), parse(b"Tile=x:1"));
    let spec = insert(b"Tile=colour:red,w:10");
    assert_eq!(value(&spec.width), 10.0);
}

#[test]
fn refused_inputs() {
    assert_eq!(parse(b"tile=clear"), None);
    assert_eq!(parse(b"Tile"), None);
    assert_eq!(parse(b"Tile="), None);
    assert_eq!(parse(b"Tile=x:1,"), None);
    assert_eq!(parse(b"Tile=x"), None);
    assert_eq!(parse(b"Tile=x:1:2"), None);
    assert_eq!(parse(b"Tile=x:"), None);
    assert_eq!(parse(b"Tile=shader:mandelbrot"), None);
    assert_eq!(parse(b"Tile=kind:forever"), None);
    assert_eq!(parse(b"Tile=id:-1"), None);
    assert_eq!(parse(b"Tile=id:18446744073709551616"), None);
    assert_eq!(parse(b"Tile=remove:"), None);
    assert_eq!(parse(b"Tile=remove:abc"), None);
    assert_eq!(parse(b"Tile=clear,x:1"), None);
    assert_eq!(parse(b"Tile=clear "), None);
}

#[test]
fn invalid_utf8_is_refused() {
    assert_eq!(parse(b"Tile=foo:\xff"), None);
    assert_eq!(parse(b"Tile=foo:\xc0\x80"), None);
    assert_eq!(parse(b"Tile=foo:\xed\xa0\x80"), None);
    let spec = insert("Tile=label:caf\u{e9},w:2".as_bytes());
    assert_eq!(value(&spec.width), 2.0);
}

#[test]
fn remove_forms() {
    assert_eq!(parse(b"Tile=remove:+7"), Some(TileCommand::Remove(7)));
    assert_eq!(parse(b"Tile=remove:0"), Some(TileCommand::Remove(0)));
    assert_eq!(parse(b"Tile=remove:18446744073709551615"), Some(TileCommand::Remove(u64::MAX)));
}

#[test]
fn shader_names_and_numbers() {
    assert_eq!(parse_shader(b"plasma"), Some(TileShader::Plasma));
    assert_eq!(parse_shader(b"clock"), Some(TileShader::Clock));
    assert_eq!(parse_shader(b"noise"), Some(TileShader::Noise));
    assert_eq!(parse_shader(b"heat"), Some(TileShader::HeatEquation));
    assert_eq!(parse_shader(b"heat_equation"), Some(TileShader::HeatEquation));
    assert_eq!(parse_shader(b"heateq"), Some(TileShader::HeatEquation));
    assert_eq!(parse_shader(b"12"), Some(TileShader::Custom(12)));
    assert_eq!(parse_shader(b"4294967295"), Some(TileShader::Custom(u32::MAX)));
    assert_eq!(parse_shader(b"4294967296"), None);
    assert_eq!(parse_shader(b"Plasma"), None);
    assert_eq!(parse_shader(b""), None);
}

#[test]
fn kind_names() {
    assert_eq!(parse_kind(b"persistent"), Some(TileKind::Persistent));
    assert_eq!(parse_kind(b"transient"), Some(TileKind::Transient));
    assert_eq!(parse_kind(b"Transient"), None);
    assert_eq!(parse_kind(b""), None);
}

#[test]
fn unsigned_numbers_match_std() {
    let cases = [
        "0", "7", "+7", "-7", "", "+", "00012", "18446744073709551615", "18446744073709551616",
        "1_000", " 1", "1 ", "99999999999999999999999", "4294967295", "4294967296",
    ];
    for c in cases {
        assert_eq!(parse_unsigned(c.as_bytes(), u64::MAX), c.parse::<u64>().ok(), "u64 {:?}", c);
        assert_eq!(
            parse_unsigned(c.as_bytes(), u32::MAX as u64),
            c.parse::<u32>().ok().map(|v| v as u64),
            "u32 {:?}",
            c
        );
    }
}

#[test]
fn float_literals_match_std() {
    let cases = [
        "0", "1", "-1", "+1", "1.", ".5", "1.5", "-.5", ".", "-.", "", "-", "+", "1e5", "1E5",
        "1e+5", "1e-5", "1e", "e5", ".e1", "1.e1", ".5e1", "1.5.2", "1e5e5", "inf", "-inf",
        "+Infinity", "INF", "nan", "NaN", "-nan", "infinit", "infinityy", "nanx", "0x10",
        " 1", "1 ", "1,5", "1_0", "--1", "+-1", "1e--5", "12345678901234567890",
    ];
    for c in cases {
        assert_eq!(check_float_literal(c.as_bytes()), c.parse::<f32>().is_ok(), "{:?}", c);
    }
}

#[test]
fn parsed_float_fields_always_convert() {
    let spec = insert(b"Tile=x:1e3,y:-.5,w:inf,h:NaN,time_offset:+7.,r:0,g:1E-2,b:2,a:3");
    for t in [&spec.x, &spec.y, &spec.width, &spec.height, &spec.time_offset]
        .into_iter()
        .chain(spec.custom.iter())
    {
        assert!(std::str::from_utf8(&t.text).unwrap().parse::<f32>().is_ok());
    }
    assert_eq!(value(&spec.x), 1000.0);
    assert!(value(&spec.width).is_infinite());
    assert!(value(&spec.height).is_nan());
}

#[test]
fn unsigned_numbers_with_a_small_limit() {
    assert_eq!(parse_unsigned(b"3", 5), Some(3));
    assert_eq!(parse_unsigned(b"5", 5), Some(5));
    assert_eq!(parse_unsigned(b"7", 5), None);
    assert_eq!(parse_unsigned(b"10", 5), None);
    assert_eq!(parse_unsigned(b"0", 0), Some(0));
    assert_eq!(parse_unsigned(b"1", 0), None);
}
