use pyre::io::pbrt::lexer::tokenize;
use pyre::io::pbrt::parser::{
    is_float_type, parse, split_param_header, Number, ParamValues, ParseError, PositionalArg,
};
use pyre::io::pbrt::lexer::Pos;

fn num(n: &Number) -> f64 {
    match n {
        Number::Int(i) => *i as f64,
        Number::Float(s) => s.parse().unwrap(),
    }
}

#[test]
fn parses_lookat() {
    let toks = tokenize("LookAt 3 4 1.5 0.5 0.5 0 0 1 0").unwrap();
    let dirs = parse(&toks).unwrap();
    assert_eq!(dirs.len(), 1);
    assert_eq!(dirs[0].keyword, "LookAt");
    assert_eq!(dirs[0].positional.len(), 9);
    match &dirs[0].positional[0] {
        PositionalArg::Float(v) => assert!((num(v) - 3.0).abs() < 1e-6),
        _ => panic!(),
    }
}

#[test]
fn parses_camera_with_param() {
    let toks = tokenize(r#"Camera "perspective" "float fov" [39]"#).unwrap();
    let dirs = parse(&toks).unwrap();
    let d = &dirs[0];
    assert_eq!(d.keyword, "Camera");
    assert_eq!(d.positional.len(), 1);
    assert_eq!(d.params.len(), 1);
    assert_eq!(d.params[0].name, "fov");
    assert_eq!(d.params[0].param_type, "float");
    // `"float fov" [39]`: the bare integer is read as a number because the
    // type tag is float-class.
    match &d.params[0].values {
        ParamValues::Floats(v) => {
            let f: Vec<f64> = v.iter().map(num).collect();
            assert_eq!(f, vec![39.0]);
        }
        other => panic!("got {other:?}"),
    }
}

#[test]
fn parses_two_directives() {
    let toks = tokenize(
        r#"LookAt 0 0 3 0 0 0 0 1 0
               Camera "perspective" "float fov" [45]"#,
    )
    .unwrap();
    let dirs = parse(&toks).unwrap();
    assert_eq!(dirs.len(), 2);
    assert_eq!(dirs[0].keyword, "LookAt");
    assert_eq!(dirs[1].keyword, "Camera");
}

#[test]
fn parses_mixed_int_float_as_floats() {
    let toks = tokenize(r#"X "rgb Kd" [0.5 0 1]"#).unwrap();
    let dirs = parse(&toks).unwrap();
    match &dirs[0].params[0].values {
        ParamValues::Floats(v) => assert_eq!(v.len(), 3),
        other => panic!("got {other:?}"),
    }
}

#[test]
fn integer_params_keep_integers() {
    let toks = tokenize(r#"Shape "trianglemesh" "integer indices" [0 1 2]"#).unwrap();
    let dirs = parse(&toks).unwrap();
    match &dirs[0].params[0].values {
        ParamValues::Ints(v) => assert_eq!(v, &vec![0, 1, 2]),
        other => panic!("got {other:?}"),
    }
    assert_eq!(dirs[0].describe(), "Shape (line 1)");
}

#[test]
fn ints_after_floats_and_floats_after_ints_are_numbers() {
    let toks = tokenize(r#"X "integer a" [1 2.5 3]"#).unwrap();
    let dirs = parse(&toks).unwrap();
    match &dirs[0].params[0].values {
        ParamValues::Floats(v) => {
            let f: Vec<f64> = v.iter().map(num).collect();
            assert_eq!(f, vec![1.0, 2.5, 3.0]);
        }
        other => panic!("got {other:?}"),
    }
}

#[test]
fn bare_param_value_and_string_params() {
    let toks = tokenize(r#"Film "image" "float fov" 39 "string filename" "out.exr""#).unwrap();
    let dirs = parse(&toks).unwrap();
    let d = &dirs[0];
    assert_eq!(d.params.len(), 2);
    assert_eq!(d.params[1].as_strings().unwrap(), &["out.exr".to_string()]);
    assert_eq!(d.params[0].as_floats().map(|v| v.len()), Some(1));
    assert!(d.params[0].as_ints().is_none());
}

#[test]
fn header_is_split_on_first_whitespace_and_trimmed() {
    let toks = tokenize("X \"point3   P  \" [1 2 3]").unwrap();
    let dirs = parse(&toks).unwrap();
    assert_eq!(dirs[0].params[0].param_type, "point3");
    assert_eq!(dirs[0].params[0].name, "P");
    // A leading space splits off an empty type name.
    let toks = tokenize("X \"  point3 P\" [1 2 3]").unwrap();
    assert!(matches!(parse(&toks), Err(ParseError::BadParamHeader { .. })));
}

#[test]
fn array_positional() {
    let toks = tokenize("Transform [1 0 0 0 0 1 0 0 0 0 1 0 0 0 0 1]").unwrap();
    let dirs = parse(&toks).unwrap();
    match &dirs[0].positional[0] {
        PositionalArg::FloatArray(a) => assert_eq!(a.len(), 16),
        other => panic!("got {other:?}"),
    }
}

#[test]
fn parse_errors() {
    let e = parse(&tokenize(r#"[ 1 ]"#).unwrap()).unwrap_err();
    assert!(matches!(e, ParseError::Expected { ref expected, ref found, .. } if expected == "directive keyword" && found == "`[`"));
    let e = parse(&tokenize(r#"X ]"#).unwrap()).unwrap_err();
    assert!(matches!(e, ParseError::Expected { ref expected, .. } if expected == "directive arg"));
    let e = parse(&tokenize(r#"X "float a" [1 "s"]"#).unwrap()).unwrap_err();
    assert!(matches!(e, ParseError::MixedTypes { pos } if pos.col == 16));
    let e = parse(&tokenize(r#"X "float a" [1 2"#).unwrap()).unwrap_err();
    assert!(matches!(e, ParseError::Eof { pos } if pos.col == 16));
    let e = parse(&tokenize(r#"X "float a" []"#).unwrap()).unwrap_err();
    assert!(matches!(e, ParseError::Expected { ref found, .. } if found == "(empty)"));
    let e = parse(&tokenize(r#"X " a" [1]"#).unwrap()).unwrap_err();
    assert!(matches!(e, ParseError::BadParamHeader { ref raw, .. } if raw == " a"));
    let e = parse(&tokenize(r#"X [1 "s"]"#).unwrap()).unwrap_err();
    assert!(matches!(e, ParseError::Expected { ref expected, ref found, .. } if expected == "number or `]`" && found == "string"));
}

#[test]
fn float_class_types() {
    for t in ["float", "rgb", "color", "spectrum", "blackbody", "point", "point2", "point3",
              "vector", "vector2", "vector3", "normal", "normal3", "xyz"] {
        assert!(is_float_type(t), "{t}");
    }
    for t in ["integer", "string", "bool", "texture", "Float", ""] {
        assert!(!is_float_type(t), "{t}");
    }
}

#[test]
fn param_headers_split_at_whitespace() {
    let pos = Pos { line: 4, col: 2 };
    assert_eq!(
        split_param_header("float fov", pos).unwrap(),
        ("float".to_string(), "fov".to_string())
    );
    assert_eq!(
        split_param_header("rgb\t Kd  ", pos).unwrap(),
        ("rgb".to_string(), "Kd".to_string())
    );
    // Leading whitespace leaves the type empty.
    assert!(split_param_header("  rgb Kd", pos).is_err());
    match split_param_header("float ", pos) {
        Err(ParseError::BadParamHeader { pos: p, raw }) => {
            assert_eq!((p.line, p.col), (4, 2));
            assert_eq!(raw, "float ");
        }
        other => panic!("got {other:?}"),
    }
    assert!(split_param_header("fov", pos).is_err());
}
