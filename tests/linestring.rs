use wkt::{Coord, Dimension, Geometry, LineString, ParseError, Token, Wkt};

#[test]
fn basic_linestring() {
    let wkt: Wkt<f64> = Wkt::from_str("LINESTRING (10 -20, -0 -0.5)").ok().unwrap();
    let coords = match wkt.item {
        Geometry::LineString(LineString(coords)) => coords,
        _ => unreachable!(),
    };
    assert_eq!(2, coords.len());

    assert_eq!(10.0, coords[0].x);
    assert_eq!(-20.0, coords[0].y);
    assert_eq!(None, coords[0].z);
    assert_eq!(None, coords[0].m);

    assert_eq!(0.0, coords[1].x);
    assert_eq!(-0.5, coords[1].y);
    assert_eq!(None, coords[1].z);
    assert_eq!(None, coords[1].m);
}

#[test]
fn write_empty_linestring() {
    let linestring: LineString<f64> = LineString(vec![]);

    assert_eq!("LINESTRING EMPTY", linestring.wkt_string());
}

#[test]
fn write_linestring() {
    let linestring = LineString(vec![
        Coord {
            x: 10.1,
            y: 20.2,
            z: None,
            m: None,
        },
        Coord {
            x: 30.3,
            y: 40.4,
            z: None,
            m: None,
        },
    ]);

    assert_eq!("LINESTRING(10.1 20.2,30.3 40.4)", linestring.wkt_string());
}

#[test]
fn from_tokens_reads_empty() {
    let toks: Vec<Token<f64>> = vec![Token::Word(String::from("Empty"))];
    let (l, p) = LineString::from_tokens(&toks, 0, Dimension::XY).ok().unwrap();
    assert_eq!(0, l.0.len());
    assert_eq!(1, p);
}

#[test]
fn from_tokens_leaves_collection_close() {
    let toks: Vec<Token<f64>> = vec![Token::Word(String::from("EMPTY")), Token::ParenClose];
    let (l, p) = LineString::from_tokens(&toks, 0, Dimension::XY).ok().unwrap();
    assert_eq!(0, l.0.len());
    assert_eq!(1, p);
}

#[test]
fn from_tokens_list_and_errors() {
    let toks: Vec<Token<f64>> = vec![
        Token::ParenOpen,
        Token::Number(1.0),
        Token::Number(2.0),
        Token::Comma,
        Token::Number(3.0),
        Token::Number(4.0),
        Token::ParenClose,
    ];
    let (l, p) = LineString::from_tokens(&toks, 0, Dimension::XY).ok().unwrap();
    assert_eq!(7, p);
    assert_eq!(2, l.0.len());
    assert_eq!(3.0, l.0[1].x);
    assert_eq!(4.0, l.0[1].y);
    let bad: Vec<Token<f64>> = vec![
        Token::ParenOpen,
        Token::Number(1.0),
        Token::Number(2.0),
        Token::Comma,
        Token::ParenClose,
    ];
    assert_eq!(
        Err(ParseError::Mismatch),
        LineString::from_tokens(&bad, 0, Dimension::XY).map(|_| ())
    );
}

#[test]
fn written_linestring_reads_back() {
    let empty: LineString<f64> = LineString(vec![]);
    let toks = empty.to_tokens();
    let (back, _) = LineString::from_tokens(&toks, 1, Dimension::XY).ok().unwrap();
    assert_eq!(0, back.0.len());

    let ls = LineString(vec![
        Coord { x: 1.0, y: 2.0, z: None, m: Some(3.0) },
        Coord { x: 4.0, y: 5.0, z: None, m: Some(6.0) },
    ]);
    let toks = ls.to_tokens();
    let (back, p) = LineString::from_tokens(&toks, 2, Dimension::XYM).ok().unwrap();
    assert_eq!(toks.len(), p);
    assert_eq!(ls.0, back.0);
    let again: Wkt<f64> = Wkt::from_str(&ls.wkt_string()).ok().unwrap();
    match again.item {
        Geometry::LineString(LineString(cs)) => assert_eq!(ls.0, cs),
        _ => unreachable!(),
    }
}
