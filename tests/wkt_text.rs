use wkt::{
    Coord, Geometry, GeometryCollection, LineString, MultiPoint, ParseError, Point, Polygon, Wkt,
};

fn parse(s: &str) -> Result<Geometry<f64>, ParseError> {
    Wkt::from_str(s).map(|w| w.item)
}

fn text(s: &str) -> String {
    parse(s).ok().unwrap().wkt_string()
}

#[test]
fn parse_empty_linestring() {
    match parse("LINESTRING EMPTY").ok().unwrap() {
        Geometry::LineString(LineString(cs)) => assert_eq!(0, cs.len()),
        _ => unreachable!(),
    }
    assert_eq!("LINESTRING EMPTY", text("LINESTRING EMPTY"));
}

#[test]
fn keywords_ignore_case() {
    match parse("linestring Empty").ok().unwrap() {
        Geometry::LineString(LineString(cs)) => assert_eq!(0, cs.len()),
        _ => unreachable!(),
    }
    assert_eq!("POINT(1 2)", text("point (1 2)"));
}

#[test]
fn empty_forms_of_every_kind() {
    assert_eq!("POINT EMPTY", text("POINT EMPTY"));
    assert_eq!("POLYGON EMPTY", text("POLYGON EMPTY"));
    assert_eq!("GEOMETRYCOLLECTION EMPTY", text("GEOMETRYCOLLECTION EMPTY"));
    assert_eq!("LINESTRING EMPTY", text("LINESTRING Z EMPTY"));
}

#[test]
fn trailing_comma_is_mismatch() {
    assert_eq!(Err(ParseError::Mismatch), parse("LINESTRING(1 2,)").map(|_| ()));
    assert_eq!(Err(ParseError::Mismatch), parse("POLYGON((1 2,3 4,))").map(|_| ()));
    assert_eq!(Err(ParseError::Mismatch), parse("POLYGON((1 2,3 4),)").map(|_| ()));
    assert_eq!(Err(ParseError::Mismatch), parse("POINT(1 2,)").map(|_| ()));
    assert_eq!(
        Err(ParseError::Mismatch),
        parse("GEOMETRYCOLLECTION(POINT(1 2),)").map(|_| ())
    );
}

#[test]
fn empty_element_list_is_mismatch() {
    assert_eq!(Err(ParseError::Mismatch), parse("LINESTRING()").map(|_| ()));
    assert_eq!(Err(ParseError::Mismatch), parse("LINESTRING(1 2,,3 4)").map(|_| ()));
}

#[test]
fn unrecognized_keyword() {
    assert_eq!(
        Err(ParseError::UnrecognizedKeyword),
        parse("LINESTIRNG (1 2)").map(|_| ())
    );
    assert_eq!(
        Err(ParseError::UnrecognizedKeyword),
        parse("POINT Q (1 2)").map(|_| ())
    );
}

#[test]
fn unexpected_end() {
    assert_eq!(Err(ParseError::UnexpectedEnd), parse("LINESTRING(1 2").map(|_| ()));
    assert_eq!(Err(ParseError::UnexpectedEnd), parse("POINT").map(|_| ()));
    assert_eq!(Err(ParseError::UnexpectedEnd), parse("").map(|_| ()));
    assert_eq!(Err(ParseError::UnexpectedEnd), parse("POINT Z (1 2").map(|_| ()));
    assert_eq!(Err(ParseError::Mismatch), parse("POINT Z (1 2)").map(|_| ()));
}

#[test]
fn malformed_number() {
    assert_eq!(Err(ParseError::MalformedNumber), parse("POINT(1 2.3.4)").map(|_| ()));
}

#[test]
fn stray_character_and_trailing_tokens() {
    assert_eq!(Err(ParseError::Mismatch), parse("POINT(1 2)#").map(|_| ()));
    assert_eq!(Err(ParseError::Mismatch), parse("POINT(1 2) POINT(3 4)").map(|_| ()));
}

#[test]
fn nested_collection() {
    let g = parse("GEOMETRYCOLLECTION (POINT (1 2), LINESTRING EMPTY)").ok().unwrap();
    match g {
        Geometry::GeometryCollection(GeometryCollection(gs)) => {
            assert_eq!(2, gs.len());
            match &gs[0] {
                Geometry::Point(Point(Some(c))) => {
                    assert_eq!(1.0, c.x);
                    assert_eq!(2.0, c.y);
                }
                _ => unreachable!(),
            }
            match &gs[1] {
                Geometry::LineString(LineString(cs)) => assert_eq!(0, cs.len()),
                _ => unreachable!(),
            }
        }
        _ => unreachable!(),
    }
}

#[test]
fn dimension_suffixes() {
    match parse("POINT Z (1 2 3)").ok().unwrap() {
        Geometry::Point(Point(Some(c))) => {
            assert_eq!(Some(3.0), c.z);
            assert_eq!(None, c.m);
        }
        _ => unreachable!(),
    }
    match parse("POINT M (1 2 4)").ok().unwrap() {
        Geometry::Point(Point(Some(c))) => {
            assert_eq!(None, c.z);
            assert_eq!(Some(4.0), c.m);
        }
        _ => unreachable!(),
    }
    match parse("LINESTRING ZM (1 2 3 4, 5 6 7 8)").ok().unwrap() {
        Geometry::LineString(LineString(cs)) => {
            assert_eq!(Some(7.0), cs[1].z);
            assert_eq!(Some(8.0), cs[1].m);
        }
        _ => unreachable!(),
    }
    assert_eq!(Err(ParseError::Mismatch), parse("POINT (1 2 3)").map(|_| ()));
}

#[test]
fn canonical_text() {
    assert_eq!("POINT Z(1 2 3)", text("point z ( 1 2 3 )"));
    assert_eq!("LINESTRING M(1 2 3,4 5 6)", text("LINESTRING M (1 2 3, 4 5 6)"));
    assert_eq!(
        "POLYGON((0 0,4 0,4 4,0 0),(1 1,2 1,1 1))",
        text("POLYGON ((0 0, 4 0, 4 4, 0 0), (1 1, 2 1, 1 1))")
    );
    assert_eq!(
        "GEOMETRYCOLLECTION(POINT(1 2),LINESTRING EMPTY)",
        text("GEOMETRYCOLLECTION (POINT (1 2), LINESTRING EMPTY)")
    );
    assert_eq!("POINT(-0.5 100)", text("POINT(-0.5 1e2)"));
}

#[test]
fn text_round_trip() {
    let inputs = [
        "LINESTRING (10 -20, -0 -0.5)",
        "POINT ZM (1 2 3 4)",
        "POLYGON ((0 0, 4 0, 4 4, 0 0))",
        "GEOMETRYCOLLECTION (POINT (1 2), GEOMETRYCOLLECTION (LINESTRING Z (1 2 3, 4 5 6)), POLYGON EMPTY)",
    ];
    for s in inputs.iter() {
        let once = text(s);
        let twice = text(&once);
        assert_eq!(once, twice);
    }
}

#[test]
fn written_polygon() {
    let ring = LineString(vec![
        Coord { x: 0.0, y: 0.0, z: None, m: None },
        Coord { x: 1.5, y: 0.0, z: None, m: None },
        Coord { x: 0.0, y: 0.0, z: None, m: None },
    ]);
    let g: Geometry<f64> = Geometry::Polygon(Polygon(vec![ring]));
    assert_eq!("POLYGON((0 0,1.5 0,0 0))", g.wkt_string());
}

#[test]
fn as_item_wraps_linestring() {
    let l: LineString<f64> = LineString(vec![Coord { x: 1.0, y: 2.0, z: None, m: None }]);
    assert_eq!("LINESTRING(1 2)", l.as_item().wkt_string());
}

#[test]
fn multi_kinds() {
    assert_eq!("MULTIPOINT((1 2),(3 4))", text("MULTIPOINT ((1 2), (3 4))"));
    assert_eq!(
        "MULTILINESTRING Z((1 2 3,4 5 6),(7 8 9,1 2 3))",
        text("MULTILINESTRING Z ((1 2 3, 4 5 6), (7 8 9, 1 2 3))")
    );
    assert_eq!(
        "MULTIPOLYGON(((0 0,1 0,0 0)),((5 5,6 5,5 5),(1 1,2 2,1 1)))",
        text("MULTIPOLYGON (((0 0, 1 0, 0 0)), ((5 5, 6 5, 5 5), (1 1, 2 2, 1 1)))")
    );
    assert_eq!("MULTIPOINT EMPTY", text("multipoint empty"));
    match parse("MULTIPOINT ((1 2), (3 4))").ok().unwrap() {
        Geometry::MultiPoint(MultiPoint(cs)) => {
            assert_eq!(2, cs.len());
            assert_eq!(3.0, cs[1].x);
            assert_eq!(4.0, cs[1].y);
        }
        _ => unreachable!(),
    }
    assert_eq!(Err(ParseError::Mismatch), parse("MULTIPOINT((1 2),)").map(|_| ()));
    assert_eq!(Err(ParseError::Mismatch), parse("MULTILINESTRING((1 2),)").map(|_| ()));
    assert_eq!(Err(ParseError::Mismatch), parse("MULTIPOLYGON(((1 2)),)").map(|_| ()));
}

#[test]
fn multi_round_trip() {
    let inputs = [
        "MULTIPOINT M ((1 2 3), (4 5 6))",
        "MULTIPOLYGON (((0 0, 1 0, 0 0)), ((5 5, 6 5, 5 5)))",
        "GEOMETRYCOLLECTION (MULTILINESTRING ((1 2, 3 4)), MULTIPOINT EMPTY)",
    ];
    for s in inputs.iter() {
        let once = text(s);
        let twice = text(&once);
        assert_eq!(once, twice);
    }
}

#[test]
fn number_free_text_parses() {
    assert!(parse("POINT EMPTY").is_ok());
    assert!(parse("LINESTRING EMPTY").is_ok());
    assert!(parse("GEOMETRYCOLLECTION (POLYGON EMPTY)").is_ok());
}
