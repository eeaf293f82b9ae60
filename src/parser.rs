use vstd::prelude::*;
use crate::grammar::{
    coord_len, cons, dim_of, is_empty_word, is_num, kind_of, num_at, p_coord, p_coord_list,
    p_coords_rest, p_dim, p_geom, p_linestring_body, p_geoms_rest, p_point_elem, p_points_rest, p_poly_body,
    p_polys_rest, p_rings_rest, parse_all, tok_err, Kind, ParseError, Parsed,
};
use crate::token::{toks_view, word_matches, Token};
use crate::types::{
    Coord, Dimension, Geom, Geometry, GeometryCollection, LineString, MultiLineString, MultiPoint,
    MultiPolygon, Point, Polygon,
};

verus! {

/// A list parsed up to some point: `pre` is already in hand, `off` tokens
/// were consumed for it, and `r` is what the rest of the list gives.
pub open spec fn shift<X>(pre: Seq<X>, off: nat, r: Parsed<Seq<X>>) -> Parsed<Seq<X>> {
    match r {
        Ok((xs, k)) => Ok((pre + xs, off + k)),
        Err(e) => Err(e),
    }
}

proof fn lemma_shift_cons<X>(pre: Seq<X>, off: nat, x: X, n: nat, r: Parsed<Seq<X>>)
    ensures
        shift(pre, off, cons(x, n, r)) == shift(pre.push(x), off + n, r),
{
    if let Ok((xs, k)) = r {
        assert(pre + (seq![x] + xs) =~= pre.push(x) + xs);
    }
}

proof fn lemma_shift_empty<X>(r: Parsed<Seq<X>>)
    ensures
        shift(Seq::<X>::empty(), 0, r) == r,
{
    if let Ok((xs, k)) = r {
        assert(Seq::<X>::empty() + xs =~= xs);
    }
}

proof fn lemma_shift_last<X>(pre: Seq<X>, off: nat, x: X, n: nat)
    ensures
        shift(pre, off, Ok((seq![x], n))) == Ok::<(Seq<X>, nat), ParseError>(
            (pre.push(x), off + n),
        ),
{
    assert(pre + seq![x] =~= pre.push(x));
}

/// Does the result of a parse at `pos` agree with the grammar's outcome `s`,
/// given how a parsed value is seen.
pub open spec fn agrees<X, V>(
    r: Result<(X, usize), ParseError>,
    pos: usize,
    s: Parsed<V>,
    view: spec_fn(X) -> V,
) -> bool {
    match r {
        Ok((x, p)) => p >= pos && s == Ok::<(V, nat), ParseError>((view(x), (p - pos) as nat)),
        Err(e) => s == Err::<(V, nat), ParseError>(e),
    }
}

fn coord_count(d: Dimension) -> (r: usize)
    ensures
        r == coord_len(d),
{
    match d {
        Dimension::XY => 2,
        Dimension::XYZ => 3,
        Dimension::XYM => 3,
        Dimension::XYZM => 4,
    }
}

fn number_at<T: Copy>(toks: &Vec<Token<T>>, pos: usize) -> (r: Result<T, ParseError>)
    ensures
        is_num(toks_view(toks@), pos as int) ==> r == Ok::<T, ParseError>(
            num_at(toks_view(toks@), pos as int),
        ),
        !is_num(toks_view(toks@), pos as int) ==> r == Err::<T, ParseError>(
            tok_err(toks_view(toks@), pos as int),
        ),
        r is Ok ==> pos < toks.len(),
{
    if pos >= toks.len() {
        return Err(ParseError::UnexpectedEnd);
    }
    match &toks[pos] {
        Token::Number(x) => Ok(*x),
        _ => Err(ParseError::Mismatch),
    }
}

fn parse_coord<T: Copy>(toks: &Vec<Token<T>>, pos: usize, d: Dimension) -> (r: Result<
    Coord<T>,
    ParseError,
>)
    ensures
        r == p_coord(toks_view(toks@), pos as int, d),
        r is Ok ==> pos + coord_len(d) <= toks.len(),
{
    let x = match number_at(toks, pos) {
        Ok(v) => v,
        Err(e) => return Err(e),
    };
    let y = match number_at(toks, pos + 1) {
        Ok(v) => v,
        Err(e) => return Err(e),
    };
    let mut p = pos + 2;
    let z = match d {
        Dimension::XYZ | Dimension::XYZM => {
            let v = match number_at(toks, p) {
                Ok(v) => v,
                Err(e) => return Err(e),
            };
            p = p + 1;
            Some(v)
        },
        _ => None,
    };
    let m = match d {
        Dimension::XYM | Dimension::XYZM => {
            let v = match number_at(toks, p) {
                Ok(v) => v,
                Err(e) => return Err(e),
            };
            Some(v)
        },
        _ => None,
    };
    Ok(Coord { x, y, z, m })
}

fn parse_coords_rest<T: Copy>(toks: &Vec<Token<T>>, pos: usize, d: Dimension) -> (r: Result<
    (Vec<Coord<T>>, usize),
    ParseError,
>)
    requires
        pos <= toks.len(),
    ensures
        agrees(r, pos, p_coords_rest(toks_view(toks@), pos as int, d), |v: Vec<Coord<T>>| v@),
        r matches Ok((_, p)) ==> p <= toks.len(),
{
    let ghost ts = toks_view(toks@);
    let mut out: Vec<Coord<T>> = Vec::new();
    let mut p = pos;
    proof {
        lemma_shift_empty(p_coords_rest(ts, pos as int, d));
    }
    loop
        invariant
            pos <= p <= toks.len(),
            ts == toks_view(toks@),
            p_coords_rest(ts, pos as int, d) == shift(
                out@,
                (p - pos) as nat,
                p_coords_rest(ts, p as int, d),
            ),
        decreases toks.len() - p,
    {
        let c = match parse_coord(toks, p, d) {
            Ok(c) => c,
            Err(e) => return Err(e),
        };
        let q = p + coord_count(d);
        if q >= toks.len() {
            return Err(ParseError::UnexpectedEnd);
        }
        match &toks[q] {
            Token::Comma => {
                proof {
                    lemma_shift_cons(
                        out@,
                        (p - pos) as nat,
                        c,
                        coord_len(d) + 1,
                        p_coords_rest(ts, q + 1, d),
                    );
                }
                out.push(c);
                p = q + 1;
            },
            Token::ParenClose => {
                proof {
                    lemma_shift_last(out@, (p - pos) as nat, c, coord_len(d) + 1);
                }
                out.push(c);
                return Ok((out, q + 1));
            },
            _ => return Err(ParseError::Mismatch),
        }
    }
}

fn parse_coord_list<T: Copy>(toks: &Vec<Token<T>>, pos: usize, d: Dimension) -> (r: Result<
    (Vec<Coord<T>>, usize),
    ParseError,
>)
    requires
        pos <= toks.len(),
    ensures
        agrees(r, pos, p_coord_list(toks_view(toks@), pos as int, d), |v: Vec<Coord<T>>| v@),
        r matches Ok((_, p)) ==> p <= toks.len(),
{
    if pos >= toks.len() {
        return Err(ParseError::UnexpectedEnd);
    }
    match &toks[pos] {
        Token::ParenOpen => parse_coords_rest(toks, pos + 1, d),
        _ => Err(ParseError::Mismatch),
    }
}

impl<T: Copy> LineString<T> {
    /// Parses the body of a line string of dimension `d` starting at `pos`,
    /// after its keyword: the word EMPTY gives a line string with no
    /// coordinates, otherwise a parenthesised, comma-separated list of
    /// coordinates is read. Gives the line string and the position after
    /// its last token.
    pub fn from_tokens(toks: &Vec<Token<T>>, pos: usize, d: Dimension) -> (r: Result<
        (LineString<T>, usize),
        ParseError,
    >)
        requires
            pos <= toks.len(),
        ensures
            agrees(
                r,
                pos,
                p_linestring_body(toks_view(toks@), pos as int, d),
                |l: LineString<T>| l@,
            ),
            r matches Ok((_, p)) ==> p <= toks.len(),
    {
        if is_empty_at(toks, pos) {
            let l = LineString(Vec::new());
            assert(l@ =~= Seq::<Coord<T>>::empty());
            return Ok((l, pos + 1));
        }
        match parse_coord_list(toks, pos, d) {
            Ok((v, p)) => Ok((LineString(v), p)),
            Err(e) => Err(e),
        }
    }
}

/// The models of a sequence of rings.
pub open spec fn rings_view<T>(v: Seq<LineString<T>>) -> Seq<Seq<Coord<T>>> {
    v.map_values(|r: LineString<T>| r@)
}

fn parse_rings_rest<T: Copy>(toks: &Vec<Token<T>>, pos: usize, d: Dimension) -> (r: Result<
    (Vec<LineString<T>>, usize),
    ParseError,
>)
    requires
        pos <= toks.len(),
    ensures
        agrees(
            r,
            pos,
            p_rings_rest(toks_view(toks@), pos as int, d),
            |v: Vec<LineString<T>>| rings_view(v@),
        ),
        r matches Ok((_, p)) ==> p <= toks.len(),
{
    let ghost ts = toks_view(toks@);
    let mut out: Vec<LineString<T>> = Vec::new();
    let mut p = pos;
    proof {
        assert(rings_view(out@) =~= Seq::<Seq<Coord<T>>>::empty());
        lemma_shift_empty(p_rings_rest(ts, pos as int, d));
    }
    loop
        invariant
            pos <= p <= toks.len(),
            ts == toks_view(toks@),
            p_rings_rest(ts, pos as int, d) == shift(
                rings_view(out@),
                (p - pos) as nat,
                p_rings_rest(ts, p as int, d),
            ),
        decreases toks.len() - p,
    {
        let (ring, q) = match parse_coord_list(toks, p, d) {
            Ok(v) => v,
            Err(e) => return Err(e),
        };
        if q >= toks.len() {
            return Err(ParseError::UnexpectedEnd);
        }
        let ghost k = (q - p) as nat;
        let ghost before = out@;
        match &toks[q] {
            Token::Comma => {
                proof {
                    lemma_shift_cons(
                        rings_view(out@),
                        (p - pos) as nat,
                        ring@,
                        k + 1,
                        p_rings_rest(ts, q + 1, d),
                    );
                }
                out.push(LineString(ring));
                proof {
                    assert(rings_view(out@) =~= rings_view(before).push(ring@));
                }
                p = q + 1;
            },
            Token::ParenClose => {
                proof {
                    lemma_shift_last(rings_view(out@), (p - pos) as nat, ring@, k + 1);
                }
                out.push(LineString(ring));
                proof {
                    assert(rings_view(out@) =~= rings_view(before).push(ring@));
                }
                return Ok((out, q + 1));
            },
            _ => return Err(ParseError::Mismatch),
        }
    }
}

fn parse_point_elem<T: Copy>(toks: &Vec<Token<T>>, pos: usize, d: Dimension) -> (r: Result<
    Coord<T>,
    ParseError,
>)
    requires
        pos <= toks.len(),
    ensures
        r == p_point_elem(toks_view(toks@), pos as int, d),
        r is Ok ==> pos + coord_len(d) + 2 <= toks.len(),
{
    if pos >= toks.len() {
        return Err(ParseError::UnexpectedEnd);
    }
    match &toks[pos] {
        Token::ParenOpen => {},
        _ => return Err(ParseError::Mismatch),
    }
    let c = match parse_coord(toks, pos + 1, d) {
        Ok(c) => c,
        Err(e) => return Err(e),
    };
    let q = pos + 1 + coord_count(d);
    if q >= toks.len() {
        return Err(ParseError::UnexpectedEnd);
    }
    match &toks[q] {
        Token::ParenClose => Ok(c),
        _ => Err(ParseError::Mismatch),
    }
}

fn parse_points_rest<T: Copy>(toks: &Vec<Token<T>>, pos: usize, d: Dimension) -> (r: Result<
    (Vec<Coord<T>>, usize),
    ParseError,
>)
    requires
        pos <= toks.len(),
    ensures
        agrees(r, pos, p_points_rest(toks_view(toks@), pos as int, d), |v: Vec<Coord<T>>| v@),
        r matches Ok((_, p)) ==> p <= toks.len(),
{
    let ghost ts = toks_view(toks@);
    let mut out: Vec<Coord<T>> = Vec::new();
    let mut p = pos;
    proof {
        lemma_shift_empty(p_points_rest(ts, pos as int, d));
    }
    loop
        invariant
            pos <= p <= toks.len(),
            ts == toks_view(toks@),
            p_points_rest(ts, pos as int, d) == shift(
                out@,
                (p - pos) as nat,
                p_points_rest(ts, p as int, d),
            ),
        decreases toks.len() - p,
    {
        let c = match parse_point_elem(toks, p, d) {
            Ok(c) => c,
            Err(e) => return Err(e),
        };
        let q = p + coord_count(d) + 2;
        if q >= toks.len() {
            return Err(ParseError::UnexpectedEnd);
        }
        match &toks[q] {
            Token::Comma => {
                proof {
                    lemma_shift_cons(
                        out@,
                        (p - pos) as nat,
                        c,
                        coord_len(d) + 3,
                        p_points_rest(ts, q + 1, d),
                    );
                }
                out.push(c);
                p = q + 1;
            },
            Token::ParenClose => {
                proof {
                    lemma_shift_last(out@, (p - pos) as nat, c, coord_len(d) + 3);
                }
                out.push(c);
                return Ok((out, q + 1));
            },
            _ => return Err(ParseError::Mismatch),
        }
    }
}

fn parse_poly_body<T: Copy>(toks: &Vec<Token<T>>, pos: usize, d: Dimension) -> (r: Result<
    (Vec<LineString<T>>, usize),
    ParseError,
>)
    requires
        pos <= toks.len(),
    ensures
        agrees(
            r,
            pos,
            p_poly_body(toks_view(toks@), pos as int, d),
            |v: Vec<LineString<T>>| rings_view(v@),
        ),
        r matches Ok((_, p)) ==> p <= toks.len(),
{
    if pos >= toks.len() {
        return Err(ParseError::UnexpectedEnd);
    }
    match &toks[pos] {
        Token::ParenOpen => parse_rings_rest(toks, pos + 1, d),
        _ => Err(ParseError::Mismatch),
    }
}

/// The models of a sequence of polygons.
pub open spec fn polys_view<T>(v: Seq<Polygon<T>>) -> Seq<Seq<Seq<Coord<T>>>> {
    v.map_values(|p: Polygon<T>| p@)
}

fn parse_polys_rest<T: Copy>(toks: &Vec<Token<T>>, pos: usize, d: Dimension) -> (r: Result<
    (Vec<Polygon<T>>, usize),
    ParseError,
>)
    requires
        pos <= toks.len(),
    ensures
        agrees(
            r,
            pos,
            p_polys_rest(toks_view(toks@), pos as int, d),
            |v: Vec<Polygon<T>>| polys_view(v@),
        ),
        r matches Ok((_, p)) ==> p <= toks.len(),
{
    let ghost ts = toks_view(toks@);
    let mut out: Vec<Polygon<T>> = Vec::new();
    let mut p = pos;
    proof {
        assert(polys_view(out@) =~= Seq::<Seq<Seq<Coord<T>>>>::empty());
        lemma_shift_empty(p_polys_rest(ts, pos as int, d));
    }
    loop
        invariant
            pos <= p <= toks.len(),
            ts == toks_view(toks@),
            p_polys_rest(ts, pos as int, d) == shift(
                polys_view(out@),
                (p - pos) as nat,
                p_polys_rest(ts, p as int, d),
            ),
        decreases toks.len() - p,
    {
        let (rings, q) = match parse_poly_body(toks, p, d) {
            Ok(v) => v,
            Err(e) => return Err(e),
        };
        if q >= toks.len() {
            return Err(ParseError::UnexpectedEnd);
        }
        let ghost k = (q - p) as nat;
        let ghost before = out@;
        let pg = Polygon(rings);
        let ghost pv = pg@;
        assert(pv == rings_view(rings@));
        match &toks[q] {
            Token::Comma => {
                proof {
                    lemma_shift_cons(
                        polys_view(out@),
                        (p - pos) as nat,
                        pv,
                        k + 1,
                        p_polys_rest(ts, q + 1, d),
                    );
                }
                out.push(pg);
                proof {
                    assert(polys_view(out@) =~= polys_view(before).push(pv));
                }
                p = q + 1;
            },
            Token::ParenClose => {
                proof {
                    lemma_shift_last(polys_view(out@), (p - pos) as nat, pv, k + 1);
                }
                out.push(pg);
                proof {
                    assert(polys_view(out@) =~= polys_view(before).push(pv));
                }
                return Ok((out, q + 1));
            },
            _ => return Err(ParseError::Mismatch),
        }
    }
}

fn keyword_kind(w: &str) -> (r: Option<Kind>)
    ensures
        r == kind_of(w@),
{
    if word_matches(w, "POINT") {
        Some(Kind::Point)
    } else if word_matches(w, "LINESTRING") {
        Some(Kind::LineString)
    } else if word_matches(w, "POLYGON") {
        Some(Kind::Polygon)
    } else if word_matches(w, "MULTIPOINT") {
        Some(Kind::MultiPoint)
    } else if word_matches(w, "MULTILINESTRING") {
        Some(Kind::MultiLineString)
    } else if word_matches(w, "MULTIPOLYGON") {
        Some(Kind::MultiPolygon)
    } else if word_matches(w, "GEOMETRYCOLLECTION") {
        Some(Kind::GeometryCollection)
    } else {
        None
    }
}

fn suffix_dim(w: &str) -> (r: Option<Dimension>)
    ensures
        r == dim_of(w@),
{
    if word_matches(w, "Z") {
        Some(Dimension::XYZ)
    } else if word_matches(w, "M") {
        Some(Dimension::XYM)
    } else if word_matches(w, "ZM") {
        Some(Dimension::XYZM)
    } else {
        None
    }
}

fn parse_dim<T>(toks: &Vec<Token<T>>, pos: usize) -> (r: Result<(Dimension, usize), ParseError>)
    requires
        pos <= toks.len(),
    ensures
        match r {
            Ok((d, n)) => n <= 1 && pos + n <= toks.len() && p_dim(toks_view(toks@), pos as int)
                == Ok::<(Dimension, nat), ParseError>((d, n as nat)),
            Err(e) => p_dim(toks_view(toks@), pos as int) == Err::<(Dimension, nat), ParseError>(e),
        },
{
    if pos >= toks.len() {
        return Ok((Dimension::XY, 0));
    }
    match &toks[pos] {
        Token::Word(w) => {
            if word_matches(w.as_str(), "EMPTY") {
                Ok((Dimension::XY, 0))
            } else {
                match suffix_dim(w.as_str()) {
                    Some(d) => Ok((d, 1)),
                    None => Err(ParseError::UnrecognizedKeyword),
                }
            }
        },
        _ => Ok((Dimension::XY, 0)),
    }
}

fn is_empty_at<T>(toks: &Vec<Token<T>>, pos: usize) -> (r: bool)
    ensures
        r == is_empty_word(toks_view(toks@), pos as int),
{
    if pos >= toks.len() {
        return false;
    }
    match &toks[pos] {
        Token::Word(w) => word_matches(w.as_str(), "EMPTY"),
        _ => false,
    }
}

/// The models of a sequence of geometries.
pub open spec fn models<T>(v: Seq<Geometry<T>>) -> Seq<Geom<T>> {
    Seq::new(v.len(), |i: int| v[i]@)
}

pub(crate) proof fn lemma_collection_model<T>(v: Vec<Geometry<T>>)
    ensures
        Geometry::GeometryCollection(GeometryCollection(v))@ == Geom::Collection(models(v@)),
{
    let g = Geometry::GeometryCollection(GeometryCollection(v));
    assert(g@ == g.model());
    if let Geom::Collection(gs) = g.model() {
        assert(gs =~= models(v@));
    }
}

fn empty_geometry<T>(k: Kind) -> (r: Geometry<T>)
    ensures
        r@ == crate::grammar::empty_of::<T>(k),
{
    match k {
        Kind::Point => Geometry::Point(Point(None)),
        Kind::LineString => {
            let r = Geometry::LineString(LineString(Vec::new()));
            assert(r@ == Geom::LineString(Seq::<Coord<T>>::empty()));
            r
        },
        Kind::Polygon => {
            let pg = Polygon(Vec::new());
            assert(pg@ =~= Seq::<Seq<Coord<T>>>::empty());
            Geometry::Polygon(pg)
        },
        Kind::MultiPoint => {
            let r = Geometry::MultiPoint(MultiPoint(Vec::new()));
            assert(r@ == Geom::MultiPoint(Seq::<Coord<T>>::empty()));
            r
        },
        Kind::MultiLineString => {
            let ml = MultiLineString(Vec::new());
            assert(ml@ =~= Seq::<Seq<Coord<T>>>::empty());
            Geometry::MultiLineString(ml)
        },
        Kind::MultiPolygon => {
            let mp = MultiPolygon(Vec::new());
            assert(mp@ =~= Seq::<Seq<Seq<Coord<T>>>>::empty());
            Geometry::MultiPolygon(mp)
        },
        Kind::GeometryCollection => {
            let v: Vec<Geometry<T>> = Vec::new();
            proof {
                lemma_collection_model(v);
                assert(models(v@) =~= Seq::<Geom<T>>::empty());
            }
            Geometry::GeometryCollection(GeometryCollection(v))
        },
    }
}

/// Parses one geometry starting at its keyword; gives it and the position
/// after its last token.
pub fn parse_geometry<T: Copy>(toks: &Vec<Token<T>>, pos: usize) -> (r: Result<
    (Geometry<T>, usize),
    ParseError,
>)
    requires
        pos <= toks.len(),
    ensures
        agrees(r, pos, p_geom(toks_view(toks@), pos as int), |g: Geometry<T>| g@),
        r matches Ok((_, p)) ==> p <= toks.len(),
    decreases toks.len() - pos, 0int,
{
    let ghost ts = toks_view(toks@);
    if pos >= toks.len() {
        return Err(ParseError::UnexpectedEnd);
    }
    let k = match &toks[pos] {
        Token::Word(w) => match keyword_kind(w.as_str()) {
            Some(k) => k,
            None => return Err(ParseError::UnrecognizedKeyword),
        },
        _ => return Err(ParseError::Mismatch),
    };
    let (d, n) = match parse_dim(toks, pos + 1) {
        Ok(v) => v,
        Err(e) => return Err(e),
    };
    let b = pos + 1 + n;
    if is_empty_at(toks, b) {
        return Ok((empty_geometry(k), b + 1));
    }
    if b >= toks.len() {
        return Err(ParseError::UnexpectedEnd);
    }
    match &toks[b] {
        Token::ParenOpen => {},
        _ => return Err(ParseError::Mismatch),
    }
    match k {
        Kind::Point => {
            let c = match parse_coord(toks, b + 1, d) {
                Ok(c) => c,
                Err(e) => return Err(e),
            };
            let q = b + 1 + coord_count(d);
            if q >= toks.len() {
                return Err(ParseError::UnexpectedEnd);
            }
            match &toks[q] {
                Token::ParenClose => Ok((Geometry::Point(Point(Some(c))), q + 1)),
                _ => Err(ParseError::Mismatch),
            }
        },
        Kind::LineString => match parse_coords_rest(toks, b + 1, d) {
            Ok((v, q)) => Ok((Geometry::LineString(LineString(v)), q)),
            Err(e) => Err(e),
        },
        Kind::Polygon => match parse_rings_rest(toks, b + 1, d) {
            Ok((v, q)) => {
                let pg = Polygon(v);
                assert(pg@ == rings_view(v@));
                Ok((Geometry::Polygon(pg), q))
            },
            Err(e) => Err(e),
        },
        Kind::MultiPoint => match parse_points_rest(toks, b + 1, d) {
            Ok((v, q)) => Ok((Geometry::MultiPoint(MultiPoint(v)), q)),
            Err(e) => Err(e),
        },
        Kind::MultiLineString => match parse_rings_rest(toks, b + 1, d) {
            Ok((v, q)) => {
                let ml = MultiLineString(v);
                assert(ml@ == rings_view(v@));
                Ok((Geometry::MultiLineString(ml), q))
            },
            Err(e) => Err(e),
        },
        Kind::MultiPolygon => match parse_polys_rest(toks, b + 1, d) {
            Ok((v, q)) => {
                let mp = MultiPolygon(v);
                assert(mp@ == polys_view(v@));
                Ok((Geometry::MultiPolygon(mp), q))
            },
            Err(e) => Err(e),
        },
        Kind::GeometryCollection => match parse_geoms_rest(toks, b + 1) {
            Ok((v, q)) => {
                proof {
                    lemma_collection_model(v);
                }
                Ok((Geometry::GeometryCollection(GeometryCollection(v)), q))
            },
            Err(e) => Err(e),
        },
    }
}

fn parse_geoms_rest<T: Copy>(toks: &Vec<Token<T>>, pos: usize) -> (r: Result<
    (Vec<Geometry<T>>, usize),
    ParseError,
>)
    requires
        pos <= toks.len(),
    ensures
        agrees(
            r,
            pos,
            p_geoms_rest(toks_view(toks@), pos as int),
            |v: Vec<Geometry<T>>| models(v@),
        ),
        r matches Ok((_, p)) ==> p <= toks.len(),
    decreases toks.len() - pos, 1int,
{
    let ghost ts = toks_view(toks@);
    let mut out: Vec<Geometry<T>> = Vec::new();
    let mut p = pos;
    proof {
        assert(models(out@) =~= Seq::<Geom<T>>::empty());
        lemma_shift_empty(p_geoms_rest(ts, pos as int));
    }
    loop
        invariant
            pos <= p <= toks.len(),
            ts == toks_view(toks@),
            p_geoms_rest(ts, pos as int) == shift(
                models(out@),
                (p - pos) as nat,
                p_geoms_rest(ts, p as int),
            ),
        decreases toks.len() - p,
    {
        if p >= toks.len() {
            return Err(ParseError::UnexpectedEnd);
        }
        let (g, q) = match parse_geometry(toks, p) {
            Ok(v) => v,
            Err(e) => return Err(e),
        };
        if q >= toks.len() {
            return Err(ParseError::UnexpectedEnd);
        }
        let ghost k = (q - p) as nat;
        let ghost before = out@;
        let ghost gm = g@;
        match &toks[q] {
            Token::Comma => {
                proof {
                    lemma_shift_cons(
                        models(out@),
                        (p - pos) as nat,
                        gm,
                        k + 1,
                        p_geoms_rest(ts, q + 1),
                    );
                }
                out.push(g);
                proof {
                    assert(models(out@) =~= models(before).push(gm));
                }
                p = q + 1;
            },
            Token::ParenClose => {
                proof {
                    lemma_shift_last(models(out@), (p - pos) as nat, gm, k + 1);
                }
                out.push(g);
                proof {
                    assert(models(out@) =~= models(before).push(gm));
                }
                return Ok((out, q + 1));
            },
            _ => return Err(ParseError::Mismatch),
        }
    }
}

/// Parses a whole token sequence as one geometry; tokens left over after
/// it are a mismatch.
pub fn parse_tokens<T: Copy>(toks: &Vec<Token<T>>) -> (r: Result<Geometry<T>, ParseError>)
    ensures
        match r {
            Ok(g) => parse_all(toks_view(toks@)) == Ok::<Geom<T>, ParseError>(g@),
            Err(e) => parse_all(toks_view(toks@)) == Err::<Geom<T>, ParseError>(e),
        },
{
    match parse_geometry(toks, 0) {
        Ok((g, p)) => if p == toks.len() {
            Ok(g)
        } else {
            Err(ParseError::Mismatch)
        },
        Err(e) => Err(e),
    }
}

} // verus!
