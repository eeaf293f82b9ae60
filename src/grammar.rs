use vstd::prelude::*;
use crate::token::{word_is, Tok};
use crate::types::{Coord, Dimension, Geom};

verus! {

/// The ways a parse can fail.
#[derive(PartialEq, Eq, Structural, Clone, Copy, Debug)]
pub enum ParseError {
    /// A number's text is not a value of the coordinate type.
    MalformedNumber,
    /// The tokens ran out where one more was required.
    UnexpectedEnd,
    /// A word is not a geometry keyword or a dimension suffix.
    UnrecognizedKeyword,
    /// A token of the wrong kind, such as a close-paren where an element
    /// was required.
    Mismatch,
}

/// The geometry kinds, as named by their keywords.
#[derive(PartialEq, Eq, Structural, Clone, Copy, Debug)]
pub enum Kind {
    Point,
    LineString,
    Polygon,
    MultiPoint,
    MultiLineString,
    MultiPolygon,
    GeometryCollection,
}

/// A parse step's outcome: a value and how many tokens it consumed.
pub type Parsed<X> = Result<(X, nat), ParseError>;

/// The geometry kind that a keyword names, in any ASCII case.
pub open spec fn kind_of(w: Seq<char>) -> Option<Kind> {
    if word_is(w, "POINT"@) {
        Some(Kind::Point)
    } else if word_is(w, "LINESTRING"@) {
        Some(Kind::LineString)
    } else if word_is(w, "POLYGON"@) {
        Some(Kind::Polygon)
    } else if word_is(w, "MULTIPOINT"@) {
        Some(Kind::MultiPoint)
    } else if word_is(w, "MULTILINESTRING"@) {
        Some(Kind::MultiLineString)
    } else if word_is(w, "MULTIPOLYGON"@) {
        Some(Kind::MultiPolygon)
    } else if word_is(w, "GEOMETRYCOLLECTION"@) {
        Some(Kind::GeometryCollection)
    } else {
        None
    }
}

/// The dimension that a suffix word (Z, M or ZM) names, in any ASCII case.
pub open spec fn dim_of(w: Seq<char>) -> Option<Dimension> {
    if word_is(w, "Z"@) {
        Some(Dimension::XYZ)
    } else if word_is(w, "M"@) {
        Some(Dimension::XYM)
    } else if word_is(w, "ZM"@) {
        Some(Dimension::XYZM)
    } else {
        None
    }
}

/// The error for a missing token of the expected kind at `pos`.
pub open spec fn tok_err<T>(ts: Seq<Tok<T>>, pos: int) -> ParseError {
    if pos >= ts.len() {
        ParseError::UnexpectedEnd
    } else {
        ParseError::Mismatch
    }
}

pub open spec fn is_num<T>(ts: Seq<Tok<T>>, pos: int) -> bool {
    0 <= pos < ts.len() && ts[pos] is Number
}

pub open spec fn is_tok<T>(ts: Seq<Tok<T>>, pos: int, t: Tok<T>) -> bool {
    0 <= pos < ts.len() && ts[pos] == t
}

pub open spec fn num_at<T>(ts: Seq<Tok<T>>, pos: int) -> T {
    ts[pos]->Number_0
}

/// Number of values in a coordinate of dimension `d`.
pub open spec fn coord_len(d: Dimension) -> nat {
    2 + (if d.has_z() { 1nat } else { 0 }) + (if d.has_m() { 1nat } else { 0 })
}

/// A coordinate of dimension `d`: x, y, then z and m where `d` has them.
pub open spec fn p_coord<T>(ts: Seq<Tok<T>>, pos: int, d: Dimension) -> Result<Coord<T>, ParseError> {
    let zo: int = if d.has_z() { 1 } else { 0 };
    if !is_num(ts, pos) {
        Err(tok_err(ts, pos))
    } else if !is_num(ts, pos + 1) {
        Err(tok_err(ts, pos + 1))
    } else if d.has_z() && !is_num(ts, pos + 2) {
        Err(tok_err(ts, pos + 2))
    } else if d.has_m() && !is_num(ts, pos + 2 + zo) {
        Err(tok_err(ts, pos + 2 + zo))
    } else {
        Ok(
            Coord {
                x: num_at(ts, pos),
                y: num_at(ts, pos + 1),
                z: if d.has_z() { Some(num_at(ts, pos + 2)) } else { None },
                m: if d.has_m() { Some(num_at(ts, pos + 2 + zo)) } else { None },
            },
        )
    }
}

/// Puts `x` in front of a list that was parsed after `n` more tokens.
pub open spec fn cons<X>(x: X, n: nat, r: Parsed<Seq<X>>) -> Parsed<Seq<X>> {
    match r {
        Ok((xs, k)) => Ok((seq![x] + xs, n + k)),
        Err(e) => Err(e),
    }
}

/// After an element that ended at `p`: a comma goes on to the next element,
/// a close-paren ends the list.
pub open spec fn list_end<T>(ts: Seq<Tok<T>>, p: int) -> Option<ParseError> {
    if p >= ts.len() {
        Some(ParseError::UnexpectedEnd)
    } else if ts[p] is Comma || ts[p] is ParenClose {
        None
    } else {
        Some(ParseError::Mismatch)
    }
}

/// The coordinates of a list whose open-paren is already consumed:
/// `c (, c)* )`.
pub open spec fn p_coords_rest<T>(ts: Seq<Tok<T>>, pos: int, d: Dimension) -> Parsed<Seq<Coord<T>>>
    decreases ts.len() - pos,
{
    match p_coord(ts, pos, d) {
        Err(e) => Err(e),
        Ok(c) => {
            let p = pos + coord_len(d);
            if let Some(e) = list_end(ts, p) {
                Err(e)
            } else if ts[p] is ParenClose {
                Ok((seq![c], coord_len(d) + 1))
            } else {
                cons(c, coord_len(d) + 1, p_coords_rest(ts, p + 1, d))
            }
        },
    }
}

/// A parenthesised list of coordinates.
pub open spec fn p_coord_list<T>(ts: Seq<Tok<T>>, pos: int, d: Dimension) -> Parsed<Seq<Coord<T>>> {
    if !is_tok(ts, pos, Tok::ParenOpen) {
        Err(tok_err(ts, pos))
    } else {
        cons_none(p_coords_rest(ts, pos + 1, d))
    }
}

/// The body of a line string after its keyword and suffix: the word EMPTY,
/// which stands for no coordinates, or a parenthesised list of coordinates.
pub open spec fn p_linestring_body<T>(ts: Seq<Tok<T>>, pos: int, d: Dimension) -> Parsed<
    Seq<Coord<T>>,
> {
    if is_empty_word(ts, pos) {
        Ok((seq![], 1))
    } else {
        p_coord_list(ts, pos, d)
    }
}

/// Counts the open-paren in front of a list.
pub open spec fn cons_none<X>(r: Parsed<X>) -> Parsed<X> {
    match r {
        Ok((x, k)) => Ok((x, k + 1)),
        Err(e) => Err(e),
    }
}

/// The rings of a polygon whose open-paren is already consumed.
pub open spec fn p_rings_rest<T>(ts: Seq<Tok<T>>, pos: int, d: Dimension) -> Parsed<Seq<Seq<Coord<T>>>>
    decreases ts.len() - pos,
{
    match p_coord_list(ts, pos, d) {
        Err(e) => Err(e),
        Ok((r, k)) => {
            let p = pos + k;
            if let Some(e) = list_end(ts, p) {
                Err(e)
            } else if ts[p] is ParenClose {
                Ok((seq![r], k + 1))
            } else {
                cons(r, k + 1, p_rings_rest(ts, p + 1, d))
            }
        },
    }
}

/// One member of a multi-point: a coordinate in parentheses.
pub open spec fn p_point_elem<T>(ts: Seq<Tok<T>>, pos: int, d: Dimension) -> Result<
    Coord<T>,
    ParseError,
> {
    if !is_tok(ts, pos, Tok::ParenOpen) {
        Err(tok_err(ts, pos))
    } else {
        match p_coord(ts, pos + 1, d) {
            Err(e) => Err(e),
            Ok(c) => if is_tok(ts, pos + 1 + coord_len(d), Tok::ParenClose) {
                Ok(c)
            } else {
                Err(tok_err(ts, pos + 1 + coord_len(d)))
            },
        }
    }
}

/// The members of a multi-point whose open-paren is already consumed.
pub open spec fn p_points_rest<T>(ts: Seq<Tok<T>>, pos: int, d: Dimension) -> Parsed<Seq<Coord<T>>>
    decreases ts.len() - pos,
{
    match p_point_elem(ts, pos, d) {
        Err(e) => Err(e),
        Ok(c) => {
            let p = pos + coord_len(d) + 2;
            if let Some(e) = list_end(ts, p) {
                Err(e)
            } else if ts[p] is ParenClose {
                Ok((seq![c], coord_len(d) + 3))
            } else {
                cons(c, coord_len(d) + 3, p_points_rest(ts, p + 1, d))
            }
        },
    }
}

/// A parenthesised list of rings: one member of a multi-polygon.
pub open spec fn p_poly_body<T>(ts: Seq<Tok<T>>, pos: int, d: Dimension) -> Parsed<
    Seq<Seq<Coord<T>>>,
> {
    if !is_tok(ts, pos, Tok::ParenOpen) {
        Err(tok_err(ts, pos))
    } else {
        cons_none(p_rings_rest(ts, pos + 1, d))
    }
}

/// The members of a multi-polygon whose open-paren is already consumed.
pub open spec fn p_polys_rest<T>(ts: Seq<Tok<T>>, pos: int, d: Dimension) -> Parsed<
    Seq<Seq<Seq<Coord<T>>>>,
>
    decreases ts.len() - pos,
{
    match p_poly_body(ts, pos, d) {
        Err(e) => Err(e),
        Ok((pg, k)) => {
            let p = pos + k;
            if let Some(e) = list_end(ts, p) {
                Err(e)
            } else if ts[p] is ParenClose {
                Ok((seq![pg], k + 1))
            } else {
                cons(pg, k + 1, p_polys_rest(ts, p + 1, d))
            }
        },
    }
}

/// The optional dimension suffix after a keyword, and how many tokens it
/// took. A word that is neither a suffix nor EMPTY is refused.
pub open spec fn p_dim<T>(ts: Seq<Tok<T>>, pos: int) -> Result<(Dimension, nat), ParseError> {
    if 0 <= pos < ts.len() && ts[pos] is Word {
        let w = ts[pos]->Word_0;
        if word_is(w, "EMPTY"@) {
            Ok((Dimension::XY, 0))
        } else if let Some(d) = dim_of(w) {
            Ok((d, 1))
        } else {
            Err(ParseError::UnrecognizedKeyword)
        }
    } else {
        Ok((Dimension::XY, 0))
    }
}

/// The word EMPTY, in any ASCII case, stands at `pos`.
pub open spec fn is_empty_word<T>(ts: Seq<Tok<T>>, pos: int) -> bool {
    0 <= pos < ts.len() && ts[pos] is Word && word_is(ts[pos]->Word_0, "EMPTY"@)
}

/// The geometry that the empty form of a kind stands for.
pub open spec fn empty_of<T>(k: Kind) -> Geom<T> {
    match k {
        Kind::Point => Geom::Point(None),
        Kind::LineString => Geom::LineString(seq![]),
        Kind::Polygon => Geom::Polygon(seq![]),
        Kind::MultiPoint => Geom::MultiPoint(seq![]),
        Kind::MultiLineString => Geom::MultiLineString(seq![]),
        Kind::MultiPolygon => Geom::MultiPolygon(seq![]),
        Kind::GeometryCollection => Geom::Collection(seq![]),
    }
}

/// Adds the `n` tokens of the header to a body's count.
pub open spec fn after<X>(n: nat, r: Parsed<X>) -> Parsed<X> {
    match r {
        Ok((x, k)) => Ok((x, n + k)),
        Err(e) => Err(e),
    }
}

/// Turns a parsed body into the geometry that `f` builds from it.
pub open spec fn wrap<X, T>(r: Parsed<X>, f: spec_fn(X) -> Geom<T>) -> Parsed<Geom<T>> {
    match r {
        Ok((x, k)) => Ok((f(x), k)),
        Err(e) => Err(e),
    }
}

/// One geometry, starting at its keyword.
pub open spec fn p_geom<T>(ts: Seq<Tok<T>>, pos: int) -> Parsed<Geom<T>>
    decreases ts.len() - pos, 0int,
{
    if !(0 <= pos < ts.len()) {
        Err(ParseError::UnexpectedEnd)
    } else if !(ts[pos] is Word) {
        Err(ParseError::Mismatch)
    } else if let Some(k) = kind_of(ts[pos]->Word_0) {
        match p_dim(ts, pos + 1) {
            Err(e) => Err(e),
            Ok((d, n)) => {
                let b = pos + 1 + n;
                if is_empty_word(ts, b) {
                    Ok((empty_of(k), n + 2))
                } else if !is_tok(ts, b, Tok::ParenOpen) {
                    Err(tok_err(ts, b))
                } else {
                    after(
                        n + 2,
                        match k {
                            Kind::Point => match p_coord(ts, b + 1, d) {
                                Err(e) => Err(e),
                                Ok(c) => if is_tok(ts, b + 1 + coord_len(d), Tok::ParenClose) {
                                    Ok((Geom::Point(Some(c)), coord_len(d) + 1))
                                } else {
                                    Err(tok_err(ts, b + 1 + coord_len(d)))
                                },
                            },
                            Kind::LineString => wrap(
                                p_coords_rest(ts, b + 1, d),
                                |cs: Seq<Coord<T>>| Geom::LineString(cs),
                            ),
                            Kind::Polygon => wrap(
                                p_rings_rest(ts, b + 1, d),
                                |rs: Seq<Seq<Coord<T>>>| Geom::Polygon(rs),
                            ),
                            Kind::MultiPoint => wrap(
                                p_points_rest(ts, b + 1, d),
                                |cs: Seq<Coord<T>>| Geom::MultiPoint(cs),
                            ),
                            Kind::MultiLineString => wrap(
                                p_rings_rest(ts, b + 1, d),
                                |ls: Seq<Seq<Coord<T>>>| Geom::MultiLineString(ls),
                            ),
                            Kind::MultiPolygon => wrap(
                                p_polys_rest(ts, b + 1, d),
                                |ps: Seq<Seq<Seq<Coord<T>>>>| Geom::MultiPolygon(ps),
                            ),
                            Kind::GeometryCollection => wrap(
                                p_geoms_rest(ts, b + 1),
                                |gs: Seq<Geom<T>>| Geom::Collection(gs),
                            ),
                        },
                    )
                }
            },
        }
    } else {
        Err(ParseError::UnrecognizedKeyword)
    }
}

/// The members of a collection whose open-paren is already consumed.
pub open spec fn p_geoms_rest<T>(ts: Seq<Tok<T>>, pos: int) -> Parsed<Seq<Geom<T>>>
    decreases ts.len() - pos, 1int,
{
    if !(0 <= pos < ts.len()) {
        Err(ParseError::UnexpectedEnd)
    } else {
        match p_geom(ts, pos) {
            Err(e) => Err(e),
            Ok((g, k)) => {
                let p = pos + k;
                if let Some(e) = list_end(ts, p) {
                    Err(e)
                } else if ts[p] is ParenClose {
                    Ok((seq![g], k + 1))
                } else {
                    cons(g, k + 1, p_geoms_rest(ts, p + 1))
                }
            },
        }
    }
}

/// A whole input: one geometry and nothing after it.
pub open spec fn parse_all<T>(ts: Seq<Tok<T>>) -> Result<Geom<T>, ParseError> {
    match p_geom(ts, 0) {
        Err(e) => Err(e),
        Ok((g, k)) => if k == ts.len() {
            Ok(g)
        } else {
            Err(ParseError::Mismatch)
        },
    }
}

} // verus!
