use vstd::prelude::*;
use crate::grammar::{
    coord_len, dim_of, is_empty_word, kind_of, p_coord, p_coords_rest, p_dim, p_geom,
    p_geoms_rest, p_linestring_body, p_point_elem, p_points_rest, p_poly_body, p_polys_rest, p_rings_rest, parse_all,
    Kind, ParseError,
};
use crate::token::{upper, word_is, Tok};
use crate::types::{coord_dim, Coord, Dimension, Geom};
use crate::writer::{
    coord_toks, coords_toks, dim_toks, geom_toks, join, linestring_body_toks, members_from, point_toks, poly_toks,
    polys_dim, ring_toks, rings_dim, word,
};

verus! {

proof fn lemma_keywords()
    ensures
        kind_of("POINT"@) == Some(Kind::Point),
        kind_of("LINESTRING"@) == Some(Kind::LineString),
        kind_of("POLYGON"@) == Some(Kind::Polygon),
        kind_of("MULTIPOINT"@) == Some(Kind::MultiPoint),
        kind_of("MULTILINESTRING"@) == Some(Kind::MultiLineString),
        kind_of("MULTIPOLYGON"@) == Some(Kind::MultiPolygon),
        kind_of("GEOMETRYCOLLECTION"@) == Some(Kind::GeometryCollection),
        word_is("EMPTY"@, "EMPTY"@),
        dim_of("Z"@) == Some(Dimension::XYZ),
        dim_of("M"@) == Some(Dimension::XYM),
        dim_of("ZM"@) == Some(Dimension::XYZM),
        !word_is("Z"@, "EMPTY"@),
        !word_is("M"@, "EMPTY"@),
        !word_is("ZM"@, "EMPTY"@),
{
    reveal_strlit("POINT");
    reveal_strlit("LINESTRING");
    reveal_strlit("POLYGON");
    reveal_strlit("GEOMETRYCOLLECTION");
    reveal_strlit("MULTIPOINT");
    reveal_strlit("MULTILINESTRING");
    reveal_strlit("MULTIPOLYGON");
    assert(!word_is("MULTIPOINT"@, "POINT"@));
    assert(upper("MULTIPOINT"@[0]) != "LINESTRING"@[0] as u32);
    assert(!word_is("MULTIPOINT"@, "LINESTRING"@));
    assert(!word_is("MULTIPOINT"@, "POLYGON"@));
    assert(word_is("MULTIPOINT"@, "MULTIPOINT"@));
    assert(!word_is("MULTILINESTRING"@, "POINT"@));
    assert(!word_is("MULTILINESTRING"@, "LINESTRING"@));
    assert(!word_is("MULTILINESTRING"@, "POLYGON"@));
    assert(!word_is("MULTILINESTRING"@, "MULTIPOINT"@));
    assert(word_is("MULTILINESTRING"@, "MULTILINESTRING"@));
    assert(!word_is("MULTIPOLYGON"@, "POINT"@));
    assert(!word_is("MULTIPOLYGON"@, "LINESTRING"@));
    assert(!word_is("MULTIPOLYGON"@, "POLYGON"@));
    assert(!word_is("MULTIPOLYGON"@, "MULTIPOINT"@));
    assert(!word_is("MULTIPOLYGON"@, "MULTILINESTRING"@));
    assert(word_is("MULTIPOLYGON"@, "MULTIPOLYGON"@));
    assert(!word_is("GEOMETRYCOLLECTION"@, "MULTIPOINT"@));
    assert(!word_is("GEOMETRYCOLLECTION"@, "MULTILINESTRING"@));
    assert(!word_is("GEOMETRYCOLLECTION"@, "MULTIPOLYGON"@));
    reveal_strlit("EMPTY");
    reveal_strlit("Z");
    reveal_strlit("M");
    reveal_strlit("ZM");
    assert(word_is("POINT"@, "POINT"@));
    assert(!word_is("LINESTRING"@, "POINT"@));
    assert(word_is("LINESTRING"@, "LINESTRING"@));
    assert(!word_is("POLYGON"@, "POINT"@));
    assert(!word_is("POLYGON"@, "LINESTRING"@));
    assert(word_is("POLYGON"@, "POLYGON"@));
    assert(!word_is("GEOMETRYCOLLECTION"@, "POINT"@));
    assert(!word_is("GEOMETRYCOLLECTION"@, "LINESTRING"@));
    assert(!word_is("GEOMETRYCOLLECTION"@, "POLYGON"@));
    assert(word_is("GEOMETRYCOLLECTION"@, "GEOMETRYCOLLECTION"@));
    assert(word_is("EMPTY"@, "EMPTY"@));
    assert(word_is("Z"@, "Z"@));
    assert(upper("M"@[0]) != "Z"@[0] as u32);
    assert(!word_is("M"@, "Z"@));
    assert(word_is("M"@, "M"@));
    assert(!word_is("ZM"@, "Z"@));
    assert(!word_is("ZM"@, "M"@));
    assert(word_is("ZM"@, "ZM"@));
}

/// Every coordinate of `cs` has dimension `d`.
pub open spec fn coords_of_dim<T>(cs: Seq<Coord<T>>, d: Dimension) -> bool {
    forall|i: int| 0 <= i < cs.len() ==> coord_dim(#[trigger] cs[i]) == d
}

/// A geometry that the grammar can produce: within one geometry all
/// coordinates share a dimension, and no polygon ring is empty.
pub open spec fn wf<T>(g: Geom<T>) -> bool
    decreases g,
{
    match g {
        Geom::Point(_) => true,
        Geom::LineString(cs) => cs.len() > 0 ==> coords_of_dim(cs, coord_dim(cs[0])),
        Geom::Polygon(rs) => forall|i: int|
            0 <= i < rs.len() ==> #[trigger] rs[i].len() > 0 && coords_of_dim(rs[i], rings_dim(rs)),
        Geom::MultiPoint(cs) => cs.len() > 0 ==> coords_of_dim(cs, coord_dim(cs[0])),
        Geom::MultiLineString(ls) => forall|i: int|
            0 <= i < ls.len() ==> #[trigger] ls[i].len() > 0 && coords_of_dim(ls[i], rings_dim(ls)),
        Geom::MultiPolygon(ps) => forall|i: int|
            0 <= i < ps.len() ==> polys_of_dim(#[trigger] ps[i], polys_dim(ps)),
        Geom::Collection(gs) => forall|i: int| 0 <= i < gs.len() ==> wf(#[trigger] gs[i]),
    }
}

/// A polygon with at least one ring, no ring empty, all of dimension `d`.
pub open spec fn polys_of_dim<T>(rs: Seq<Seq<Coord<T>>>, d: Dimension) -> bool {
    &&& rs.len() > 0
    &&& forall|j: int| 0 <= j < rs.len() ==> #[trigger] rs[j].len() > 0 && coords_of_dim(rs[j], d)
}

/// `xs` stands in `ts` from `pos` on.
pub open spec fn at<T>(ts: Seq<Tok<T>>, pos: int, xs: Seq<Tok<T>>) -> bool {
    0 <= pos && pos + xs.len() <= ts.len() && ts.subrange(pos, pos + xs.len()) == xs
}

proof fn lemma_at_split<T>(ts: Seq<Tok<T>>, pos: int, a: Seq<Tok<T>>, b: Seq<Tok<T>>)
    requires
        at(ts, pos, a + b),
    ensures
        at(ts, pos, a),
        at(ts, pos + a.len(), b),
{
    let whole = ts.subrange(pos, pos + (a + b).len());
    assert(whole == a + b);
    assert(ts.subrange(pos, pos + a.len()) =~= whole.subrange(0, a.len() as int));
    assert(whole.subrange(0, a.len() as int) =~= a);
    assert(ts.subrange(pos + a.len(), pos + a.len() + b.len()) =~= whole.subrange(
        a.len() as int,
        (a.len() + b.len()) as int,
    ));
    assert(whole.subrange(a.len() as int, (a.len() + b.len()) as int) =~= b);
}

proof fn lemma_at_index<T>(ts: Seq<Tok<T>>, pos: int, xs: Seq<Tok<T>>, k: int)
    requires
        at(ts, pos, xs),
        0 <= k < xs.len(),
    ensures
        ts[pos + k] == xs[k],
{
    assert(ts.subrange(pos, pos + xs.len())[k] == ts[pos + k]);
}

proof fn lemma_coord<T>(ts: Seq<Tok<T>>, pos: int, c: Coord<T>)
    requires
        at(ts, pos, coord_toks(c)),
    ensures
        p_coord(ts, pos, coord_dim(c)) == Ok::<Coord<T>, ParseError>(c),
        coord_toks(c).len() == coord_len(coord_dim(c)),
{
    let xs = coord_toks(c);
    lemma_at_index(ts, pos, xs, 0);
    lemma_at_index(ts, pos, xs, 1);
    assert(xs[0] == Tok::Number(c.x));
    assert(xs[1] == Tok::Number(c.y));
    if let Some(z) = c.z {
        lemma_at_index(ts, pos, xs, 2);
        assert(xs[2] == Tok::Number(z));
        if let Some(m) = c.m {
            lemma_at_index(ts, pos, xs, 3);
            assert(xs[3] == Tok::Number(m));
        }
    } else if let Some(m) = c.m {
        lemma_at_index(ts, pos, xs, 2);
        assert(xs[2] == Tok::Number(m));
    }
}

proof fn lemma_coords<T>(ts: Seq<Tok<T>>, pos: int, cs: Seq<Coord<T>>, d: Dimension)
    requires
        cs.len() > 0,
        coords_of_dim(cs, d),
        at(ts, pos, coords_toks(cs)),
    ensures
        p_coords_rest(ts, pos, d) == Ok::<(Seq<Coord<T>>, nat), ParseError>(
            (cs, coords_toks(cs).len()),
        ),
    decreases cs.len(),
{
    let parts = cs.map_values(|c: Coord<T>| coord_toks(c));
    assert(coord_dim(cs[0]) == d);
    let c0 = coord_toks(cs[0]);
    assert(parts[0] == c0);
    if cs.len() == 1 {
        assert(coords_toks(cs) == c0 + seq![Tok::ParenClose]);
        lemma_at_split(ts, pos, c0, seq![Tok::ParenClose]);
        lemma_coord(ts, pos, cs[0]);
        lemma_at_index(ts, pos + c0.len(), seq![Tok::<T>::ParenClose], 0);
        assert(seq![cs[0]] =~= cs);
    } else {
        let rest = cs.drop_first();
        assert(parts.drop_first() =~= rest.map_values(|c: Coord<T>| coord_toks(c)));
        assert(coords_toks(cs) == c0 + seq![Tok::Comma] + coords_toks(rest));
        lemma_at_split(ts, pos, c0 + seq![Tok::Comma], coords_toks(rest));
        lemma_at_split(ts, pos, c0, seq![Tok::Comma]);
        lemma_coord(ts, pos, cs[0]);
        lemma_at_index(ts, pos + c0.len(), seq![Tok::<T>::Comma], 0);
        assert forall|i: int| 0 <= i < rest.len() implies coord_dim(#[trigger] rest[i]) == d by {
            assert(rest[i] == cs[i + 1]);
        }
        lemma_coords(ts, pos + c0.len() + 1, rest, d);
        assert(seq![cs[0]] + rest =~= cs);
    }
}

proof fn lemma_ring<T>(ts: Seq<Tok<T>>, pos: int, r: Seq<Coord<T>>, d: Dimension)
    requires
        r.len() > 0,
        coords_of_dim(r, d),
        at(ts, pos, ring_toks(r)),
    ensures
        crate::grammar::p_coord_list(ts, pos, d) == Ok::<
            (Seq<Coord<T>>, nat),
            ParseError,
        >((r, ring_toks(r).len())),
{
    lemma_at_split(ts, pos, seq![Tok::ParenOpen], coords_toks(r));
    lemma_at_index(ts, pos, seq![Tok::<T>::ParenOpen], 0);
    lemma_coords(ts, pos + 1, r, d);
}

proof fn lemma_rings<T>(ts: Seq<Tok<T>>, pos: int, rs: Seq<Seq<Coord<T>>>, d: Dimension)
    requires
        rs.len() > 0,
        forall|i: int| 0 <= i < rs.len() ==> #[trigger] rs[i].len() > 0 && coords_of_dim(rs[i], d),
        at(ts, pos, join(rs.map_values(|r: Seq<Coord<T>>| ring_toks(r)))),
    ensures
        p_rings_rest(ts, pos, d) == Ok::<(Seq<Seq<Coord<T>>>, nat), ParseError>(
            (rs, join(rs.map_values(|r: Seq<Coord<T>>| ring_toks(r))).len()),
        ),
    decreases rs.len(),
{
    let parts = rs.map_values(|r: Seq<Coord<T>>| ring_toks(r));
    let r0 = ring_toks(rs[0]);
    assert(parts[0] == r0);
    assert(rs[0].len() > 0);
    if rs.len() == 1 {
        assert(join(parts) == r0 + seq![Tok::ParenClose]);
        lemma_at_split(ts, pos, r0, seq![Tok::ParenClose]);
        lemma_ring(ts, pos, rs[0], d);
        lemma_at_index(ts, pos + r0.len(), seq![Tok::<T>::ParenClose], 0);
        assert(seq![rs[0]] =~= rs);
    } else {
        let rest = rs.drop_first();
        assert(parts.drop_first() =~= rest.map_values(|r: Seq<Coord<T>>| ring_toks(r)));
        let jr = join(rest.map_values(|r: Seq<Coord<T>>| ring_toks(r)));
        assert(join(parts) == r0 + seq![Tok::Comma] + jr);
        lemma_at_split(ts, pos, r0 + seq![Tok::Comma], jr);
        lemma_at_split(ts, pos, r0, seq![Tok::Comma]);
        lemma_ring(ts, pos, rs[0], d);
        lemma_at_index(ts, pos + r0.len(), seq![Tok::<T>::Comma], 0);
        assert forall|i: int| 0 <= i < rest.len() implies #[trigger] rest[i].len() > 0
            && coords_of_dim(rest[i], d) by {
            assert(rest[i] == rs[i + 1]);
            assert(rs[i + 1].len() > 0);
        }
        lemma_rings(ts, pos + r0.len() + 1, rest, d);
        assert(seq![rs[0]] + rest =~= rs);
    }
}

proof fn lemma_point_elem<T>(ts: Seq<Tok<T>>, pos: int, c: Coord<T>)
    requires
        at(ts, pos, point_toks(c)),
    ensures
        p_point_elem(ts, pos, coord_dim(c)) == Ok::<Coord<T>, ParseError>(c),
        point_toks(c).len() == coord_len(coord_dim(c)) + 2,
{
    let o = seq![Tok::<T>::ParenOpen];
    let cl = seq![Tok::<T>::ParenClose];
    lemma_at_split(ts, pos, o + coord_toks(c), cl);
    lemma_at_split(ts, pos, o, coord_toks(c));
    lemma_at_index(ts, pos, o, 0);
    lemma_coord(ts, pos + 1, c);
    lemma_at_index(ts, pos + 1 + coord_toks(c).len(), cl, 0);
}

proof fn lemma_points<T>(ts: Seq<Tok<T>>, pos: int, cs: Seq<Coord<T>>, d: Dimension)
    requires
        cs.len() > 0,
        coords_of_dim(cs, d),
        at(ts, pos, join(cs.map_values(|c: Coord<T>| point_toks(c)))),
    ensures
        p_points_rest(ts, pos, d) == Ok::<(Seq<Coord<T>>, nat), ParseError>(
            (cs, join(cs.map_values(|c: Coord<T>| point_toks(c))).len()),
        ),
    decreases cs.len(),
{
    let parts = cs.map_values(|c: Coord<T>| point_toks(c));
    assert(coord_dim(cs[0]) == d);
    let c0 = point_toks(cs[0]);
    assert(parts[0] == c0);
    if cs.len() == 1 {
        assert(join(parts) == c0 + seq![Tok::ParenClose]);
        lemma_at_split(ts, pos, c0, seq![Tok::ParenClose]);
        lemma_point_elem(ts, pos, cs[0]);
        lemma_at_index(ts, pos + c0.len(), seq![Tok::<T>::ParenClose], 0);
        assert(seq![cs[0]] =~= cs);
    } else {
        let rest = cs.drop_first();
        assert(parts.drop_first() =~= rest.map_values(|c: Coord<T>| point_toks(c)));
        let jr = join(rest.map_values(|c: Coord<T>| point_toks(c)));
        assert(join(parts) == c0 + seq![Tok::Comma] + jr);
        lemma_at_split(ts, pos, c0 + seq![Tok::Comma], jr);
        lemma_at_split(ts, pos, c0, seq![Tok::Comma]);
        lemma_point_elem(ts, pos, cs[0]);
        lemma_at_index(ts, pos + c0.len(), seq![Tok::<T>::Comma], 0);
        assert forall|i: int| 0 <= i < rest.len() implies coord_dim(#[trigger] rest[i]) == d by {
            assert(rest[i] == cs[i + 1]);
        }
        lemma_points(ts, pos + c0.len() + 1, rest, d);
        assert(seq![cs[0]] + rest =~= cs);
    }
}

proof fn lemma_poly<T>(ts: Seq<Tok<T>>, pos: int, rs: Seq<Seq<Coord<T>>>, d: Dimension)
    requires
        polys_of_dim(rs, d),
        at(ts, pos, poly_toks(rs)),
    ensures
        p_poly_body(ts, pos, d) == Ok::<(Seq<Seq<Coord<T>>>, nat), ParseError>(
            (rs, poly_toks(rs).len()),
        ),
{
    let body = join(rs.map_values(|r: Seq<Coord<T>>| ring_toks(r)));
    lemma_at_split(ts, pos, seq![Tok::ParenOpen], body);
    lemma_at_index(ts, pos, seq![Tok::<T>::ParenOpen], 0);
    lemma_rings(ts, pos + 1, rs, d);
}

proof fn lemma_polys<T>(ts: Seq<Tok<T>>, pos: int, ps: Seq<Seq<Seq<Coord<T>>>>, d: Dimension)
    requires
        ps.len() > 0,
        forall|i: int| 0 <= i < ps.len() ==> polys_of_dim(#[trigger] ps[i], d),
        at(ts, pos, join(ps.map_values(|p: Seq<Seq<Coord<T>>>| poly_toks(p)))),
    ensures
        p_polys_rest(ts, pos, d) == Ok::<(Seq<Seq<Seq<Coord<T>>>>, nat), ParseError>(
            (ps, join(ps.map_values(|p: Seq<Seq<Coord<T>>>| poly_toks(p))).len()),
        ),
    decreases ps.len(),
{
    let parts = ps.map_values(|p: Seq<Seq<Coord<T>>>| poly_toks(p));
    let p0 = poly_toks(ps[0]);
    assert(parts[0] == p0);
    assert(polys_of_dim(ps[0], d));
    if ps.len() == 1 {
        assert(join(parts) == p0 + seq![Tok::ParenClose]);
        lemma_at_split(ts, pos, p0, seq![Tok::ParenClose]);
        lemma_poly(ts, pos, ps[0], d);
        lemma_at_index(ts, pos + p0.len(), seq![Tok::<T>::ParenClose], 0);
        assert(seq![ps[0]] =~= ps);
    } else {
        let rest = ps.drop_first();
        assert(parts.drop_first() =~= rest.map_values(|p: Seq<Seq<Coord<T>>>| poly_toks(p)));
        let jr = join(rest.map_values(|p: Seq<Seq<Coord<T>>>| poly_toks(p)));
        assert(join(parts) == p0 + seq![Tok::Comma] + jr);
        lemma_at_split(ts, pos, p0 + seq![Tok::Comma], jr);
        lemma_at_split(ts, pos, p0, seq![Tok::Comma]);
        lemma_poly(ts, pos, ps[0], d);
        lemma_at_index(ts, pos + p0.len(), seq![Tok::<T>::Comma], 0);
        assert forall|i: int| 0 <= i < rest.len() implies polys_of_dim(#[trigger] rest[i], d) by {
            assert(rest[i] == ps[i + 1]);
        }
        lemma_polys(ts, pos + p0.len() + 1, rest, d);
        assert(seq![ps[0]] + rest =~= ps);
    }
}

proof fn lemma_header<T>(
    ts: Seq<Tok<T>>,
    pos: int,
    kw: Seq<char>,
    d: Dimension,
    body: Seq<Tok<T>>,
)
    requires
        at(ts, pos, seq![word::<T>(kw)] + dim_toks::<T>(d) + seq![Tok::<T>::ParenOpen] + body),
    ensures
        ts[pos] == word::<T>(kw),
        p_dim(ts, pos + 1) == Ok::<(Dimension, nat), ParseError>(
            (d, dim_toks::<T>(d).len()),
        ),
        ts[pos + 1 + dim_toks::<T>(d).len()] == Tok::<T>::ParenOpen,
        !is_empty_word(ts, pos + 1 + dim_toks::<T>(d).len()),
        at(ts, pos + 2 + dim_toks::<T>(d).len(), body),
{
    let k = seq![word::<T>(kw)];
    let dt = dim_toks::<T>(d);
    let o = seq![Tok::<T>::ParenOpen];
    lemma_at_split(ts, pos, k + dt + o, body);
    lemma_at_split(ts, pos, k + dt, o);
    lemma_at_split(ts, pos, k, dt);
    lemma_at_index(ts, pos, k, 0);
    lemma_at_index(ts, pos + 1 + dt.len(), o, 0);
    lemma_keywords();
    if dt.len() > 0 {
        lemma_at_index(ts, pos + 1, dt, 0);
    }
}

proof fn lemma_empty_form<T>(ts: Seq<Tok<T>>, pos: int, kw: Seq<char>)
    requires
        at(ts, pos, seq![word::<T>(kw), word::<T>("EMPTY"@)]),
    ensures
        ts[pos] == word::<T>(kw),
        p_dim(ts, pos + 1) == Ok::<(Dimension, nat), ParseError>((Dimension::XY, 0)),
        is_empty_word(ts, pos + 1),
{
    lemma_at_index(ts, pos, seq![word::<T>(kw), word::<T>("EMPTY"@)], 0);
    lemma_at_index(ts, pos, seq![word::<T>(kw), word::<T>("EMPTY"@)], 1);
    lemma_keywords();
}

proof fn lemma_geom_point<T>(ts: Seq<Tok<T>>, pos: int, p: Option<Coord<T>>)
    requires
        at(ts, pos, geom_toks(Geom::Point(p))),
    ensures
        p_geom(ts, pos) == Ok::<(Geom<T>, nat), ParseError>(
            (Geom::Point(p), geom_toks(Geom::Point(p)).len()),
        ),
{
    lemma_keywords();
    let g = Geom::Point(p);
    match p {
        None => {
            lemma_empty_form(ts, pos, "POINT"@);
        },
        Some(c) => {
            let d = coord_dim(c);
            let body = coord_toks(c) + seq![Tok::ParenClose];
            assert(geom_toks(g) == seq![word::<T>("POINT"@)] + dim_toks::<T>(d) + seq![
                Tok::<T>::ParenOpen,
            ] + body);
            lemma_header(ts, pos, "POINT"@, d, body);
            let b = pos + 2 + dim_toks::<T>(d).len();
            lemma_at_split(ts, b, coord_toks(c), seq![Tok::ParenClose]);
            lemma_coord(ts, b, c);
            lemma_at_index(ts, b + coord_toks(c).len(), seq![Tok::<T>::ParenClose], 0);
        },
    }
}

proof fn lemma_geom_linestring<T>(ts: Seq<Tok<T>>, pos: int, cs: Seq<Coord<T>>)
    requires
        wf(Geom::LineString(cs)),
        at(ts, pos, geom_toks(Geom::LineString(cs))),
    ensures
        p_geom(ts, pos) == Ok::<(Geom<T>, nat), ParseError>(
            (Geom::LineString(cs), geom_toks(Geom::LineString(cs)).len()),
        ),
{
    lemma_keywords();
    if cs.len() == 0 {
        lemma_empty_form(ts, pos, "LINESTRING"@);
        assert(cs =~= seq![]);
    } else {
        let d = coord_dim(cs[0]);
        lemma_header(ts, pos, "LINESTRING"@, d, coords_toks(cs));
        lemma_coords(ts, pos + 2 + dim_toks::<T>(d).len(), cs, d);
    }
}

proof fn lemma_geom_polygon<T>(ts: Seq<Tok<T>>, pos: int, rs: Seq<Seq<Coord<T>>>)
    requires
        wf(Geom::Polygon(rs)),
        at(ts, pos, geom_toks(Geom::Polygon(rs))),
    ensures
        p_geom(ts, pos) == Ok::<(Geom<T>, nat), ParseError>(
            (Geom::Polygon(rs), geom_toks(Geom::Polygon(rs)).len()),
        ),
{
    lemma_keywords();
    if rs.len() == 0 {
        lemma_empty_form(ts, pos, "POLYGON"@);
        assert(rs =~= seq![]);
    } else {
        let d = rings_dim(rs);
        let body = join(rs.map_values(|r: Seq<Coord<T>>| ring_toks(r)));
        lemma_header(ts, pos, "POLYGON"@, d, body);
        lemma_rings(ts, pos + 2 + dim_toks::<T>(d).len(), rs, d);
    }
}

proof fn lemma_geom_multipoint<T>(ts: Seq<Tok<T>>, pos: int, cs: Seq<Coord<T>>)
    requires
        wf(Geom::MultiPoint(cs)),
        at(ts, pos, geom_toks(Geom::MultiPoint(cs))),
    ensures
        p_geom(ts, pos) == Ok::<(Geom<T>, nat), ParseError>(
            (Geom::MultiPoint(cs), geom_toks(Geom::MultiPoint(cs)).len()),
        ),
{
    lemma_keywords();
    if cs.len() == 0 {
        lemma_empty_form(ts, pos, "MULTIPOINT"@);
        assert(cs =~= seq![]);
    } else {
        let d = coord_dim(cs[0]);
        let body = join(cs.map_values(|c: Coord<T>| point_toks(c)));
        lemma_header(ts, pos, "MULTIPOINT"@, d, body);
        lemma_points(ts, pos + 2 + dim_toks::<T>(d).len(), cs, d);
    }
}

proof fn lemma_geom_multilinestring<T>(ts: Seq<Tok<T>>, pos: int, ls: Seq<Seq<Coord<T>>>)
    requires
        wf(Geom::MultiLineString(ls)),
        at(ts, pos, geom_toks(Geom::MultiLineString(ls))),
    ensures
        p_geom(ts, pos) == Ok::<(Geom<T>, nat), ParseError>(
            (Geom::MultiLineString(ls), geom_toks(Geom::MultiLineString(ls)).len()),
        ),
{
    lemma_keywords();
    if ls.len() == 0 {
        lemma_empty_form(ts, pos, "MULTILINESTRING"@);
        assert(ls =~= seq![]);
    } else {
        let d = rings_dim(ls);
        let body = join(ls.map_values(|r: Seq<Coord<T>>| ring_toks(r)));
        lemma_header(ts, pos, "MULTILINESTRING"@, d, body);
        lemma_rings(ts, pos + 2 + dim_toks::<T>(d).len(), ls, d);
    }
}

proof fn lemma_geom_multipolygon<T>(ts: Seq<Tok<T>>, pos: int, ps: Seq<Seq<Seq<Coord<T>>>>)
    requires
        wf(Geom::MultiPolygon(ps)),
        at(ts, pos, geom_toks(Geom::MultiPolygon(ps))),
    ensures
        p_geom(ts, pos) == Ok::<(Geom<T>, nat), ParseError>(
            (Geom::MultiPolygon(ps), geom_toks(Geom::MultiPolygon(ps)).len()),
        ),
{
    lemma_keywords();
    if ps.len() == 0 {
        lemma_empty_form(ts, pos, "MULTIPOLYGON"@);
        assert(ps =~= seq![]);
    } else {
        let d = polys_dim(ps);
        let body = join(ps.map_values(|p: Seq<Seq<Coord<T>>>| poly_toks(p)));
        lemma_header(ts, pos, "MULTIPOLYGON"@, d, body);
        lemma_polys(ts, pos + 2 + dim_toks::<T>(d).len(), ps, d);
    }
}

/// The canonical tokens of a well-formed geometry parse back to it, wherever
/// they stand.
proof fn lemma_geom<T>(ts: Seq<Tok<T>>, pos: int, g: Geom<T>)
    requires
        wf(g),
        at(ts, pos, geom_toks(g)),
    ensures
        p_geom(ts, pos) == Ok::<(Geom<T>, nat), ParseError>(
            (g, geom_toks(g).len()),
        ),
    decreases g, 0int,
{
    match g {
        Geom::Point(p) => lemma_geom_point(ts, pos, p),
        Geom::LineString(cs) => lemma_geom_linestring(ts, pos, cs),
        Geom::Polygon(rs) => lemma_geom_polygon(ts, pos, rs),
        Geom::MultiPoint(cs) => lemma_geom_multipoint(ts, pos, cs),
        Geom::MultiLineString(ls) => lemma_geom_multilinestring(ts, pos, ls),
        Geom::MultiPolygon(ps) => lemma_geom_multipolygon(ts, pos, ps),
        Geom::Collection(gs) => {
            lemma_keywords();
            if gs.len() == 0 {
                lemma_empty_form(ts, pos, "GEOMETRYCOLLECTION"@);
                assert(gs =~= seq![]);
            } else {
                let body = members_from(gs, 0);
                assert(geom_toks(g) == seq![word::<T>("GEOMETRYCOLLECTION"@)] + dim_toks::<T>(
                    Dimension::XY,
                ) + seq![Tok::<T>::ParenOpen] + body);
                lemma_header(ts, pos, "GEOMETRYCOLLECTION"@, Dimension::XY, body);
                lemma_members(ts, pos + 2, gs, 0);
                assert(gs.subrange(0, gs.len() as int) =~= gs);
            }
        },
    }
}

proof fn lemma_members<T>(ts: Seq<Tok<T>>, pos: int, gs: Seq<Geom<T>>, i: int)
    requires
        0 <= i < gs.len(),
        forall|j: int| 0 <= j < gs.len() ==> wf(#[trigger] gs[j]),
        at(ts, pos, members_from(gs, i)),
    ensures
        p_geoms_rest(ts, pos) == Ok::<(Seq<Geom<T>>, nat), ParseError>(
            (gs.subrange(i, gs.len() as int), members_from(gs, i).len()),
        ),
    decreases gs, gs.len() - i,
{
    let gt = geom_toks(gs[i]);
    if i + 1 < gs.len() {
        let tail = seq![Tok::Comma] + members_from(gs, i + 1);
        assert(members_from(gs, i) == gt + tail);
        lemma_at_split(ts, pos, gt, tail);
        lemma_at_split(ts, pos + gt.len(), seq![Tok::Comma], members_from(gs, i + 1));
        lemma_at_index(ts, pos + gt.len(), seq![Tok::<T>::Comma], 0);
        lemma_geom(ts, pos, gs[i]);
        lemma_members(ts, pos + gt.len() + 1, gs, i + 1);
        assert(seq![gs[i]] + gs.subrange(i + 1, gs.len() as int) =~= gs.subrange(
            i,
            gs.len() as int,
        ));
    } else {
        assert(members_from(gs, i) == gt + seq![Tok::ParenClose]);
        lemma_at_split(ts, pos, gt, seq![Tok::ParenClose]);
        lemma_at_index(ts, pos + gt.len(), seq![Tok::<T>::ParenClose], 0);
        lemma_geom(ts, pos, gs[i]);
        assert(seq![gs[i]] =~= gs.subrange(i, gs.len() as int));
    }
}

proof fn lemma_coords_parsed<T>(ts: Seq<Tok<T>>, pos: int, d: Dimension)
    ensures
        p_coords_rest(ts, pos, d) matches Ok((cs, _)) ==> cs.len() > 0 && coords_of_dim(cs, d),
    decreases ts.len() - pos,
{
    if let Ok(c) = p_coord(ts, pos, d) {
        let p = pos + coord_len(d);
        if p < ts.len() && ts[p] is Comma {
            lemma_coords_parsed(ts, p + 1, d);
            if let Ok((rest, _)) = p_coords_rest(ts, p + 1, d) {
                let cs = seq![c] + rest;
                assert forall|i: int| 0 <= i < cs.len() implies coord_dim(#[trigger] cs[i]) == d by {
                    if i > 0 {
                        assert(cs[i] == rest[i - 1]);
                    }
                }
            }
        }
    }
}

proof fn lemma_rings_parsed<T>(ts: Seq<Tok<T>>, pos: int, d: Dimension)
    ensures
        p_rings_rest(ts, pos, d) matches Ok((rs, _)) ==> rs.len() > 0 && forall|i: int|
            0 <= i < rs.len() ==> #[trigger] rs[i].len() > 0 && coords_of_dim(rs[i], d),
    decreases ts.len() - pos,
{
    lemma_coords_parsed(ts, pos + 1, d);
    if let Ok((r, k)) = crate::grammar::p_coord_list(ts, pos, d) {
        let p = pos + k;
        if p < ts.len() && ts[p] is Comma {
            lemma_rings_parsed(ts, p + 1, d);
            if let Ok((rest, _)) = p_rings_rest(ts, p + 1, d) {
                let rs = seq![r] + rest;
                assert forall|i: int| 0 <= i < rs.len() implies #[trigger] rs[i].len() > 0
                    && coords_of_dim(rs[i], d) by {
                    if i > 0 {
                        assert(rs[i] == rest[i - 1]);
                    }
                }
            }
        }
    }
}

proof fn lemma_points_parsed<T>(ts: Seq<Tok<T>>, pos: int, d: Dimension)
    ensures
        p_points_rest(ts, pos, d) matches Ok((cs, _)) ==> cs.len() > 0 && coords_of_dim(cs, d),
    decreases ts.len() - pos,
{
    if let Ok(c) = p_point_elem(ts, pos, d) {
        let p = pos + coord_len(d) + 2;
        if p < ts.len() && ts[p] is Comma {
            lemma_points_parsed(ts, p + 1, d);
            if let Ok((rest, _)) = p_points_rest(ts, p + 1, d) {
                let cs = seq![c] + rest;
                assert forall|i: int| 0 <= i < cs.len() implies coord_dim(#[trigger] cs[i]) == d by {
                    if i > 0 {
                        assert(cs[i] == rest[i - 1]);
                    }
                }
            }
        }
    }
}

proof fn lemma_polys_parsed<T>(ts: Seq<Tok<T>>, pos: int, d: Dimension)
    ensures
        p_polys_rest(ts, pos, d) matches Ok((ps, _)) ==> ps.len() > 0 && forall|i: int|
            0 <= i < ps.len() ==> polys_of_dim(#[trigger] ps[i], d),
    decreases ts.len() - pos,
{
    lemma_rings_parsed(ts, pos + 1, d);
    if let Ok((pg, k)) = p_poly_body(ts, pos, d) {
        let p = pos + k;
        if p < ts.len() && ts[p] is Comma {
            lemma_polys_parsed(ts, p + 1, d);
            if let Ok((rest, _)) = p_polys_rest(ts, p + 1, d) {
                let ps = seq![pg] + rest;
                assert forall|i: int| 0 <= i < ps.len() implies polys_of_dim(#[trigger] ps[i], d) by {
                    if i > 0 {
                        assert(ps[i] == rest[i - 1]);
                    }
                }
            }
        }
    }
}

proof fn lemma_geom_parsed<T>(ts: Seq<Tok<T>>, pos: int)
    ensures
        p_geom(ts, pos) matches Ok((g, _)) ==> wf(g),
    decreases ts.len() - pos, 0int,
{
    if 0 <= pos < ts.len() && ts[pos] is Word {
        if let Some(k) = kind_of(ts[pos]->Word_0) {
            if let Ok((d, n)) = p_dim(ts, pos + 1) {
                let b = pos + 1 + n;
                lemma_coords_parsed(ts, b + 1, d);
                lemma_rings_parsed(ts, b + 1, d);
                lemma_points_parsed(ts, b + 1, d);
                lemma_polys_parsed(ts, b + 1, d);
                if k == Kind::GeometryCollection && b < ts.len() {
                    lemma_members_parsed(ts, b + 1);
                }
                if let Ok((Geom::Polygon(rs), _)) = p_geom(ts, pos) {
                    if rs.len() > 0 {
                        assert(rings_dim(rs) == d);
                    }
                }
                if let Ok((Geom::MultiLineString(ls), _)) = p_geom(ts, pos) {
                    if ls.len() > 0 {
                        assert(rings_dim(ls) == d);
                    }
                }
                if let Ok((Geom::MultiPolygon(ps), _)) = p_geom(ts, pos) {
                    if ps.len() > 0 {
                        assert(polys_of_dim(ps[0], d));
                        assert(rings_dim(ps[0]) == d);
                        assert(polys_dim(ps) == d);
                    }
                }
            }
        }
    }
}

proof fn lemma_members_parsed<T>(ts: Seq<Tok<T>>, pos: int)
    ensures
        p_geoms_rest(ts, pos) matches Ok((gs, _)) ==> forall|j: int|
            0 <= j < gs.len() ==> wf(#[trigger] gs[j]),
    decreases ts.len() - pos, 1int,
{
    if 0 <= pos < ts.len() {
        lemma_geom_parsed(ts, pos);
        if let Ok((g, k)) = p_geom(ts, pos) {
            let p = pos + k;
            if p < ts.len() && ts[p] is Comma {
                lemma_members_parsed(ts, p + 1);
                if let Ok((rest, _)) = p_geoms_rest(ts, p + 1) {
                    let gs = seq![g] + rest;
                    assert forall|j: int| 0 <= j < gs.len() implies wf(#[trigger] gs[j]) by {
                        if j > 0 {
                            assert(gs[j] == rest[j - 1]);
                        }
                    }
                }
            }
        }
    }
}

/// Parsing the canonical tokens of a well-formed geometry gives that
/// geometry back.
pub proof fn lemma_parse_canonical<T>(g: Geom<T>)
    requires
        wf(g),
    ensures
        parse_all(geom_toks(g)) == Ok::<Geom<T>, ParseError>(g),
{
    let ts = geom_toks(g);
    assert(ts.subrange(0, ts.len() as int) =~= ts);
    lemma_geom(ts, 0, g);
}

/// Every geometry that the parser accepts is well formed.
pub proof fn lemma_parsed_wf<T>(ts: Seq<Tok<T>>)
    requires
        parse_all(ts) is Ok,
    ensures
        wf(parse_all(ts)->Ok_0),
{
    lemma_geom_parsed(ts, 0);
}

/// Writing a parsed geometry and parsing the result gives the same geometry.
pub proof fn lemma_round_trip<T>(ts: Seq<Tok<T>>)
    requires
        parse_all(ts) is Ok,
    ensures
        parse_all(geom_toks(parse_all(ts)->Ok_0)) == parse_all(ts),
{
    lemma_parsed_wf(ts);
    lemma_parse_canonical(parse_all(ts)->Ok_0);
}

/// Where a list element is due, a close-paren is a mismatch, in a list of
/// coordinates, of rings and of geometries alike; so a comma before the
/// closing paren never parses.
pub proof fn lemma_close_where_element_due<T>(ts: Seq<Tok<T>>, pos: int, d: Dimension)
    requires
        0 <= pos < ts.len(),
        ts[pos] == Tok::<T>::ParenClose,
    ensures
        p_coords_rest(ts, pos, d) == Err::<(Seq<Coord<T>>, nat), ParseError>(ParseError::Mismatch),
        p_rings_rest(ts, pos, d) == Err::<(Seq<Seq<Coord<T>>>, nat), ParseError>(
            ParseError::Mismatch,
        ),
        p_geoms_rest(ts, pos) == Err::<(Seq<Geom<T>>, nat), ParseError>(ParseError::Mismatch),
        p_points_rest(ts, pos, d) == Err::<(Seq<Coord<T>>, nat), ParseError>(ParseError::Mismatch),
        p_polys_rest(ts, pos, d) == Err::<(Seq<Seq<Seq<Coord<T>>>>, nat), ParseError>(
            ParseError::Mismatch,
        ),
{
    assert(p_geom(ts, pos) == Err::<(Geom<T>, nat), ParseError>(ParseError::Mismatch));
}

/// A comma followed by a close-paren inside a list makes the whole list
/// fail with a mismatch.
pub proof fn lemma_trailing_comma<T>(ts: Seq<Tok<T>>, p: int, d: Dimension)
    requires
        0 <= p,
        p + 1 < ts.len(),
        ts[p] == Tok::<T>::Comma,
        ts[p + 1] == Tok::<T>::ParenClose,
    ensures
        p_coords_rest(ts, p + 1, d) == Err::<(Seq<Coord<T>>, nat), ParseError>(
            ParseError::Mismatch,
        ),
        p_rings_rest(ts, p + 1, d) == Err::<(Seq<Seq<Coord<T>>>, nat), ParseError>(
            ParseError::Mismatch,
        ),
        p_geoms_rest(ts, p + 1) == Err::<(Seq<Geom<T>>, nat), ParseError>(ParseError::Mismatch),
        p_points_rest(ts, p + 1, d) == Err::<(Seq<Coord<T>>, nat), ParseError>(
            ParseError::Mismatch,
        ),
        p_polys_rest(ts, p + 1, d) == Err::<(Seq<Seq<Seq<Coord<T>>>>, nat), ParseError>(
            ParseError::Mismatch,
        ),
{
    lemma_close_where_element_due(ts, p + 1, d);
}

/// A word that names no geometry kind fails with the unrecognised-keyword
/// error; no kind is taken in its place.
pub proof fn lemma_unknown_keyword<T>(ts: Seq<Tok<T>>, pos: int)
    requires
        0 <= pos < ts.len(),
        ts[pos] is Word,
        kind_of(ts[pos]->Word_0) is None,
    ensures
        p_geom(ts, pos) == Err::<(Geom<T>, nat), ParseError>(ParseError::UnrecognizedKeyword),
        pos == 0 ==> parse_all(ts) == Err::<Geom<T>, ParseError>(ParseError::UnrecognizedKeyword),
{
}

/// The written form of a line string is its keyword, the suffix of its
/// dimension when it has coordinates, and its body.
pub proof fn lemma_linestring_toks<T>(cs: Seq<Coord<T>>)
    ensures
        cs.len() == 0 ==> geom_toks(Geom::LineString(cs)) == seq![word::<T>("LINESTRING"@)]
            + linestring_body_toks(cs),
        cs.len() > 0 ==> geom_toks(Geom::LineString(cs)) == seq![word::<T>("LINESTRING"@)]
            + dim_toks::<T>(coord_dim(cs[0])) + linestring_body_toks(cs),
{
    if cs.len() == 0 {
        assert(geom_toks(Geom::LineString(cs)) =~= seq![word::<T>("LINESTRING"@)]
            + linestring_body_toks(cs));
    } else {
        assert(geom_toks(Geom::LineString(cs)) =~= seq![word::<T>("LINESTRING"@)] + dim_toks::<T>(
            coord_dim(cs[0]),
        ) + linestring_body_toks(cs));
    }
}

/// Whatever line string body parses at dimension `d`, writing its body and
/// parsing that again at `d` gives the same coordinates, in the same order,
/// with z and m where they were.
pub proof fn lemma_linestring_body_round_trip<T>(ts: Seq<Tok<T>>, pos: int, d: Dimension)
    requires
        p_linestring_body(ts, pos, d) is Ok,
    ensures
        ({
            let cs = p_linestring_body(ts, pos, d)->Ok_0.0;
            let out = linestring_body_toks(cs);
            p_linestring_body(out, 0, d) == Ok::<(Seq<Coord<T>>, nat), ParseError>(
                (cs, out.len()),
            )
        }),
{
    lemma_keywords();
    let cs = p_linestring_body(ts, pos, d)->Ok_0.0;
    let out = linestring_body_toks(cs);
    assert(out.subrange(0, out.len() as int) =~= out);
    if is_empty_word(ts, pos) {
        assert(cs =~= seq![]);
        assert(is_empty_word(out, 0));
    } else {
        lemma_coords_parsed(ts, pos + 1, d);
        lemma_at_split(out, 0, seq![Tok::ParenOpen], coords_toks(cs));
        lemma_at_index(out, 0, seq![Tok::<T>::ParenOpen], 0);
        lemma_coords(out, 1, cs, d);
        assert(!is_empty_word(out, 0));
    }
}

} // verus!
