use vstd::prelude::*;
use vstd::string::*;
use crate::parser::{models, polys_view, rings_view};
use crate::token::{toks_view, Tok, Token};
use crate::types::{
    coord_dim, Coord, Dimension, Geom, Geometry, LineString, MultiLineString, MultiPoint,
    MultiPolygon, Point, Polygon,
};

verus! {

/// A word token of the given text.
pub open spec fn word<T>(kw: Seq<char>) -> Tok<T> {
    Tok::Word(kw)
}

/// The values of a coordinate, in the order x, y, z, m.
pub open spec fn coord_toks<T>(c: Coord<T>) -> Seq<Tok<T>> {
    seq![Tok::Number(c.x), Tok::Number(c.y)] + (if let Some(z) = c.z {
        seq![Tok::Number(z)]
    } else {
        seq![]
    }) + (if let Some(m) = c.m {
        seq![Tok::Number(m)]
    } else {
        seq![]
    })
}

/// Elements separated by commas, then a close-paren.
pub open spec fn join<T>(parts: Seq<Seq<Tok<T>>>) -> Seq<Tok<T>>
    decreases parts.len(),
{
    if parts.len() <= 1 {
        (if parts.len() == 1 { parts[0] } else { seq![] }) + seq![Tok::ParenClose]
    } else {
        parts[0] + seq![Tok::Comma] + join(parts.drop_first())
    }
}

/// The suffix word of a dimension; none for plain x y.
pub open spec fn dim_toks<T>(d: Dimension) -> Seq<Tok<T>> {
    match d {
        Dimension::XY => seq![],
        Dimension::XYZ => seq![word("Z"@)],
        Dimension::XYM => seq![word("M"@)],
        Dimension::XYZM => seq![word("ZM"@)],
    }
}

/// Coordinates separated by commas, then a close-paren.
pub open spec fn coords_toks<T>(cs: Seq<Coord<T>>) -> Seq<Tok<T>> {
    join(cs.map_values(|c: Coord<T>| coord_toks(c)))
}

/// A ring: its coordinates in parentheses.
pub open spec fn ring_toks<T>(r: Seq<Coord<T>>) -> Seq<Tok<T>> {
    seq![Tok::ParenOpen] + coords_toks(r)
}

/// The dimension of a polygon: that of the first coordinate of its first ring.
pub open spec fn rings_dim<T>(rs: Seq<Seq<Coord<T>>>) -> Dimension {
    if rs.len() > 0 && rs[0].len() > 0 {
        coord_dim(rs[0][0])
    } else {
        Dimension::XY
    }
}

/// The body of a line string after its keyword and suffix: EMPTY, or its
/// coordinates in parentheses.
pub open spec fn linestring_body_toks<T>(cs: Seq<Coord<T>>) -> Seq<Tok<T>> {
    if cs.len() == 0 {
        seq![word("EMPTY"@)]
    } else {
        seq![Tok::ParenOpen] + coords_toks(cs)
    }
}

/// One member of a multi-point: its coordinate in parentheses.
pub open spec fn point_toks<T>(c: Coord<T>) -> Seq<Tok<T>> {
    seq![Tok::ParenOpen] + coord_toks(c) + seq![Tok::ParenClose]
}

/// One member of a multi-polygon: its rings in parentheses.
pub open spec fn poly_toks<T>(rs: Seq<Seq<Coord<T>>>) -> Seq<Tok<T>> {
    seq![Tok::ParenOpen] + join(rs.map_values(|r: Seq<Coord<T>>| ring_toks(r)))
}

/// The dimension of a multi-polygon: that of its first polygon.
pub open spec fn polys_dim<T>(ps: Seq<Seq<Seq<Coord<T>>>>) -> Dimension {
    if ps.len() > 0 {
        rings_dim(ps[0])
    } else {
        Dimension::XY
    }
}

/// The canonical tokens of a geometry: keyword, dimension suffix taken from
/// the first coordinate, then EMPTY or the parenthesised elements.
pub open spec fn geom_toks<T>(g: Geom<T>) -> Seq<Tok<T>>
    decreases g, 0int,
{
    match g {
        Geom::Point(None) => seq![word("POINT"@), word("EMPTY"@)],
        Geom::Point(Some(c)) => seq![word("POINT"@)] + dim_toks(coord_dim(c)) + seq![
            Tok::ParenOpen,
        ] + coord_toks(c) + seq![Tok::ParenClose],
        Geom::LineString(cs) => if cs.len() == 0 {
            seq![word("LINESTRING"@), word("EMPTY"@)]
        } else {
            seq![word("LINESTRING"@)] + dim_toks(coord_dim(cs[0])) + seq![Tok::ParenOpen]
                + coords_toks(cs)
        },
        Geom::Polygon(rs) => if rs.len() == 0 {
            seq![word("POLYGON"@), word("EMPTY"@)]
        } else {
            seq![word("POLYGON"@)] + dim_toks(rings_dim(rs)) + seq![Tok::ParenOpen] + join(
                rs.map_values(|r: Seq<Coord<T>>| ring_toks(r)),
            )
        },
        Geom::MultiPoint(cs) => if cs.len() == 0 {
            seq![word("MULTIPOINT"@), word("EMPTY"@)]
        } else {
            seq![word("MULTIPOINT"@)] + dim_toks(coord_dim(cs[0])) + seq![Tok::ParenOpen] + join(
                cs.map_values(|c: Coord<T>| point_toks(c)),
            )
        },
        Geom::MultiLineString(ls) => if ls.len() == 0 {
            seq![word("MULTILINESTRING"@), word("EMPTY"@)]
        } else {
            seq![word("MULTILINESTRING"@)] + dim_toks(rings_dim(ls)) + seq![Tok::ParenOpen] + join(
                ls.map_values(|r: Seq<Coord<T>>| ring_toks(r)),
            )
        },
        Geom::MultiPolygon(ps) => if ps.len() == 0 {
            seq![word("MULTIPOLYGON"@), word("EMPTY"@)]
        } else {
            seq![word("MULTIPOLYGON"@)] + dim_toks(polys_dim(ps)) + seq![Tok::ParenOpen] + join(
                ps.map_values(|p: Seq<Seq<Coord<T>>>| poly_toks(p)),
            )
        },
        Geom::Collection(gs) => if gs.len() == 0 {
            seq![word("GEOMETRYCOLLECTION"@), word("EMPTY"@)]
        } else {
            seq![word("GEOMETRYCOLLECTION"@), Tok::ParenOpen] + members_from(gs, 0)
        },
    }
}

/// The members of a collection from index `i` on, comma-separated, then a
/// close-paren.
pub open spec fn members_from<T>(gs: Seq<Geom<T>>, i: int) -> Seq<Tok<T>>
    decreases gs, gs.len() - i,
{
    if 0 <= i < gs.len() {
        geom_toks(gs[i]) + if i + 1 < gs.len() {
            seq![Tok::Comma] + members_from(gs, i + 1)
        } else {
            seq![Tok::ParenClose]
        }
    } else {
        seq![]
    }
}

proof fn lemma_join_step<T>(parts: Seq<Seq<Tok<T>>>, i: int)
    requires
        0 <= i < parts.len(),
    ensures
        i + 1 == parts.len() ==> join(parts.subrange(i, parts.len() as int)) == parts[i]
            + seq![Tok::ParenClose],
        i + 1 < parts.len() ==> join(parts.subrange(i, parts.len() as int)) == parts[i]
            + seq![Tok::Comma] + join(parts.subrange(i + 1, parts.len() as int)),
{
    let s = parts.subrange(i, parts.len() as int);
    assert(s[0] == parts[i]);
    if i + 1 < parts.len() {
        assert(s.drop_first() =~= parts.subrange(i + 1, parts.len() as int));
    }
}

fn push_word<T>(out: &mut Vec<Token<T>>, kw: &str)
    ensures
        toks_view(final(out)@) == toks_view(old(out)@).push(Tok::Word(kw@)),
{
    out.push(Token::Word(String::from_str(kw)));
    assert(toks_view(out@) =~= toks_view(old(out)@).push(Tok::Word(kw@)));
}

fn push_tok<T>(out: &mut Vec<Token<T>>, t: Token<T>)
    ensures
        toks_view(final(out)@) == toks_view(old(out)@).push(t@),
{
    let ghost tv = t@;
    out.push(t);
    assert(toks_view(out@) =~= toks_view(old(out)@).push(tv));
}

fn write_dim<T>(d: Dimension, out: &mut Vec<Token<T>>)
    ensures
        toks_view(final(out)@) == toks_view(old(out)@) + dim_toks::<T>(d),
{
    match d {
        Dimension::XY => {},
        Dimension::XYZ => push_word(out, "Z"),
        Dimension::XYM => push_word(out, "M"),
        Dimension::XYZM => push_word(out, "ZM"),
    }
    assert(toks_view(out@) =~= toks_view(old(out)@) + dim_toks::<T>(d));
}

fn dim_of_coord<T>(c: &Coord<T>) -> (r: Dimension)
    ensures
        r == coord_dim(*c),
{
    match (&c.z, &c.m) {
        (Some(_), Some(_)) => Dimension::XYZM,
        (Some(_), None) => Dimension::XYZ,
        (None, Some(_)) => Dimension::XYM,
        (None, None) => Dimension::XY,
    }
}

fn write_coord<T: Copy>(c: &Coord<T>, out: &mut Vec<Token<T>>)
    ensures
        toks_view(final(out)@) == toks_view(old(out)@) + coord_toks(*c),
{
    push_tok(out, Token::Number(c.x));
    push_tok(out, Token::Number(c.y));
    if let Some(z) = c.z {
        push_tok(out, Token::Number(z));
    }
    if let Some(m) = c.m {
        push_tok(out, Token::Number(m));
    }
    assert(toks_view(out@) =~= toks_view(old(out)@) + coord_toks(*c));
}

/// Writes the coordinates comma-separated and closes the list.
fn write_coords<T: Copy>(cs: &Vec<Coord<T>>, out: &mut Vec<Token<T>>)
    ensures
        toks_view(final(out)@) == toks_view(old(out)@) + coords_toks(cs@),
{
    let ghost parts = cs@.map_values(|c: Coord<T>| coord_toks(c));
    let ghost base = toks_view(out@);
    let n = cs.len();
    if n == 0 {
        push_tok(out, Token::ParenClose);
        assert(toks_view(out@) =~= base + coords_toks(cs@));
        return;
    }
    let mut i: usize = 0;
    assert(parts.subrange(0, n as int) =~= parts);
    while i < n
        invariant
            0 < n == cs@.len() == parts.len(),
            parts == cs@.map_values(|c: Coord<T>| coord_toks(c)),
            i <= n,
            i < n ==> base + join(parts) == toks_view(out@) + join(
                parts.subrange(i as int, n as int),
            ),
            i == n ==> toks_view(out@) == base + join(parts),
        decreases n - i,
    {
        proof {
            lemma_join_step(parts, i as int);
        }
        let ghost mid = toks_view(out@);
        write_coord(&cs[i], out);
        if i + 1 < n {
            push_tok(out, Token::Comma);
            assert(toks_view(out@) + join(parts.subrange(i + 1, n as int)) =~= mid + (parts[i as int]
                + seq![Tok::Comma] + join(parts.subrange(i + 1, n as int))));
        } else {
            push_tok(out, Token::ParenClose);
            assert(toks_view(out@) =~= mid + (parts[i as int] + seq![Tok::ParenClose]));
        }
        i += 1;
    }
}

fn write_rings<T: Copy>(rs: &Vec<LineString<T>>, out: &mut Vec<Token<T>>)
    ensures
        toks_view(final(out)@) == toks_view(old(out)@) + join(
            crate::parser::rings_view(rs@).map_values(|r: Seq<Coord<T>>| ring_toks(r)),
        ),
{
    let ghost parts = crate::parser::rings_view(rs@).map_values(
        |r: Seq<Coord<T>>| ring_toks(r),
    );
    let ghost base = toks_view(out@);
    let n = rs.len();
    if n == 0 {
        push_tok(out, Token::ParenClose);
        assert(toks_view(out@) =~= base + join(parts));
        return;
    }
    let mut i: usize = 0;
    assert(parts.subrange(0, n as int) =~= parts);
    while i < n
        invariant
            0 < n == rs@.len() == parts.len(),
            parts == crate::parser::rings_view(rs@).map_values(|r: Seq<Coord<T>>| ring_toks(r)),
            i <= n,
            i < n ==> base + join(parts) == toks_view(out@) + join(
                parts.subrange(i as int, n as int),
            ),
            i == n ==> toks_view(out@) == base + join(parts),
        decreases n - i,
    {
        proof {
            lemma_join_step(parts, i as int);
        }
        let ghost mid = toks_view(out@);
        push_tok(out, Token::ParenOpen);
        write_coords(&rs[i].0, out);
        assert(parts[i as int] == ring_toks(rs@[i as int]@));
        if i + 1 < n {
            push_tok(out, Token::Comma);
            assert(toks_view(out@) + join(parts.subrange(i + 1, n as int)) =~= mid + (parts[i as int]
                + seq![Tok::Comma] + join(parts.subrange(i + 1, n as int))));
        } else {
            push_tok(out, Token::ParenClose);
            assert(toks_view(out@) =~= mid + (parts[i as int] + seq![Tok::ParenClose]));
        }
        i += 1;
    }
}

fn write_points<T: Copy>(cs: &Vec<Coord<T>>, out: &mut Vec<Token<T>>)
    ensures
        toks_view(final(out)@) == toks_view(old(out)@) + join(
            cs@.map_values(|c: Coord<T>| point_toks(c)),
        ),
{
    let ghost parts = cs@.map_values(|c: Coord<T>| point_toks(c));
    let ghost base = toks_view(out@);
    let n = cs.len();
    if n == 0 {
        push_tok(out, Token::ParenClose);
        assert(toks_view(out@) =~= base + join(parts));
        return;
    }
    let mut i: usize = 0;
    assert(parts.subrange(0, n as int) =~= parts);
    while i < n
        invariant
            0 < n == cs@.len() == parts.len(),
            parts == cs@.map_values(|c: Coord<T>| point_toks(c)),
            i <= n,
            i < n ==> base + join(parts) == toks_view(out@) + join(
                parts.subrange(i as int, n as int),
            ),
            i == n ==> toks_view(out@) == base + join(parts),
        decreases n - i,
    {
        proof {
            lemma_join_step(parts, i as int);
        }
        let ghost mid = toks_view(out@);
        push_tok(out, Token::ParenOpen);
        write_coord(&cs[i], out);
        push_tok(out, Token::ParenClose);
        assert(toks_view(out@) =~= mid + parts[i as int]);
        if i + 1 < n {
            push_tok(out, Token::Comma);
            assert(toks_view(out@) + join(parts.subrange(i + 1, n as int)) =~= mid + (parts[i as int]
                + seq![Tok::Comma] + join(parts.subrange(i + 1, n as int))));
        } else {
            push_tok(out, Token::ParenClose);
            assert(toks_view(out@) =~= mid + (parts[i as int] + seq![Tok::ParenClose]));
        }
        i += 1;
    }
}

fn write_polys<T: Copy>(ps: &Vec<Polygon<T>>, out: &mut Vec<Token<T>>)
    ensures
        toks_view(final(out)@) == toks_view(old(out)@) + join(
            polys_view(ps@).map_values(|p: Seq<Seq<Coord<T>>>| poly_toks(p)),
        ),
{
    let ghost parts = polys_view(ps@).map_values(|p: Seq<Seq<Coord<T>>>| poly_toks(p));
    let ghost base = toks_view(out@);
    let n = ps.len();
    if n == 0 {
        push_tok(out, Token::ParenClose);
        assert(toks_view(out@) =~= base + join(parts));
        return;
    }
    let mut i: usize = 0;
    assert(parts.subrange(0, n as int) =~= parts);
    while i < n
        invariant
            0 < n == ps@.len() == parts.len(),
            parts == polys_view(ps@).map_values(|p: Seq<Seq<Coord<T>>>| poly_toks(p)),
            i <= n,
            i < n ==> base + join(parts) == toks_view(out@) + join(
                parts.subrange(i as int, n as int),
            ),
            i == n ==> toks_view(out@) == base + join(parts),
        decreases n - i,
    {
        proof {
            lemma_join_step(parts, i as int);
        }
        let ghost mid = toks_view(out@);
        push_tok(out, Token::ParenOpen);
        write_rings(&ps[i].0, out);
        assert(parts[i as int] == poly_toks(ps@[i as int]@));
        assert(ps@[i as int]@ == rings_view(ps@[i as int].0@));
        assert(toks_view(out@) =~= mid + parts[i as int]);
        if i + 1 < n {
            push_tok(out, Token::Comma);
            assert(toks_view(out@) + join(parts.subrange(i + 1, n as int)) =~= mid + (parts[i as int]
                + seq![Tok::Comma] + join(parts.subrange(i + 1, n as int))));
        } else {
            push_tok(out, Token::ParenClose);
            assert(toks_view(out@) =~= mid + (parts[i as int] + seq![Tok::ParenClose]));
        }
        i += 1;
    }
}

fn write_linestring<T: Copy>(l: &LineString<T>, out: &mut Vec<Token<T>>)
    ensures
        toks_view(final(out)@) == toks_view(old(out)@) + geom_toks(Geom::LineString(l@)),
{
    let ghost base = toks_view(out@);
    if l.0.len() == 0 {
        push_word(out, "LINESTRING");
        push_word(out, "EMPTY");
    } else {
        push_word(out, "LINESTRING");
        write_dim(dim_of_coord(&l.0[0]), out);
        push_tok(out, Token::ParenOpen);
        write_coords(&l.0, out);
    }
    assert(toks_view(out@) =~= base + geom_toks(Geom::LineString(l@)));
}

fn write_point<T: Copy>(p: &Point<T>, out: &mut Vec<Token<T>>)
    ensures
        toks_view(final(out)@) == toks_view(old(out)@) + geom_toks(Geom::Point(p.0)),
{
    let ghost base = toks_view(out@);
    match &p.0 {
        None => {
            push_word(out, "POINT");
            push_word(out, "EMPTY");
        },
        Some(c) => {
            push_word(out, "POINT");
            write_dim(dim_of_coord(c), out);
            push_tok(out, Token::ParenOpen);
            write_coord(c, out);
            push_tok(out, Token::ParenClose);
        },
    }
    assert(toks_view(out@) =~= base + geom_toks(Geom::Point(p.0)));
}

fn write_polygon<T: Copy>(pg: &Polygon<T>, out: &mut Vec<Token<T>>)
    ensures
        toks_view(final(out)@) == toks_view(old(out)@) + geom_toks(Geom::Polygon(pg@)),
{
    let ghost base = toks_view(out@);
    if pg.0.len() == 0 {
        push_word(out, "POLYGON");
        push_word(out, "EMPTY");
    } else {
        push_word(out, "POLYGON");
        let d = if pg.0[0].0.len() > 0 {
            dim_of_coord(&pg.0[0].0[0])
        } else {
            Dimension::XY
        };
        assert(pg@[0] == pg.0@[0]@);
        write_dim(d, out);
        push_tok(out, Token::ParenOpen);
        write_rings(&pg.0, out);
    }
    assert(toks_view(out@) =~= base + geom_toks(Geom::Polygon(pg@)));
}

fn write_multipoint<T: Copy>(mp: &MultiPoint<T>, out: &mut Vec<Token<T>>)
    ensures
        toks_view(final(out)@) == toks_view(old(out)@) + geom_toks(Geom::MultiPoint(mp@)),
{
    let ghost base = toks_view(out@);
    if mp.0.len() == 0 {
        push_word(out, "MULTIPOINT");
        push_word(out, "EMPTY");
    } else {
        push_word(out, "MULTIPOINT");
        write_dim(dim_of_coord(&mp.0[0]), out);
        push_tok(out, Token::ParenOpen);
        write_points(&mp.0, out);
    }
    assert(toks_view(out@) =~= base + geom_toks(Geom::MultiPoint(mp@)));
}

fn write_multilinestring<T: Copy>(ml: &MultiLineString<T>, out: &mut Vec<Token<T>>)
    ensures
        toks_view(final(out)@) == toks_view(old(out)@) + geom_toks(Geom::MultiLineString(ml@)),
{
    let ghost base = toks_view(out@);
    if ml.0.len() == 0 {
        push_word(out, "MULTILINESTRING");
        push_word(out, "EMPTY");
    } else {
        push_word(out, "MULTILINESTRING");
        let d = if ml.0[0].0.len() > 0 {
            dim_of_coord(&ml.0[0].0[0])
        } else {
            Dimension::XY
        };
        assert(ml@[0] == ml.0@[0]@);
        write_dim(d, out);
        push_tok(out, Token::ParenOpen);
        write_rings(&ml.0, out);
        assert(ml@ == rings_view(ml.0@));
    }
    assert(toks_view(out@) =~= base + geom_toks(Geom::MultiLineString(ml@)));
}

fn write_multipolygon<T: Copy>(mp: &MultiPolygon<T>, out: &mut Vec<Token<T>>)
    ensures
        toks_view(final(out)@) == toks_view(old(out)@) + geom_toks(Geom::MultiPolygon(mp@)),
{
    let ghost base = toks_view(out@);
    if mp.0.len() == 0 {
        push_word(out, "MULTIPOLYGON");
        push_word(out, "EMPTY");
    } else {
        push_word(out, "MULTIPOLYGON");
        let first = &mp.0[0].0;
        let d = if first.len() > 0 && first[0].0.len() > 0 {
            dim_of_coord(&first[0].0[0])
        } else {
            Dimension::XY
        };
        assert(mp@[0] == mp.0@[0]@);
        assert(mp.0@[0]@ == rings_view(first@));
        if first.len() > 0 {
            assert(rings_view(first@)[0] == first@[0]@);
        }
        write_dim(d, out);
        push_tok(out, Token::ParenOpen);
        write_polys(&mp.0, out);
        assert(mp@ == polys_view(mp.0@));
    }
    assert(toks_view(out@) =~= base + geom_toks(Geom::MultiPolygon(mp@)));
}

fn write_geometry<T: Copy>(g: &Geometry<T>, out: &mut Vec<Token<T>>)
    ensures
        toks_view(final(out)@) == toks_view(old(out)@) + geom_toks(g@),
    decreases g,
{
    let ghost base = toks_view(out@);
    match g {
        Geometry::Point(p) => write_point(p, out),
        Geometry::LineString(l) => write_linestring(l, out),
        Geometry::Polygon(pg) => write_polygon(pg, out),
        Geometry::MultiPoint(mp) => write_multipoint(mp, out),
        Geometry::MultiLineString(ml) => write_multilinestring(ml, out),
        Geometry::MultiPolygon(mp) => write_multipolygon(mp, out),
        Geometry::GeometryCollection(gc) => {
            proof {
                crate::parser::lemma_collection_model(gc.0);
            }
            if gc.0.len() == 0 {
                push_word(out, "GEOMETRYCOLLECTION");
                push_word(out, "EMPTY");
            } else {
                push_word(out, "GEOMETRYCOLLECTION");
                push_tok(out, Token::ParenOpen);
                write_members(&gc.0, out);
            }
            assert(toks_view(out@) =~= base + geom_toks(g@));
        },
    }
}

fn write_members<T: Copy>(gs: &Vec<Geometry<T>>, out: &mut Vec<Token<T>>)
    ensures
        toks_view(final(out)@) == toks_view(old(out)@) + members_from(models(gs@), 0),
    decreases gs,
{
    let ghost ms = models(gs@);
    let ghost head = toks_view(out@);
    let n = gs.len();
    let mut i: usize = 0;
    assert(head =~= head + Seq::<Tok<T>>::empty());
    while i < n
        invariant
            n == gs@.len() == ms.len(),
            ms == models(gs@),
            i <= n,
            toks_view(out@) + members_from(ms, i as int) == head + members_from(ms, 0),
        decreases n - i,
    {
        proof {
            vstd::std_specs::vec::axiom_vec_index_decreases(*gs, i as int);
        }
        let ghost mid = toks_view(out@);
        write_geometry(&gs[i], out);
        assert(ms[i as int] == gs@[i as int]@);
        if i + 1 < n {
            push_tok(out, Token::Comma);
            assert(toks_view(out@) + members_from(ms, i + 1) =~= mid + members_from(ms, i as int));
        } else {
            push_tok(out, Token::ParenClose);
            assert(toks_view(out@) + members_from(ms, i + 1) =~= mid + members_from(ms, i as int));
        }
        i += 1;
    }
    assert(toks_view(out@) =~= toks_view(out@) + members_from(ms, n as int));
}

impl<T: Copy> LineString<T> {
    /// The canonical tokens of this line string.
    pub fn to_tokens(&self) -> (r: Vec<Token<T>>)
        ensures
            toks_view(r@) == geom_toks(Geom::LineString(self@)),
    {
        let mut out: Vec<Token<T>> = Vec::new();
        write_linestring(self, &mut out);
        assert(toks_view(out@) =~= geom_toks(Geom::LineString(self@)));
        out
    }
}

impl<T: Copy> Geometry<T> {
    /// The canonical tokens of this geometry.
    pub fn to_tokens(&self) -> (r: Vec<Token<T>>)
        ensures
            toks_view(r@) == geom_toks(self@),
    {
        let mut out: Vec<Token<T>> = Vec::new();
        write_geometry(self, &mut out);
        assert(toks_view(out@) =~= geom_toks(self@));
        out
    }
}

} // verus!
