use vstd::prelude::*;

verus! {

/// The dimensionality tag of a geometry keyword: which of z and m each
/// coordinate carries.
#[derive(PartialEq, Eq, Structural, Clone, Copy, Debug)]
pub enum Dimension {
    XY,
    XYZ,
    XYM,
    XYZM,
}

impl Dimension {
    pub open spec fn has_z(self) -> bool {
        self == Dimension::XYZ || self == Dimension::XYZM
    }

    pub open spec fn has_m(self) -> bool {
        self == Dimension::XYM || self == Dimension::XYZM
    }
}

/// One position: x and y, with z and m present as the dimension says.
#[derive(Clone, Copy, Debug, PartialEq)]
pub struct Coord<T> {
    pub x: T,
    pub y: T,
    pub z: Option<T>,
    pub m: Option<T>,
}

/// The dimension that a coordinate's present fields describe.
pub open spec fn coord_dim<T>(c: Coord<T>) -> Dimension {
    if c.z is Some && c.m is Some {
        Dimension::XYZM
    } else if c.z is Some {
        Dimension::XYZ
    } else if c.m is Some {
        Dimension::XYM
    } else {
        Dimension::XY
    }
}

#[derive(Clone, Debug)]
pub struct Point<T>(pub Option<Coord<T>>);

#[derive(Clone, Debug)]
pub struct LineString<T>(pub Vec<Coord<T>>);

/// Rings of a polygon, the outer ring first.
#[derive(Clone, Debug)]
pub struct Polygon<T>(pub Vec<LineString<T>>);

/// Points, each a coordinate.
#[derive(Clone, Debug)]
pub struct MultiPoint<T>(pub Vec<Coord<T>>);

#[derive(Clone, Debug)]
pub struct MultiLineString<T>(pub Vec<LineString<T>>);

#[derive(Clone, Debug)]
pub struct MultiPolygon<T>(pub Vec<Polygon<T>>);

#[derive(Debug)]
pub struct GeometryCollection<T>(pub Vec<Geometry<T>>);

/// The closed set of geometry kinds.
#[derive(Debug)]
pub enum Geometry<T> {
    Point(Point<T>),
    LineString(LineString<T>),
    Polygon(Polygon<T>),
    MultiPoint(MultiPoint<T>),
    MultiLineString(MultiLineString<T>),
    MultiPolygon(MultiPolygon<T>),
    GeometryCollection(GeometryCollection<T>),
}

/// The mathematical model of a geometry tree.
pub enum Geom<T> {
    Point(Option<Coord<T>>),
    LineString(Seq<Coord<T>>),
    Polygon(Seq<Seq<Coord<T>>>),
    MultiPoint(Seq<Coord<T>>),
    MultiLineString(Seq<Seq<Coord<T>>>),
    MultiPolygon(Seq<Seq<Seq<Coord<T>>>>),
    Collection(Seq<Geom<T>>),
}

impl<T> View for LineString<T> {
    type V = Seq<Coord<T>>;

    open spec fn view(&self) -> Seq<Coord<T>> {
        self.0@
    }
}

impl<T> View for Polygon<T> {
    type V = Seq<Seq<Coord<T>>>;

    open spec fn view(&self) -> Seq<Seq<Coord<T>>> {
        self.0@.map_values(|r: LineString<T>| r@)
    }
}

impl<T> View for MultiPoint<T> {
    type V = Seq<Coord<T>>;

    open spec fn view(&self) -> Seq<Coord<T>> {
        self.0@
    }
}

impl<T> View for MultiLineString<T> {
    type V = Seq<Seq<Coord<T>>>;

    open spec fn view(&self) -> Seq<Seq<Coord<T>>> {
        self.0@.map_values(|l: LineString<T>| l@)
    }
}

impl<T> View for MultiPolygon<T> {
    type V = Seq<Seq<Seq<Coord<T>>>>;

    open spec fn view(&self) -> Seq<Seq<Seq<Coord<T>>>> {
        self.0@.map_values(|p: Polygon<T>| p@)
    }
}

impl<T> Geometry<T> {
    /// The mathematical model of the tree.
    pub open spec fn model(self) -> Geom<T>
        decreases self,
    {
        match self {
            Geometry::Point(p) => Geom::Point(p.0),
            Geometry::LineString(l) => Geom::LineString(l@),
            Geometry::Polygon(p) => Geom::Polygon(p@),
            Geometry::MultiPoint(p) => Geom::MultiPoint(p@),
            Geometry::MultiLineString(l) => Geom::MultiLineString(l@),
            Geometry::MultiPolygon(p) => Geom::MultiPolygon(p@),
            Geometry::GeometryCollection(c) => Geom::Collection(
                Seq::new(
                    c.0@.len(),
                    |i: int|
                        if 0 <= i < c.0@.len() {
                            c.0@[i].model()
                        } else {
                            Geom::Point(None)
                        },
                ),
            ),
        }
    }
}

impl<T> View for Geometry<T> {
    type V = Geom<T>;

    open spec fn view(&self) -> Geom<T> {
        self.model()
    }
}

impl<T> LineString<T> {
    /// Wraps the line string as a geometry.
    pub fn as_item(self) -> (r: Geometry<T>)
        ensures
            r@ == Geom::LineString(self@),
    {
        Geometry::LineString(self)
    }
}

} // verus!
