pub mod grammar;
pub mod laws;
pub mod lexer;
pub mod parser;
pub mod text;
pub mod text_laws;
pub mod token;
pub mod types;
pub mod writer;

pub use grammar::ParseError;
pub use lexer::Wkt;
pub use token::Token;
pub use types::{
    Coord, Dimension, Geometry, GeometryCollection, LineString, MultiLineString, MultiPoint,
    MultiPolygon, Point, Polygon,
};
