//! The geometry types of a WKT text.

pub mod coord;
pub mod geometrycollection;
pub mod linestring;
pub mod multilinestring;
pub mod multipoint;
pub mod multipolygon;
pub mod point;
pub mod polygon;

pub use self::coord::Coord;
pub use self::geometrycollection::GeometryCollection;
pub use self::linestring::LineString;
pub use self::multilinestring::MultiLineString;
pub use self::multipoint::MultiPoint;
pub use self::multipolygon::MultiPolygon;
pub use self::point::Point;
pub use self::polygon::Polygon;
