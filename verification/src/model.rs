//! The library's own model of a GeoJSON document.
//!
//! Coordinate values are carried as IEEE-754 bit patterns (`f64::to_bits`):
//! the library never computes with them, it only hands them on.
use vstd::prelude::*;

verus! {

/// A position: its coordinate values (x, y, then optional further ones),
/// each as the bit pattern of an `f64`.
pub type Position = Vec<u64>;

/// A GeoJSON geometry.
pub enum Geometry {
    Point(Position),
    MultiPoint(Vec<Position>),
    LineString(Vec<Position>),
    MultiLineString(Vec<Vec<Position>>),
    Polygon(Vec<Vec<Position>>),
    MultiPolygon(Vec<Vec<Vec<Position>>>),
    GeometryCollection(Vec<Geometry>),
}

/// A position carries at least an x and a y value.
pub open spec fn position_wf(p: Seq<u64>) -> bool {
    p.len() >= 2
}

pub open spec fn positions_wf(ps: Seq<Position>) -> bool {
    forall|i: int| 0 <= i < ps.len() ==> #[trigger] position_wf(ps[i]@)
}

pub open spec fn lines_wf(ls: Seq<Vec<Position>>) -> bool {
    forall|i: int| 0 <= i < ls.len() ==> #[trigger] positions_wf(ls[i]@)
}

pub open spec fn polygons_wf(ps: Seq<Vec<Vec<Position>>>) -> bool {
    forall|i: int| 0 <= i < ps.len() ==> #[trigger] lines_wf(ps[i]@)
}

impl Geometry {
    /// Every position of the geometry carries at least two values.
    pub open spec fn wf(&self) -> bool
        decreases self,
    {
        match self {
            Geometry::Point(p) => position_wf(p@),
            Geometry::MultiPoint(ps) => positions_wf(ps@),
            Geometry::LineString(ps) => positions_wf(ps@),
            Geometry::MultiLineString(ls) => lines_wf(ls@),
            Geometry::Polygon(ls) => lines_wf(ls@),
            Geometry::MultiPolygon(ps) => polygons_wf(ps@),
            Geometry::GeometryCollection(gs) => forall|i: int|
                0 <= i < gs@.len() ==> (#[trigger] gs@[i]).wf(),
        }
    }
}

/// A property value as the processor receives it.
#[derive(Debug, Clone, PartialEq)]
pub enum ColumnValue {
    String(String),
    /// An `f64`, as its bit pattern.
    Double(u64),
    Long(i64),
    ULong(u64),
    Bool(bool),
}

/// A JSON number, as the JSON reader reports it: whether it was read as a
/// floating-point number, its value as an `f64` (bit pattern), as an `i64`
/// and as a `u64` where it has one, and its JSON text.
#[derive(Debug, Clone, PartialEq)]
pub struct JsonNumber {
    pub is_float: bool,
    pub float_bits: Option<u64>,
    pub signed: Option<i64>,
    pub unsigned: Option<u64>,
    pub text: String,
}

/// The value of a feature property.
#[derive(Debug, Clone, PartialEq)]
pub enum PropertyValue {
    String(String),
    Number(JsonNumber),
    Bool(bool),
    /// `null`, an array or an object, held as its JSON text.
    Other(String),
}

/// A feature: an optional geometry and optional properties, in the order in
/// which the document's property map yields them.
pub struct Feature {
    pub geometry: Option<Geometry>,
    pub properties: Option<Vec<(String, PropertyValue)>>,
}

/// A GeoJSON document.
pub enum Document {
    FeatureCollection(Vec<Feature>),
    Feature(Feature),
    Geometry(Geometry),
}

impl Feature {
    pub open spec fn wf(&self) -> bool {
        match self.geometry {
            Some(g) => g.wf(),
            None => true,
        }
    }
}

pub open spec fn features_wf(fs: Seq<Feature>) -> bool {
    forall|i: int| 0 <= i < fs.len() ==> (#[trigger] fs[i]).wf()
}

impl Document {
    /// Every position in the document carries at least two values.
    pub open spec fn wf(&self) -> bool {
        match self {
            Document::FeatureCollection(fs) => features_wf(fs@),
            Document::Feature(f) => f.wf(),
            Document::Geometry(g) => g.wf(),
        }
    }
}

} // verus!
