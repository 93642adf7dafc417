//! The processing events of a document walk, and the exact event sequence
//! that each part of a document gives.
use vstd::prelude::*;
use crate::model::{ColumnValue, Document, Feature, Geometry, Position, PropertyValue};

verus! {

/// One call on a processor. Geometry events carry the index of the element
/// within its parent (or the index the caller gave), begin events of
/// containers carry the number of children that follow.
#[derive(Debug, Clone, PartialEq)]
pub enum Event {
    Xy { x: u64, y: u64, idx: usize },
    Coordinate { x: u64, y: u64, z: Option<u64>, m: Option<u64>, t: Option<u64>, tm: Option<u64>, idx: usize },
    /// A position with fewer than two values is reached: the walk ends there
    /// with the short-position error, and no processor receives this event.
    ShortPosition { idx: usize },
    PointBegin { idx: usize },
    PointEnd { idx: usize },
    MultiPointBegin { size: usize, idx: usize },
    MultiPointEnd { idx: usize },
    LineStringBegin { tagged: bool, size: usize, idx: usize },
    LineStringEnd { tagged: bool, idx: usize },
    MultiLineStringBegin { size: usize, idx: usize },
    MultiLineStringEnd { idx: usize },
    PolygonBegin { tagged: bool, size: usize, idx: usize },
    PolygonEnd { tagged: bool, idx: usize },
    MultiPolygonBegin { size: usize, idx: usize },
    MultiPolygonEnd { idx: usize },
    GeometryCollectionBegin { size: usize, idx: usize },
    GeometryCollectionEnd { idx: usize },
    DatasetBegin { name: Option<String> },
    DatasetEnd,
    FeatureBegin { idx: u64 },
    FeatureEnd { idx: u64 },
    PropertiesBegin,
    PropertiesEnd,
    Property { idx: usize, name: String, value: ColumnValue },
    GeometryBegin,
    GeometryEnd,
}

impl Event {
    /// The event is one of a geometry processor's.
    pub open spec fn is_geometry(self) -> bool {
        match self {
            Event::DatasetBegin { .. } | Event::DatasetEnd | Event::FeatureBegin { .. }
            | Event::FeatureEnd { .. } | Event::PropertiesBegin | Event::PropertiesEnd
            | Event::Property { .. } | Event::GeometryBegin | Event::GeometryEnd => false,
            _ => true,
        }
    }
}

/// The event of one position: `xy` or, for a multi-dimensional processor,
/// `coordinate` with the third value as z where there is one; for a position
/// with fewer than two values, the short-position event that ends the walk.
pub open spec fn coord_events(p: Seq<u64>, idx: usize, multi_dim: bool) -> Seq<Event> {
    if p.len() < 2 {
        seq![Event::ShortPosition { idx }]
    } else if multi_dim {
        seq![Event::Coordinate { x: p[0], y: p[1], z: if p.len() > 2 { Some(p[2]) } else { None }, m: None, t: None, tm: None, idx }]
    } else {
        seq![Event::Xy { x: p[0], y: p[1], idx }]
    }
}

/// The events of the first `n` positions of `ps`, each indexed by its place.
pub open spec fn positions_events(ps: Seq<Position>, n: nat, multi_dim: bool) -> Seq<Event>
    decreases n,
{
    if n == 0 {
        seq![]
    } else {
        positions_events(ps, (n - 1) as nat, multi_dim)
            + coord_events(ps[n - 1]@, (n - 1) as usize, multi_dim)
    }
}

pub open spec fn point_events(p: Seq<u64>, idx: usize, multi_dim: bool) -> Seq<Event> {
    seq![Event::PointBegin { idx }] + coord_events(p, 0, multi_dim) + seq![Event::PointEnd { idx }]
}

pub open spec fn multi_point_events(ps: Seq<Position>, idx: usize, multi_dim: bool) -> Seq<Event> {
    seq![Event::MultiPointBegin { size: ps.len() as usize, idx }]
        + positions_events(ps, ps.len(), multi_dim)
        + seq![Event::MultiPointEnd { idx }]
}

pub open spec fn linestring_events(ps: Seq<Position>, tagged: bool, idx: usize, multi_dim: bool) -> Seq<Event> {
    seq![Event::LineStringBegin { tagged, size: ps.len() as usize, idx }]
        + positions_events(ps, ps.len(), multi_dim)
        + seq![Event::LineStringEnd { tagged, idx }]
}

/// The untagged line strings of the first `n` lines of `ls`.
pub open spec fn lines_events(ls: Seq<Vec<Position>>, n: nat, multi_dim: bool) -> Seq<Event>
    decreases n,
{
    if n == 0 {
        seq![]
    } else {
        lines_events(ls, (n - 1) as nat, multi_dim)
            + linestring_events(ls[n - 1]@, false, (n - 1) as usize, multi_dim)
    }
}

pub open spec fn multilinestring_events(ls: Seq<Vec<Position>>, idx: usize, multi_dim: bool) -> Seq<Event> {
    seq![Event::MultiLineStringBegin { size: ls.len() as usize, idx }]
        + lines_events(ls, ls.len(), multi_dim)
        + seq![Event::MultiLineStringEnd { idx }]
}

pub open spec fn polygon_events(rings: Seq<Vec<Position>>, tagged: bool, idx: usize, multi_dim: bool) -> Seq<Event> {
    seq![Event::PolygonBegin { tagged, size: rings.len() as usize, idx }]
        + lines_events(rings, rings.len(), multi_dim)
        + seq![Event::PolygonEnd { tagged, idx }]
}

/// The untagged polygons of the first `n` polygons of `ps`.
pub open spec fn polygons_events(ps: Seq<Vec<Vec<Position>>>, n: nat, multi_dim: bool) -> Seq<Event>
    decreases n,
{
    if n == 0 {
        seq![]
    } else {
        polygons_events(ps, (n - 1) as nat, multi_dim)
            + polygon_events(ps[n - 1]@, false, (n - 1) as usize, multi_dim)
    }
}

pub open spec fn multi_polygon_events(ps: Seq<Vec<Vec<Position>>>, idx: usize, multi_dim: bool) -> Seq<Event> {
    seq![Event::MultiPolygonBegin { size: ps.len() as usize, idx }]
        + polygons_events(ps, ps.len(), multi_dim)
        + seq![Event::MultiPolygonEnd { idx }]
}

/// The events of a geometry given the index `idx`; the single geometries
/// are tagged, their parts inside multi-geometries are not.
pub open spec fn geometry_events(g: Geometry, idx: usize, multi_dim: bool) -> Seq<Event>
    decreases g, 0nat,
{
    match g {
        Geometry::Point(p) => point_events(p@, idx, multi_dim),
        Geometry::MultiPoint(ps) => multi_point_events(ps@, idx, multi_dim),
        Geometry::LineString(ps) => linestring_events(ps@, true, idx, multi_dim),
        Geometry::MultiLineString(ls) => multilinestring_events(ls@, idx, multi_dim),
        Geometry::Polygon(rings) => polygon_events(rings@, true, idx, multi_dim),
        Geometry::MultiPolygon(ps) => multi_polygon_events(ps@, idx, multi_dim),
        Geometry::GeometryCollection(gs) =>
            seq![Event::GeometryCollectionBegin { size: gs@.len() as usize, idx }]
                + members_events(gs@, gs@.len(), multi_dim)
                + seq![Event::GeometryCollectionEnd { idx }],
    }
}

/// The events of the first `n` members of a geometry collection, each
/// indexed by its place.
pub open spec fn members_events(gs: Seq<Geometry>, n: nat, multi_dim: bool) -> Seq<Event>
    decreases gs, n,
{
    if n == 0 || n > gs.len() {
        seq![]
    } else {
        members_events(gs, (n - 1) as nat, multi_dim)
            + geometry_events(gs[n - 1], (n - 1) as usize, multi_dim)
    }
}

/// What a property value is handed on as: a string as a string; a number
/// read as floating-point as a double, else one that fits an `i64` as a
/// long, else one that fits a `u64` as an unsigned long; a boolean as a
/// boolean; anything else (`null`, arrays, objects, and a number none of
/// these fit) as its JSON text.
pub open spec fn column_value_of(v: PropertyValue) -> ColumnValue {
    match v {
        PropertyValue::String(s) => ColumnValue::String(s),
        PropertyValue::Number(n) =>
            if n.is_float && n.float_bits is Some {
                ColumnValue::Double(n.float_bits->0)
            } else if n.signed is Some {
                ColumnValue::Long(n.signed->0)
            } else if n.unsigned is Some {
                ColumnValue::ULong(n.unsigned->0)
            } else {
                ColumnValue::String(n.text)
            },
        PropertyValue::Bool(b) => ColumnValue::Bool(b),
        PropertyValue::Other(t) => ColumnValue::String(t),
    }
}

/// The `property` events of the first `n` properties, each indexed by its place.
pub open spec fn properties_events(ps: Seq<(String, PropertyValue)>, n: nat) -> Seq<Event>
    decreases n,
{
    if n == 0 {
        seq![]
    } else {
        properties_events(ps, (n - 1) as nat) + seq![
            Event::Property { idx: (n - 1) as usize, name: ps[n - 1].0, value: column_value_of(ps[n - 1].1) },
        ]
    }
}

/// The events inside a feature: its properties, if it has them, between
/// `properties_begin` and `properties_end`, then its geometry, if it has one,
/// with index `idx`, between `geometry_begin` and `geometry_end`.
pub open spec fn feature_body_events(f: Feature, idx: usize, multi_dim: bool) -> Seq<Event> {
    (match f.properties {
        Some(ps) => seq![Event::PropertiesBegin] + properties_events(ps@, ps@.len())
            + seq![Event::PropertiesEnd],
        None => seq![],
    }) + (match f.geometry {
        Some(g) => seq![Event::GeometryBegin] + geometry_events(g, idx, multi_dim)
            + seq![Event::GeometryEnd],
        None => seq![],
    })
}

/// The events of a feature with index `idx`.
pub open spec fn feature_events(f: Feature, idx: usize, multi_dim: bool) -> Seq<Event> {
    seq![Event::FeatureBegin { idx: idx as u64 }] + feature_body_events(f, idx, multi_dim)
        + seq![Event::FeatureEnd { idx: idx as u64 }]
}

/// The events of the first `n` features of a collection, each indexed by its place.
pub open spec fn features_events(fs: Seq<Feature>, n: nat, multi_dim: bool) -> Seq<Event>
    decreases n,
{
    if n == 0 {
        seq![]
    } else {
        features_events(fs, (n - 1) as nat, multi_dim)
            + feature_events(fs[n - 1], (n - 1) as usize, multi_dim)
    }
}

/// The events of a whole document for a feature processor: a collection or a
/// single feature between `dataset_begin` and `dataset_end` (a single feature
/// with neither geometry nor properties gives no feature events), a bare
/// geometry as its geometry events with index 0.
pub open spec fn document_events(doc: Document, multi_dim: bool) -> Seq<Event> {
    match doc {
        Document::FeatureCollection(fs) => seq![Event::DatasetBegin { name: None }]
            + features_events(fs@, fs@.len(), multi_dim) + seq![Event::DatasetEnd],
        Document::Feature(f) => seq![Event::DatasetBegin { name: None }] + (if f.geometry is Some
            || f.properties is Some {
            feature_events(f, 0, multi_dim)
        } else {
            seq![]
        }) + seq![Event::DatasetEnd],
        Document::Geometry(g) => geometry_events(g, 0, multi_dim),
    }
}

/// How many of the first `n` features carry a geometry.
pub open spec fn count_geometries(fs: Seq<Feature>, n: nat) -> nat
    decreases n,
{
    if n == 0 {
        0
    } else {
        count_geometries(fs, (n - 1) as nat) + if fs[n - 1].geometry is Some { 1nat } else { 0nat }
    }
}

/// The geometry events of the first `n` features of a collection: features
/// without a geometry are passed over, and the geometries are indexed by
/// their place among those that are there.
pub open spec fn collection_geom_events(fs: Seq<Feature>, n: nat, multi_dim: bool) -> Seq<Event>
    decreases n,
{
    if n == 0 {
        seq![]
    } else {
        collection_geom_events(fs, (n - 1) as nat, multi_dim) + match fs[n - 1].geometry {
            Some(g) => geometry_events(g, count_geometries(fs, (n - 1) as nat) as usize, multi_dim),
            None => seq![],
        }
    }
}

/// The events of a whole document for a geometry processor: the geometries
/// alone, a single one with index 0.
pub open spec fn document_geom_events(doc: Document, multi_dim: bool) -> Seq<Event> {
    match doc {
        Document::FeatureCollection(fs) => collection_geom_events(fs@, fs@.len(), multi_dim),
        Document::Feature(f) => match f.geometry {
            Some(g) => geometry_events(g, 0, multi_dim),
            None => seq![],
        },
        Document::Geometry(g) => geometry_events(g, 0, multi_dim),
    }
}

} // verus!
