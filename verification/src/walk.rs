//! Walking a document: each function appends to `out` the events of the part
//! of the document it is given, exactly as the specifications in
//! [`crate::events`] describe them.
use vstd::prelude::*;
use crate::events::{Event, coord_events, positions_events, point_events, multi_point_events, linestring_events, lines_events, multilinestring_events, polygon_events, polygons_events, multi_polygon_events, geometry_events, members_events, column_value_of, properties_events, feature_body_events, feature_events, features_events, document_events, count_geometries, collection_geom_events, document_geom_events};
use crate::model::{ColumnValue, Document, Feature, Geometry, Position, PropertyValue};

verus! {

/// The event of one position (see [`coord_events`]).
pub fn process_coord(point_type: &Position, multi_dim: bool, idx: usize, out: &mut Vec<Event>)
    ensures
        final(out)@ == old(out)@ + coord_events(point_type@, idx, multi_dim),
{
    if point_type.len() < 2 {
        out.push(Event::ShortPosition { idx });
    } else if multi_dim {
        let z = if point_type.len() > 2 { Some(point_type[2]) } else { None };
        out.push(Event::Coordinate { x: point_type[0], y: point_type[1], z, m: None, t: None, tm: None, idx });
    } else {
        out.push(Event::Xy { x: point_type[0], y: point_type[1], idx });
    }
}

/// The events of all positions of `ps`, each indexed by its place.
fn process_positions(ps: &Vec<Position>, multi_dim: bool, out: &mut Vec<Event>)
    ensures
        final(out)@ == old(out)@ + positions_events(ps@, ps@.len(), multi_dim),
{
    let ghost start = out@;
    let mut i: usize = 0;
    while i < ps.len()
        invariant
            i <= ps@.len(),
            out@ == start + positions_events(ps@, i as nat, multi_dim),
        decreases ps@.len() - i,
    {
        process_coord(&ps[i], multi_dim, i, out);
        i = i + 1;
        assert(out@ == start + positions_events(ps@, i as nat, multi_dim));
    }
}

/// The events of a point with index `idx`.
pub fn process_point(point_type: &Position, idx: usize, multi_dim: bool, out: &mut Vec<Event>)
    ensures
        final(out)@ == old(out)@ + point_events(point_type@, idx, multi_dim),
{
    let ghost start = out@;
    out.push(Event::PointBegin { idx });
    process_coord(point_type, multi_dim, 0, out);
    out.push(Event::PointEnd { idx });
    assert(out@ == start + point_events(point_type@, idx, multi_dim));
}

/// The events of a multi-point with index `idx`.
pub fn process_multi_point(multi_point_type: &Vec<Position>, idx: usize, multi_dim: bool, out: &mut Vec<Event>)
    ensures
        final(out)@ == old(out)@ + multi_point_events(multi_point_type@, idx, multi_dim),
{
    let ghost start = out@;
    out.push(Event::MultiPointBegin { size: multi_point_type.len(), idx });
    process_positions(multi_point_type, multi_dim, out);
    out.push(Event::MultiPointEnd { idx });
    assert(out@ == start + multi_point_events(multi_point_type@, idx, multi_dim));
}

/// The events of a line string with index `idx`, tagged or not.
pub fn process_linestring(
    linestring_type: &Vec<Position>,
    tagged: bool,
    idx: usize,
    multi_dim: bool,
    out: &mut Vec<Event>,
)
    ensures
        final(out)@ == old(out)@ + linestring_events(linestring_type@, tagged, idx, multi_dim),
{
    let ghost start = out@;
    out.push(Event::LineStringBegin { tagged, size: linestring_type.len(), idx });
    process_positions(linestring_type, multi_dim, out);
    out.push(Event::LineStringEnd { tagged, idx });
    assert(out@ == start + linestring_events(linestring_type@, tagged, idx, multi_dim));
}

/// The untagged line strings of all lines of `ls`, each indexed by its place.
fn process_lines(ls: &Vec<Vec<Position>>, multi_dim: bool, out: &mut Vec<Event>)
    ensures
        final(out)@ == old(out)@ + lines_events(ls@, ls@.len(), multi_dim),
{
    let ghost start = out@;
    let mut i: usize = 0;
    while i < ls.len()
        invariant
            i <= ls@.len(),
            out@ == start + lines_events(ls@, i as nat, multi_dim),
        decreases ls@.len() - i,
    {
        process_linestring(&ls[i], false, i, multi_dim, out);
        i = i + 1;
        assert(out@ == start + lines_events(ls@, i as nat, multi_dim));
    }
}

/// The events of a multi-line-string with index `idx`.
pub fn process_multilinestring(
    multilinestring_type: &Vec<Vec<Position>>,
    idx: usize,
    multi_dim: bool,
    out: &mut Vec<Event>,
)
    ensures
        final(out)@ == old(out)@ + multilinestring_events(multilinestring_type@, idx, multi_dim),
{
    let ghost start = out@;
    out.push(Event::MultiLineStringBegin { size: multilinestring_type.len(), idx });
    process_lines(multilinestring_type, multi_dim, out);
    out.push(Event::MultiLineStringEnd { idx });
    assert(out@ == start + multilinestring_events(multilinestring_type@, idx, multi_dim));
}

/// The events of a polygon with index `idx`, tagged or not.
pub fn process_polygon(
    polygon_type: &Vec<Vec<Position>>,
    tagged: bool,
    idx: usize,
    multi_dim: bool,
    out: &mut Vec<Event>,
)
    ensures
        final(out)@ == old(out)@ + polygon_events(polygon_type@, tagged, idx, multi_dim),
{
    let ghost start = out@;
    out.push(Event::PolygonBegin { tagged, size: polygon_type.len(), idx });
    process_lines(polygon_type, multi_dim, out);
    out.push(Event::PolygonEnd { tagged, idx });
    assert(out@ == start + polygon_events(polygon_type@, tagged, idx, multi_dim));
}

/// The events of a multi-polygon with index `idx`.
pub fn process_multi_polygon(
    multi_polygon_type: &Vec<Vec<Vec<Position>>>,
    idx: usize,
    multi_dim: bool,
    out: &mut Vec<Event>,
)
    ensures
        final(out)@ == old(out)@ + multi_polygon_events(multi_polygon_type@, idx, multi_dim),
{
    let ghost start = out@;
    out.push(Event::MultiPolygonBegin { size: multi_polygon_type.len(), idx });
    let mut i: usize = 0;
    while i < multi_polygon_type.len()
        invariant
            i <= multi_polygon_type@.len(),
            out@ == start + seq![Event::MultiPolygonBegin { size: multi_polygon_type@.len() as usize, idx }]
                + polygons_events(multi_polygon_type@, i as nat, multi_dim),
        decreases multi_polygon_type@.len() - i,
    {
        process_polygon(&multi_polygon_type[i], false, i, multi_dim, out);
        i = i + 1;
    }
    out.push(Event::MultiPolygonEnd { idx });
    assert(out@ == start + multi_polygon_events(multi_polygon_type@, idx, multi_dim));
}

/// The events of any geometry with index `idx`.
pub fn process_geojson_geom_n(geom: &Geometry, idx: usize, multi_dim: bool, out: &mut Vec<Event>)
    ensures
        final(out)@ == old(out)@ + geometry_events(*geom, idx, multi_dim),
    decreases geom,
{
    match geom {
        Geometry::Point(p) => process_point(p, idx, multi_dim, out),
        Geometry::MultiPoint(ps) => process_multi_point(ps, idx, multi_dim, out),
        Geometry::LineString(ps) => process_linestring(ps, true, idx, multi_dim, out),
        Geometry::MultiLineString(ls) => process_multilinestring(ls, idx, multi_dim, out),
        Geometry::Polygon(rings) => process_polygon(rings, true, idx, multi_dim, out),
        Geometry::MultiPolygon(ps) => process_multi_polygon(ps, idx, multi_dim, out),
        Geometry::GeometryCollection(collection) => {
            let ghost start = out@;
            out.push(Event::GeometryCollectionBegin { size: collection.len(), idx });
            let mut idxg: usize = 0;
            while idxg < collection.len()
                invariant
                    idxg <= collection@.len(),
                    *geom == Geometry::GeometryCollection(*collection),
                    out@ == start + seq![Event::GeometryCollectionBegin { size: collection@.len() as usize, idx }]
                        + members_events(collection@, idxg as nat, multi_dim),
                decreases collection@.len() - idxg,
            {
                proof {
                    assert((*geom)->GeometryCollection_0 == *collection);
                    assert(decreases_to!(*geom => (*geom)->GeometryCollection_0));
                    assert(decreases_to!(*collection => collection@));
                    assert(decreases_to!(collection@ => collection@[idxg as int]));
                }
                process_geojson_geom_n(&collection[idxg], idxg, multi_dim, out);
                idxg = idxg + 1;
            }
            out.push(Event::GeometryCollectionEnd { idx });
            assert(out@ == start + geometry_events(*geom, idx, multi_dim));
        },
    }
}

/// What a property value is handed on as (see [`column_value_of`]).
pub fn column_value(value: &PropertyValue) -> (r: ColumnValue)
    ensures
        r == column_value_of(*value),
{
    match value {
        PropertyValue::String(v) => ColumnValue::String(v.clone()),
        PropertyValue::Number(v) => {
            if v.is_float && v.float_bits.is_some() {
                ColumnValue::Double(v.float_bits.unwrap())
            } else if v.signed.is_some() {
                ColumnValue::Long(v.signed.unwrap())
            } else if v.unsigned.is_some() {
                ColumnValue::ULong(v.unsigned.unwrap())
            } else {
                ColumnValue::String(v.text.clone())
            }
        },
        PropertyValue::Bool(v) => ColumnValue::Bool(*v),
        PropertyValue::Other(text) => ColumnValue::String(text.clone()),
    }
}

/// The `property` events of all properties, each indexed by its place.
pub fn process_properties(properties: &Vec<(String, PropertyValue)>, out: &mut Vec<Event>)
    ensures
        final(out)@ == old(out)@ + properties_events(properties@, properties@.len()),
{
    let ghost start = out@;
    let mut i: usize = 0;
    while i < properties.len()
        invariant
            i <= properties@.len(),
            out@ == start + properties_events(properties@, i as nat),
        decreases properties@.len() - i,
    {
        let (key, value) = &properties[i];
        let name = key.clone();
        let value = column_value(value);
        out.push(Event::Property { idx: i, name, value });
        i = i + 1;
        assert(out@ == start + properties_events(properties@, i as nat));
    }
}

/// The events inside a feature with index `idx`.
fn process_feature_body(feature: &Feature, idx: usize, multi_dim: bool, out: &mut Vec<Event>)
    ensures
        final(out)@ == old(out)@ + feature_body_events(*feature, idx, multi_dim),
{
    let ghost start = out@;
    if let Some(properties) = &feature.properties {
        out.push(Event::PropertiesBegin);
        process_properties(properties, out);
        out.push(Event::PropertiesEnd);
    }
    if let Some(geometry) = &feature.geometry {
        out.push(Event::GeometryBegin);
        process_geojson_geom_n(geometry, idx, multi_dim, out);
        out.push(Event::GeometryEnd);
    }
    assert(out@ == start + feature_body_events(*feature, idx, multi_dim));
}

/// The events of a feature with index `idx`.
fn process_feature(feature: &Feature, idx: usize, multi_dim: bool, out: &mut Vec<Event>)
    ensures
        final(out)@ == old(out)@ + feature_events(*feature, idx, multi_dim),
{
    let ghost start = out@;
    out.push(Event::FeatureBegin { idx: idx as u64 });
    process_feature_body(feature, idx, multi_dim, out);
    out.push(Event::FeatureEnd { idx: idx as u64 });
    assert(out@ == start + feature_events(*feature, idx, multi_dim));
}

/// The events of a whole document for a feature processor.
pub fn process_geojson(gj: &Document, multi_dim: bool, out: &mut Vec<Event>)
    ensures
        final(out)@ == old(out)@ + document_events(*gj, multi_dim),
{
    let ghost start = out@;
    match gj {
        Document::FeatureCollection(collection) => {
            out.push(Event::DatasetBegin { name: None });
            let mut idx: usize = 0;
            while idx < collection.len()
                invariant
                    idx <= collection@.len(),
                    out@ == start + seq![Event::DatasetBegin { name: None }]
                        + features_events(collection@, idx as nat, multi_dim),
                decreases collection@.len() - idx,
            {
                process_feature(&collection[idx], idx, multi_dim, out);
                idx = idx + 1;
            }
            out.push(Event::DatasetEnd);
        },
        Document::Feature(feature) => {
            out.push(Event::DatasetBegin { name: None });
            if feature.geometry.is_some() || feature.properties.is_some() {
                process_feature(feature, 0, multi_dim, out);
            }
            out.push(Event::DatasetEnd);
        },
        Document::Geometry(geometry) => {
            process_geojson_geom_n(geometry, 0, multi_dim, out);
        },
    }
    assert(out@ == start + document_events(*gj, multi_dim));
}

/// The events of a whole document for a geometry processor.
pub fn process_geojson_geom(gj: &Document, multi_dim: bool, out: &mut Vec<Event>)
    ensures
        final(out)@ == old(out)@ + document_geom_events(*gj, multi_dim),
{
    let ghost start = out@;
    match gj {
        Document::FeatureCollection(collection) => {
            let mut i: usize = 0;
            let mut idx: usize = 0;
            while i < collection.len()
                invariant
                    i <= collection@.len(),
                    idx == count_geometries(collection@, i as nat),
                    idx <= i,
                    out@ == start + collection_geom_events(collection@, i as nat, multi_dim),
                decreases collection@.len() - i,
            {
                if let Some(geometry) = &collection[i].geometry {
                    process_geojson_geom_n(geometry, idx, multi_dim, out);
                    idx = idx + 1;
                }
                i = i + 1;
                assert(out@ == start + collection_geom_events(collection@, i as nat, multi_dim));
            }
        },
        Document::Feature(feature) => {
            if let Some(geometry) = &feature.geometry {
                process_geojson_geom_n(geometry, 0, multi_dim, out);
            }
        },
        Document::Geometry(geometry) => {
            process_geojson_geom_n(geometry, 0, multi_dim, out);
        },
    }
    assert(out@ == start + document_geom_events(*gj, multi_dim));
}

} // verus!
