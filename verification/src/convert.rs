//! Reading GeoJSON text into the library's document model. Parsing is the
//! `geojson` crate's (on top of `serde_json`); what it yields is carried over,
//! one for one, into the model.
use vstd::prelude::*;
use crate::error::GeozeroError;
use geojson::{GeoJson as GjDocument, Feature as GjFeature, Geometry as GjGeometry, GeometryValue as GjValue, Position as GjPosition};
use crate::model::{Document, Feature, Geometry, JsonNumber, Position, PropertyValue};

verus! {

#[verifier::external_type_specification]
#[verifier::external_body]
pub struct ExGeoJson(GjDocument);

#[verifier::external_type_specification]
#[verifier::external_body]
pub struct ExGeoJsonFeature(GjFeature);

#[verifier::external_type_specification]
#[verifier::external_body]
pub struct ExGeoJsonGeometry(GjGeometry);

#[verifier::external_type_specification]
#[verifier::external_body]
pub struct ExGeoJsonPosition(GjPosition);

#[verifier::external_type_specification]
#[verifier::external_body]
pub struct ExJsonValue(serde_json::Value);

#[verifier::external_type_specification]
#[verifier::external_body]
#[verifier::reject_recursive_types(K)]
#[verifier::reject_recursive_types(V)]
pub struct ExJsonMap<K, V>(serde_json::Map<K, V>);

/// What the `geojson` crate makes of a text: the parsed document, carried
/// over into the library's model, or the parser's error message.
pub uninterp spec fn geojson_parse(text: Seq<char>) -> Result<Document, Seq<char>>;

/// `<geojson::GeoJson as FromStr>::from_str` (a `serde_json` parse), its
/// result carried over one for one into the model (see the `*_from`
/// conversions below) and its error turned into its message. The contract
/// claims that the result is `geojson_parse` of the text.
#[verifier::external_body]
fn parse_document(text: &str) -> (r: Result<Document, String>)
    ensures
        r is Ok ==> geojson_parse(text@) == Ok::<Document, Seq<char>>(r->Ok_0),
        r is Err ==> geojson_parse(text@) == Err::<Document, Seq<char>>(r->Err_0@),
{
    match text.parse::<GjDocument>() {
        Ok(gj) => Ok(document_from(&gj)),
        Err(e) => Err(e.to_string()),
    }
}

/// The values of a `geojson::Position` (`as_slice`), each as the bit pattern
/// of its `f64` (`to_bits`). Part of `parse_document`: nothing is claimed of
/// it on its own.
#[verifier::external_body]
fn position_from(p: &GjPosition) -> Position {
    p.as_slice().iter().map(|v| v.to_bits()).collect()
}

/// A list of positions, one for one, in order.
fn positions_from(ps: &Vec<GjPosition>) -> (r: Vec<Position>)
    ensures
        r@.len() == ps@.len(),
{
    let mut r: Vec<Position> = Vec::new();
    let mut i: usize = 0;
    while i < ps.len()
        invariant
            i <= ps@.len(),
            r@.len() == i,
        decreases ps@.len() - i,
    {
        r.push(position_from(&ps[i]));
        i += 1;
    }
    r
}

/// A list of lists of positions, one for one, in order.
fn lines_from(ls: &Vec<Vec<GjPosition>>) -> (r: Vec<Vec<Position>>)
    ensures
        r@.len() == ls@.len(),
        forall|i: int| 0 <= i < ls@.len() ==> (#[trigger] r@[i])@.len() == ls@[i]@.len(),
{
    let mut r: Vec<Vec<Position>> = Vec::new();
    let mut i: usize = 0;
    while i < ls.len()
        invariant
            i <= ls@.len(),
            r@.len() == i,
            forall|j: int| 0 <= j < i ==> (#[trigger] r@[j])@.len() == ls@[j]@.len(),
        decreases ls@.len() - i,
    {
        r.push(positions_from(&ls[i]));
        i += 1;
    }
    r
}

/// A list of polygons, one for one, in order.
fn polygons_from(ps: &Vec<Vec<Vec<GjPosition>>>) -> (r: Vec<Vec<Vec<Position>>>)
    ensures
        r@.len() == ps@.len(),
        forall|i: int| 0 <= i < ps@.len() ==> (#[trigger] r@[i])@.len() == ps@[i]@.len(),
        forall|i: int, j: int| 0 <= i < ps@.len() && 0 <= j < ps@[i]@.len()
            ==> (#[trigger] r@[i]@[j])@.len() == ps@[i]@[j]@.len(),
{
    let mut r: Vec<Vec<Vec<Position>>> = Vec::new();
    let mut i: usize = 0;
    while i < ps.len()
        invariant
            i <= ps@.len(),
            r@.len() == i,
            forall|k: int| 0 <= k < i ==> (#[trigger] r@[k])@.len() == ps@[k]@.len(),
            forall|k: int, j: int| 0 <= k < i && 0 <= j < ps@[k]@.len()
                ==> (#[trigger] r@[k]@[j])@.len() == ps@[k]@[j]@.len(),
        decreases ps@.len() - i,
    {
        r.push(lines_from(&ps[i]));
        i += 1;
    }
    r
}

/// A `geojson::Geometry`'s `value`, variant for variant (`bbox` and foreign
/// members are not carried over). Part of `parse_document`.
#[verifier::external_body]
fn geometry_from(g: &GjGeometry) -> Geometry {
    match &g.value {
        GjValue::Point { coordinates } => Geometry::Point(position_from(coordinates)),
        GjValue::MultiPoint { coordinates } => Geometry::MultiPoint(positions_from(coordinates)),
        GjValue::LineString { coordinates } => Geometry::LineString(positions_from(coordinates)),
        GjValue::MultiLineString { coordinates } => Geometry::MultiLineString(lines_from(coordinates)),
        GjValue::Polygon { coordinates } => Geometry::Polygon(lines_from(coordinates)),
        GjValue::MultiPolygon { coordinates } => Geometry::MultiPolygon(polygons_from(coordinates)),
        GjValue::GeometryCollection { geometries } => Geometry::GeometryCollection(geometries.iter().map(geometry_from).collect()),
    }
}

/// A `serde_json::Value` as a property value: a string or a boolean as it
/// is; a number with the answers of `is_f64`, `as_f64` (bit pattern),
/// `as_i64`, `as_u64` and its JSON text; `null`, an array or an object as its
/// JSON text (`to_string`). Part of `parse_document`.
#[verifier::external_body]
fn property_value_from(v: &serde_json::Value) -> PropertyValue {
    match v {
        serde_json::Value::String(s) => PropertyValue::String(s.clone()),
        serde_json::Value::Number(n) => PropertyValue::Number(JsonNumber { is_float: n.is_f64(), float_bits: n.as_f64().map(|f| f.to_bits()), signed: n.as_i64(), unsigned: n.as_u64(), text: v.to_string() }),
        serde_json::Value::Bool(b) => PropertyValue::Bool(*b),
        serde_json::Value::Null => PropertyValue::Other(v.to_string()),
        serde_json::Value::Array(_) => PropertyValue::Other(v.to_string()),
        serde_json::Value::Object(_) => PropertyValue::Other(v.to_string()),
    }
}

/// The entries of a `serde_json::Map` in the map's own order (`iter`;
/// ascending by key without the `preserve_order` feature). Part of
/// `parse_document`.
#[verifier::external_body]
fn properties_from(m: &serde_json::Map<String, serde_json::Value>) -> Vec<(String, PropertyValue)> {
    m.iter().map(|(k, v)| (k.clone(), property_value_from(v))).collect()
}

/// A `geojson::Feature`'s `geometry` and `properties` (`bbox`, `id` and
/// foreign members are not carried over). Part of `parse_document`.
#[verifier::external_body]
fn feature_from(f: &GjFeature) -> Feature {
    Feature { geometry: f.geometry.as_ref().map(geometry_from), properties: f.properties.as_ref().map(properties_from) }
}

/// A `geojson::GeoJson`, variant for variant (a feature collection as its
/// `features`). Part of `parse_document`.
#[verifier::external_body]
fn document_from(gj: &GjDocument) -> Document {
    match gj {
        GjDocument::FeatureCollection(fc) => Document::FeatureCollection(fc.features.iter().map(feature_from).collect()),
        GjDocument::Feature(f) => Document::Feature(feature_from(f)),
        GjDocument::Geometry(g) => Document::Geometry(geometry_from(g)),
    }
}

/// Parses a GeoJSON text into the library's document model. Where the text
/// is no GeoJSON document, the parser's message comes back as a geometry
/// error; otherwise the parsed document comes back.
pub fn read_document(text: &str) -> (r: Result<Document, GeozeroError>)
    ensures
        geojson_parse(text@) matches Err(m) ==> r matches Err(GeozeroError::Geometry(s)) && s@ == m,
        geojson_parse(text@) matches Ok(d) ==> r == Ok::<Document, GeozeroError>(d),
{
    match parse_document(text) {
        Ok(d) => Ok(d),
        Err(m) => Err(GeozeroError::Geometry(m)),
    }
}

} // verus!
