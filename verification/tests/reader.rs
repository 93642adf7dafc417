use geozero::error::GeozeroError;
use geozero::events::Event;
use geozero::model::ColumnValue;
use geozero::processor::{EventLog, FeatureProcessor, GeomProcessor, PropertyProcessor};
use geozero::reader::{document_events_of, document_geom_events_of, read_geojson, read_geojson_geom, GeoJson, GeoJsonString};

fn b(v: f64) -> u64 {
    v.to_bits()
}

fn f(bits: u64) -> f64 {
    f64::from_bits(bits)
}

/// Writes WKT text, in the manner of a WKT writer.
struct WktWriter {
    out: String,
    z: bool,
    geometries: usize,
}

impl WktWriter {
    fn new() -> Self {
        WktWriter { out: String::new(), z: false, geometries: 0 }
    }
    fn sep(&mut self, idx: usize) {
        if idx > 0 {
            self.out.push(',');
        }
    }
}

impl GeomProcessor for WktWriter {
    fn multi_dim(&self) -> bool {
        self.z
    }
    fn xy(&mut self, x: u64, y: u64, idx: usize) -> Result<(), GeozeroError> {
        self.sep(idx);
        self.out.push_str(&format!("{} {}", f(x), f(y)));
        Ok(())
    }
    fn coordinate(
        &mut self,
        x: u64,
        y: u64,
        z: Option<u64>,
        _m: Option<u64>,
        _t: Option<u64>,
        _tm: Option<u64>,
        idx: usize,
    ) -> Result<(), GeozeroError> {
        self.sep(idx);
        self.out.push_str(&format!("{} {}", f(x), f(y)));
        if let Some(z) = z {
            self.out.push_str(&format!(" {}", f(z)));
        }
        Ok(())
    }
    fn point_begin(&mut self, _idx: usize) -> Result<(), GeozeroError> {
        self.out.push_str("POINT(");
        Ok(())
    }
    fn point_end(&mut self, _idx: usize) -> Result<(), GeozeroError> {
        self.out.push(')');
        Ok(())
    }
    fn linestring_begin(&mut self, tagged: bool, _size: usize, idx: usize) -> Result<(), GeozeroError> {
        if tagged {
            self.out.push_str("LINESTRING(");
        } else {
            self.sep(idx);
            self.out.push('(');
        }
        Ok(())
    }
    fn linestring_end(&mut self, _tagged: bool, _idx: usize) -> Result<(), GeozeroError> {
        self.out.push(')');
        Ok(())
    }
    fn polygon_begin(&mut self, tagged: bool, _size: usize, idx: usize) -> Result<(), GeozeroError> {
        if tagged {
            self.out.push_str("POLYGON(");
        } else {
            self.sep(idx);
            self.out.push('(');
        }
        Ok(())
    }
    fn polygon_end(&mut self, _tagged: bool, _idx: usize) -> Result<(), GeozeroError> {
        self.out.push(')');
        Ok(())
    }
    fn multipolygon_begin(&mut self, _size: usize, _idx: usize) -> Result<(), GeozeroError> {
        self.out.push_str("MULTIPOLYGON(");
        Ok(())
    }
    fn multipolygon_end(&mut self, _idx: usize) -> Result<(), GeozeroError> {
        self.out.push(')');
        Ok(())
    }
    fn multipoint_begin(&mut self, _size: usize, _idx: usize) -> Result<(), GeozeroError> {
        Ok(())
    }
    fn multipoint_end(&mut self, _idx: usize) -> Result<(), GeozeroError> {
        Ok(())
    }
    fn multilinestring_begin(&mut self, _size: usize, _idx: usize) -> Result<(), GeozeroError> {
        Ok(())
    }
    fn multilinestring_end(&mut self, _idx: usize) -> Result<(), GeozeroError> {
        Ok(())
    }
    fn geometrycollection_begin(&mut self, _size: usize, _idx: usize) -> Result<(), GeozeroError> {
        Ok(())
    }
    fn geometrycollection_end(&mut self, _idx: usize) -> Result<(), GeozeroError> {
        Ok(())
    }
}

impl PropertyProcessor for WktWriter {
    fn property(&mut self, _idx: usize, _name: &String, _value: &ColumnValue) -> Result<bool, GeozeroError> {
        Ok(false)
    }
}

impl FeatureProcessor for WktWriter {
    fn geometry_begin(&mut self) -> Result<(), GeozeroError> {
        if self.geometries > 0 {
            self.out.push(',');
        }
        self.geometries += 1;
        Ok(())
    }
    fn dataset_begin(&mut self, _name: Option<&String>) -> Result<(), GeozeroError> {
        Ok(())
    }
    fn dataset_end(&mut self) -> Result<(), GeozeroError> {
        Ok(())
    }
    fn feature_begin(&mut self, _idx: u64) -> Result<(), GeozeroError> {
        Ok(())
    }
    fn feature_end(&mut self, _idx: u64) -> Result<(), GeozeroError> {
        Ok(())
    }
    fn properties_begin(&mut self) -> Result<(), GeozeroError> {
        Ok(())
    }
    fn properties_end(&mut self) -> Result<(), GeozeroError> {
        Ok(())
    }
    fn geometry_end(&mut self) -> Result<(), GeozeroError> {
        Ok(())
    }
}

/// Writes GeoJSON text, in the manner of a GeoJSON writer.
struct GeoJsonWriter {
    out: String,
}

impl GeomProcessor for GeoJsonWriter {
    fn xy(&mut self, x: u64, y: u64, idx: usize) -> Result<(), GeozeroError> {
        if idx > 0 {
            self.out.push(',');
        }
        self.out.push_str(&format!("[{},{}]", f(x), f(y)));
        Ok(())
    }
    fn point_begin(&mut self, _idx: usize) -> Result<(), GeozeroError> {
        self.out.push_str("{\"type\": \"Point\", \"coordinates\": ");
        Ok(())
    }
    fn point_end(&mut self, _idx: usize) -> Result<(), GeozeroError> {
        self.out.push('}');
        Ok(())
    }
    fn multi_dim(&self) -> bool {
        false
    }
    fn coordinate(
        &mut self,
        _x: u64,
        _y: u64,
        _z: Option<u64>,
        _m: Option<u64>,
        _t: Option<u64>,
        _tm: Option<u64>,
        _idx: usize,
    ) -> Result<(), GeozeroError> {
        Ok(())
    }
    fn multipoint_begin(&mut self, _size: usize, _idx: usize) -> Result<(), GeozeroError> {
        Ok(())
    }
    fn multipoint_end(&mut self, _idx: usize) -> Result<(), GeozeroError> {
        Ok(())
    }
    fn linestring_begin(&mut self, _tagged: bool, _size: usize, _idx: usize) -> Result<(), GeozeroError> {
        Ok(())
    }
    fn linestring_end(&mut self, _tagged: bool, _idx: usize) -> Result<(), GeozeroError> {
        Ok(())
    }
    fn multilinestring_begin(&mut self, _size: usize, _idx: usize) -> Result<(), GeozeroError> {
        Ok(())
    }
    fn multilinestring_end(&mut self, _idx: usize) -> Result<(), GeozeroError> {
        Ok(())
    }
    fn polygon_begin(&mut self, _tagged: bool, _size: usize, _idx: usize) -> Result<(), GeozeroError> {
        Ok(())
    }
    fn polygon_end(&mut self, _tagged: bool, _idx: usize) -> Result<(), GeozeroError> {
        Ok(())
    }
    fn multipolygon_begin(&mut self, _size: usize, _idx: usize) -> Result<(), GeozeroError> {
        Ok(())
    }
    fn multipolygon_end(&mut self, _idx: usize) -> Result<(), GeozeroError> {
        Ok(())
    }
    fn geometrycollection_begin(&mut self, _size: usize, _idx: usize) -> Result<(), GeozeroError> {
        Ok(())
    }
    fn geometrycollection_end(&mut self, _idx: usize) -> Result<(), GeozeroError> {
        Ok(())
    }
}

impl PropertyProcessor for GeoJsonWriter {
    fn property(&mut self, idx: usize, name: &String, value: &ColumnValue) -> Result<bool, GeozeroError> {
        if idx > 0 {
            self.out.push_str(", ");
        }
        let v = match value {
            ColumnValue::String(s) => format!("\"{}\"", s),
            ColumnValue::Long(v) => format!("{}", v),
            ColumnValue::ULong(v) => format!("{}", v),
            ColumnValue::Double(v) => format!("{}", f(*v)),
            ColumnValue::Bool(v) => format!("{}", v),
        };
        self.out.push_str(&format!("\"{}\": {}", name, v));
        Ok(false)
    }
}

impl FeatureProcessor for GeoJsonWriter {
    fn dataset_begin(&mut self, _name: Option<&String>) -> Result<(), GeozeroError> {
        self.out.push_str("{\n\"type\": \"FeatureCollection\",\n\"name\": \"\",\n\"features\": [");
        Ok(())
    }
    fn dataset_end(&mut self) -> Result<(), GeozeroError> {
        self.out.push_str("]}");
        Ok(())
    }
    fn feature_begin(&mut self, idx: u64) -> Result<(), GeozeroError> {
        if idx > 0 {
            self.out.push(',');
        }
        self.out.push_str("{\"type\": \"Feature\"");
        Ok(())
    }
    fn feature_end(&mut self, _idx: u64) -> Result<(), GeozeroError> {
        self.out.push('}');
        Ok(())
    }
    fn properties_begin(&mut self) -> Result<(), GeozeroError> {
        self.out.push_str(", \"properties\": {");
        Ok(())
    }
    fn properties_end(&mut self) -> Result<(), GeozeroError> {
        self.out.push('}');
        Ok(())
    }
    fn geometry_begin(&mut self) -> Result<(), GeozeroError> {
        self.out.push_str(", \"geometry\": ");
        Ok(())
    }
    fn geometry_end(&mut self) -> Result<(), GeozeroError> {
        Ok(())
    }
}

/// Records every call as an event; fails at the call with the given number.
struct Recorder {
    events: Vec<Event>,
    multi_dim: bool,
    fail_at: Option<usize>,
}

impl Recorder {
    fn new(multi_dim: bool) -> Self {
        Recorder { events: Vec::new(), multi_dim, fail_at: None }
    }
    fn rec(&mut self, e: Event) -> Result<(), GeozeroError> {
        if self.fail_at == Some(self.events.len()) {
            return Err(GeozeroError::Geometry("stop".to_string()));
        }
        self.events.push(e);
        Ok(())
    }
}

impl GeomProcessor for Recorder {
    fn multi_dim(&self) -> bool {
        self.multi_dim
    }
    fn xy(&mut self, x: u64, y: u64, idx: usize) -> Result<(), GeozeroError> {
        self.rec(Event::Xy { x, y, idx })
    }
    fn coordinate(
        &mut self,
        x: u64,
        y: u64,
        z: Option<u64>,
        m: Option<u64>,
        t: Option<u64>,
        tm: Option<u64>,
        idx: usize,
    ) -> Result<(), GeozeroError> {
        self.rec(Event::Coordinate { x, y, z, m, t, tm, idx })
    }
    fn point_begin(&mut self, idx: usize) -> Result<(), GeozeroError> {
        self.rec(Event::PointBegin { idx })
    }
    fn point_end(&mut self, idx: usize) -> Result<(), GeozeroError> {
        self.rec(Event::PointEnd { idx })
    }
    fn multipoint_begin(&mut self, size: usize, idx: usize) -> Result<(), GeozeroError> {
        self.rec(Event::MultiPointBegin { size, idx })
    }
    fn multipoint_end(&mut self, idx: usize) -> Result<(), GeozeroError> {
        self.rec(Event::MultiPointEnd { idx })
    }
    fn linestring_begin(&mut self, tagged: bool, size: usize, idx: usize) -> Result<(), GeozeroError> {
        self.rec(Event::LineStringBegin { tagged, size, idx })
    }
    fn linestring_end(&mut self, tagged: bool, idx: usize) -> Result<(), GeozeroError> {
        self.rec(Event::LineStringEnd { tagged, idx })
    }
    fn multilinestring_begin(&mut self, size: usize, idx: usize) -> Result<(), GeozeroError> {
        self.rec(Event::MultiLineStringBegin { size, idx })
    }
    fn multilinestring_end(&mut self, idx: usize) -> Result<(), GeozeroError> {
        self.rec(Event::MultiLineStringEnd { idx })
    }
    fn polygon_begin(&mut self, tagged: bool, size: usize, idx: usize) -> Result<(), GeozeroError> {
        self.rec(Event::PolygonBegin { tagged, size, idx })
    }
    fn polygon_end(&mut self, tagged: bool, idx: usize) -> Result<(), GeozeroError> {
        self.rec(Event::PolygonEnd { tagged, idx })
    }
    fn multipolygon_begin(&mut self, size: usize, idx: usize) -> Result<(), GeozeroError> {
        self.rec(Event::MultiPolygonBegin { size, idx })
    }
    fn multipolygon_end(&mut self, idx: usize) -> Result<(), GeozeroError> {
        self.rec(Event::MultiPolygonEnd { idx })
    }
    fn geometrycollection_begin(&mut self, size: usize, idx: usize) -> Result<(), GeozeroError> {
        self.rec(Event::GeometryCollectionBegin { size, idx })
    }
    fn geometrycollection_end(&mut self, idx: usize) -> Result<(), GeozeroError> {
        self.rec(Event::GeometryCollectionEnd { idx })
    }
}

impl PropertyProcessor for Recorder {
    fn property(&mut self, idx: usize, name: &String, value: &ColumnValue) -> Result<bool, GeozeroError> {
        self.rec(Event::Property { idx, name: name.clone(), value: value.clone() })?;
        Ok(true)
    }
}

impl FeatureProcessor for Recorder {
    fn dataset_begin(&mut self, name: Option<&String>) -> Result<(), GeozeroError> {
        self.rec(Event::DatasetBegin { name: name.cloned() })
    }
    fn dataset_end(&mut self) -> Result<(), GeozeroError> {
        self.rec(Event::DatasetEnd)
    }
    fn feature_begin(&mut self, idx: u64) -> Result<(), GeozeroError> {
        self.rec(Event::FeatureBegin { idx })
    }
    fn feature_end(&mut self, idx: u64) -> Result<(), GeozeroError> {
        self.rec(Event::FeatureEnd { idx })
    }
    fn properties_begin(&mut self) -> Result<(), GeozeroError> {
        self.rec(Event::PropertiesBegin)
    }
    fn properties_end(&mut self) -> Result<(), GeozeroError> {
        self.rec(Event::PropertiesEnd)
    }
    fn geometry_begin(&mut self) -> Result<(), GeozeroError> {
        self.rec(Event::GeometryBegin)
    }
    fn geometry_end(&mut self) -> Result<(), GeozeroError> {
        self.rec(Event::GeometryEnd)
    }
}

#[test]
fn line_string() {
    let geojson = r#"{"type": "LineString", "coordinates": [[1875038.447610231,-3269648.6879248763],[1874359.641504197,-3270196.812984864],[1874141.0428635243,-3270953.7840121365],[1874440.1778162003,-3271619.4315206874],[1876396.0598222911,-3274138.747656357],[1876442.0805243007,-3275052.60551469],[1874739.312657555,-3275457.333765534]]}"#;
    let mut out = WktWriter::new();
    assert!(read_geojson_geom(geojson, &mut out).is_ok());
    assert_eq!(out.out, "LINESTRING(1875038.447610231 -3269648.6879248763,1874359.641504197 -3270196.812984864,1874141.0428635243 -3270953.7840121365,1874440.1778162003 -3271619.4315206874,1876396.0598222911 -3274138.747656357,1876442.0805243007 -3275052.60551469,1874739.312657555 -3275457.333765534)");
}

#[test]
fn geometries3d() {
    let geojson = r#"{"type": "LineString", "coordinates": [[1,1,10],[2,2,20]]}"#;
    let mut out = WktWriter::new();
    out.z = true;
    assert!(read_geojson_geom(geojson, &mut out).is_ok());
    assert_eq!(out.out, "LINESTRING(1 1 10,2 2 20)");

    let geojson = r#"{"type": "LineString", "coordinates": [[1,1],[2,2]]}"#;
    let mut out = WktWriter::new();
    out.z = true;
    assert!(read_geojson_geom(geojson, &mut out).is_ok());
    assert_eq!(out.out, "LINESTRING(1 1,2 2)");
}

#[test]
fn feature_collection() {
    let geojson = r#"{"type": "FeatureCollection", "name": "countries", "features": [{"type": "Feature", "properties": {"id": "NZL", "name": "New Zealand"}, "geometry": {"type": "MultiPolygon", "coordinates": [[[[173.020375,-40.919052],[173.247234,-41.331999],[173.958405,-40.926701],[174.247587,-41.349155],[174.248517,-41.770008],[173.876447,-42.233184],[173.22274,-42.970038],[172.711246,-43.372288],[173.080113,-43.853344],[172.308584,-43.865694],[171.452925,-44.242519],[171.185138,-44.897104],[170.616697,-45.908929],[169.831422,-46.355775],[169.332331,-46.641235],[168.411354,-46.619945],[167.763745,-46.290197],[166.676886,-46.219917],[166.509144,-45.852705],[167.046424,-45.110941],[168.303763,-44.123973],[168.949409,-43.935819],[169.667815,-43.555326],[170.52492,-43.031688],[171.12509,-42.512754],[171.569714,-41.767424],[171.948709,-41.514417],[172.097227,-40.956104],[172.79858,-40.493962],[173.020375,-40.919052]]],[[[174.612009,-36.156397],[175.336616,-37.209098],[175.357596,-36.526194],[175.808887,-36.798942],[175.95849,-37.555382],[176.763195,-37.881253],[177.438813,-37.961248],[178.010354,-37.579825],[178.517094,-37.695373],[178.274731,-38.582813],[177.97046,-39.166343],[177.206993,-39.145776],[176.939981,-39.449736],[177.032946,-39.879943],[176.885824,-40.065978],[176.508017,-40.604808],[176.01244,-41.289624],[175.239567,-41.688308],[175.067898,-41.425895],[174.650973,-41.281821],[175.22763,-40.459236],[174.900157,-39.908933],[173.824047,-39.508854],[173.852262,-39.146602],[174.574802,-38.797683],[174.743474,-38.027808],[174.697017,-37.381129],[174.292028,-36.711092],[174.319004,-36.534824],[173.840997,-36.121981],[173.054171,-35.237125],[172.636005,-34.529107],[173.007042,-34.450662],[173.551298,-35.006183],[174.32939,-35.265496],[174.612009,-36.156397]]]]}}]}"#;
    let mut out = WktWriter::new();
    assert!(read_geojson(geojson, &mut out).is_ok());
    assert_eq!(out.out, "MULTIPOLYGON(((173.020375 -40.919052,173.247234 -41.331999,173.958405 -40.926701,174.247587 -41.349155,174.248517 -41.770008,173.876447 -42.233184,173.22274 -42.970038,172.711246 -43.372288,173.080113 -43.853344,172.308584 -43.865694,171.452925 -44.242519,171.185138 -44.897104,170.616697 -45.908929,169.831422 -46.355775,169.332331 -46.641235,168.411354 -46.619945,167.763745 -46.290197,166.676886 -46.219917,166.509144 -45.852705,167.046424 -45.110941,168.303763 -44.123973,168.949409 -43.935819,169.667815 -43.555326,170.52492 -43.031688,171.12509 -42.512754,171.569714 -41.767424,171.948709 -41.514417,172.097227 -40.956104,172.79858 -40.493962,173.020375 -40.919052)),((174.612009 -36.156397,175.336616 -37.209098,175.357596 -36.526194,175.808887 -36.798942,175.95849 -37.555382,176.763195 -37.881253,177.438813 -37.961248,178.010354 -37.579825,178.517094 -37.695373,178.274731 -38.582813,177.97046 -39.166343,177.206993 -39.145776,176.939981 -39.449736,177.032946 -39.879943,176.885824 -40.065978,176.508017 -40.604808,176.01244 -41.289624,175.239567 -41.688308,175.067898 -41.425895,174.650973 -41.281821,175.22763 -40.459236,174.900157 -39.908933,173.824047 -39.508854,173.852262 -39.146602,174.574802 -38.797683,174.743474 -38.027808,174.697017 -37.381129,174.292028 -36.711092,174.319004 -36.534824,173.840997 -36.121981,173.054171 -35.237125,172.636005 -34.529107,173.007042 -34.450662,173.551298 -35.006183,174.32939 -35.265496,174.612009 -36.156397)))");
}

#[test]
fn properties() {
    let mut geojson = GeoJson(
        r#"{"type": "Feature", "properties": {"id": 1, "name": "New Zealand"}, "geometry": {"type": "Point", "coordinates": [10,20]}}"#,
    );
    let mut out = GeoJsonWriter { out: String::new() };
    assert!(geojson.process(&mut out).is_ok());
    assert_eq!(
        out.out,
        r#"{
"type": "FeatureCollection",
"name": "",
"features": [{"type": "Feature", "properties": {"id": 1, "name": "New Zealand"}, "geometry": {"type": "Point", "coordinates": [10,20]}}]}"#
    );

    let mut out = GeoJsonWriter { out: String::new() };
    assert!(geojson.process_geom(&mut out).is_ok());
    assert_eq!(out.out, r#"{"type": "Point", "coordinates": [10,20]}"#);
}

#[test]
fn point_to_wkt() {
    let geojson = GeoJson(r#"{"type": "Point", "coordinates": [10,20]}"#);
    let mut out = WktWriter::new();
    assert!(geojson.process_geom(&mut out).is_ok());
    assert_eq!(out.out, "POINT(10 20)");

    let owned = GeoJsonString(r#"{"type": "Point", "coordinates": [10,20]}"#.to_string());
    let mut out = WktWriter::new();
    assert!(owned.process_geom(&mut out).is_ok());
    assert_eq!(out.out, "POINT(10 20)");
}

#[test]
fn exact_events_of_a_feature_collection() {
    let text = r#"{"type": "FeatureCollection", "features": [
        {"type": "Feature", "properties": {"b": true, "a": 1.5}, "geometry": {"type": "Point", "coordinates": [1, 2]}},
        {"type": "Feature", "properties": null, "geometry": null},
        {"type": "Feature", "geometry": {"type": "MultiPoint", "coordinates": [[3, 4, 5], [6, 7]]}}
    ]}"#;
    let mut rec = Recorder::new(false);
    assert_eq!(read_geojson(text, &mut rec), Ok(()));
    assert_eq!(
        rec.events,
        vec![
            Event::DatasetBegin { name: None },
            Event::FeatureBegin { idx: 0 },
            Event::PropertiesBegin,
            Event::Property { idx: 0, name: "a".to_string(), value: ColumnValue::Double(b(1.5)) },
            Event::Property { idx: 1, name: "b".to_string(), value: ColumnValue::Bool(true) },
            Event::PropertiesEnd,
            Event::GeometryBegin,
            Event::PointBegin { idx: 0 },
            Event::Xy { x: b(1.0), y: b(2.0), idx: 0 },
            Event::PointEnd { idx: 0 },
            Event::GeometryEnd,
            Event::FeatureEnd { idx: 0 },
            Event::FeatureBegin { idx: 1 },
            Event::FeatureEnd { idx: 1 },
            Event::FeatureBegin { idx: 2 },
            Event::GeometryBegin,
            Event::MultiPointBegin { size: 2, idx: 2 },
            Event::Xy { x: b(3.0), y: b(4.0), idx: 0 },
            Event::Xy { x: b(6.0), y: b(7.0), idx: 1 },
            Event::MultiPointEnd { idx: 2 },
            Event::GeometryEnd,
            Event::FeatureEnd { idx: 2 },
            Event::DatasetEnd,
        ]
    );

    // The geometry-only walk passes over the feature without a geometry and
    // numbers the geometries by their place among those present.
    let mut rec = Recorder::new(true);
    assert_eq!(read_geojson_geom(text, &mut rec), Ok(()));
    assert_eq!(
        rec.events,
        vec![
            Event::PointBegin { idx: 0 },
            Event::Coordinate { x: b(1.0), y: b(2.0), z: None, m: None, t: None, tm: None, idx: 0 },
            Event::PointEnd { idx: 0 },
            Event::MultiPointBegin { size: 2, idx: 1 },
            Event::Coordinate { x: b(3.0), y: b(4.0), z: Some(b(5.0)), m: None, t: None, tm: None, idx: 0 },
            Event::Coordinate { x: b(6.0), y: b(7.0), z: None, m: None, t: None, tm: None, idx: 1 },
            Event::MultiPointEnd { idx: 1 },
        ]
    );
}

#[test]
fn exact_events_of_nested_geometries() {
    let text = r#"{"type": "GeometryCollection", "geometries": [
        {"type": "Polygon", "coordinates": [[[0, 0], [1, 0], [0, 1], [0, 0]]]},
        {"type": "MultiLineString", "coordinates": [[[0, 0], [1, 1]], [[2, 2], [3, 3]]]},
        {"type": "GeometryCollection", "geometries": [{"type": "LineString", "coordinates": [[5, 5], [6, 6]]}]},
        {"type": "MultiPolygon", "coordinates": [[[[9, 9], [8, 8], [9, 8], [9, 9]]]]}
    ]}"#;
    let mut rec = Recorder::new(false);
    assert_eq!(read_geojson_geom(text, &mut rec), Ok(()));
    let xy = |x: f64, y: f64, idx: usize| Event::Xy { x: b(x), y: b(y), idx };
    assert_eq!(
        rec.events,
        vec![
            Event::GeometryCollectionBegin { size: 4, idx: 0 },
            Event::PolygonBegin { tagged: true, size: 1, idx: 0 },
            Event::LineStringBegin { tagged: false, size: 4, idx: 0 },
            xy(0.0, 0.0, 0),
            xy(1.0, 0.0, 1),
            xy(0.0, 1.0, 2),
            xy(0.0, 0.0, 3),
            Event::LineStringEnd { tagged: false, idx: 0 },
            Event::PolygonEnd { tagged: true, idx: 0 },
            Event::MultiLineStringBegin { size: 2, idx: 1 },
            Event::LineStringBegin { tagged: false, size: 2, idx: 0 },
            xy(0.0, 0.0, 0),
            xy(1.0, 1.0, 1),
            Event::LineStringEnd { tagged: false, idx: 0 },
            Event::LineStringBegin { tagged: false, size: 2, idx: 1 },
            xy(2.0, 2.0, 0),
            xy(3.0, 3.0, 1),
            Event::LineStringEnd { tagged: false, idx: 1 },
            Event::MultiLineStringEnd { idx: 1 },
            Event::GeometryCollectionBegin { size: 1, idx: 2 },
            Event::LineStringBegin { tagged: true, size: 2, idx: 0 },
            xy(5.0, 5.0, 0),
            xy(6.0, 6.0, 1),
            Event::LineStringEnd { tagged: true, idx: 0 },
            Event::GeometryCollectionEnd { idx: 2 },
            Event::MultiPolygonBegin { size: 1, idx: 3 },
            Event::PolygonBegin { tagged: false, size: 1, idx: 0 },
            Event::LineStringBegin { tagged: false, size: 4, idx: 0 },
            xy(9.0, 9.0, 0),
            xy(8.0, 8.0, 1),
            xy(9.0, 8.0, 2),
            xy(9.0, 9.0, 3),
            Event::LineStringEnd { tagged: false, idx: 0 },
            Event::PolygonEnd { tagged: false, idx: 0 },
            Event::MultiPolygonEnd { idx: 3 },
            Event::GeometryCollectionEnd { idx: 0 },
        ]
    );
}

#[test]
fn property_values_are_classified() {
    let text = r#"{"type": "Feature", "properties": {
        "a": "text", "b": -7, "c": 18446744073709551615, "d": 9223372036854775807,
        "e": 2.25, "f": false, "g": null, "h": [1, 2], "i": {"k": 1}
    }, "geometry": null}"#;
    let mut rec = Recorder::new(false);
    assert_eq!(read_geojson(text, &mut rec), Ok(()));
    let p = |idx: usize, name: &str, value: ColumnValue| Event::Property { idx, name: name.to_string(), value };
    assert_eq!(
        rec.events,
        vec![
            Event::DatasetBegin { name: None },
            Event::FeatureBegin { idx: 0 },
            Event::PropertiesBegin,
            p(0, "a", ColumnValue::String("text".to_string())),
            p(1, "b", ColumnValue::Long(-7)),
            p(2, "c", ColumnValue::ULong(u64::MAX)),
            p(3, "d", ColumnValue::Long(i64::MAX)),
            p(4, "e", ColumnValue::Double(b(2.25))),
            p(5, "f", ColumnValue::Bool(false)),
            p(6, "g", ColumnValue::String("null".to_string())),
            p(7, "h", ColumnValue::String("[1,2]".to_string())),
            p(8, "i", ColumnValue::String("{\"k\":1}".to_string())),
            Event::PropertiesEnd,
            Event::FeatureEnd { idx: 0 },
            Event::DatasetEnd,
        ]
    );
}

#[test]
fn empty_feature_gives_only_the_dataset() {
    let text = r#"{"type": "Feature", "properties": null, "geometry": null}"#;
    let mut rec = Recorder::new(false);
    assert_eq!(read_geojson(text, &mut rec), Ok(()));
    assert_eq!(rec.events, vec![Event::DatasetBegin { name: None }, Event::DatasetEnd]);
    let mut rec = Recorder::new(false);
    assert_eq!(read_geojson_geom(text, &mut rec), Ok(()));
    assert_eq!(rec.events, vec![]);
}

#[test]
fn invalid_text_is_a_geometry_error() {
    let mut rec = Recorder::new(false);
    match read_geojson("{\"type\": \"Nothing\"}", &mut rec) {
        Err(GeozeroError::Geometry(m)) => assert!(!m.is_empty()),
        other => panic!("unexpected {:?}", other),
    }
    assert!(rec.events.is_empty());
    match read_geojson_geom("not json", &mut rec) {
        Err(GeozeroError::Geometry(m)) => assert!(!m.is_empty() && m != "not json"),
        other => panic!("unexpected {:?}", other),
    }
    assert!(rec.events.is_empty());
}

#[test]
fn short_position_is_a_geometry_error() {
    let mut rec = Recorder::new(false);
    match read_geojson_geom(r#"{"type": "LineString", "coordinates": [[1, 2], [3]]}"#, &mut rec) {
        Err(GeozeroError::Geometry(m)) => assert_eq!(m, "A position must contain two or more elements"),
        other => panic!("unexpected {:?}", other),
    }
    // The walk ends where it reaches the short position: what came before it was handed on.
    assert_eq!(
        rec.events,
        vec![
            Event::LineStringBegin { tagged: true, size: 2, idx: 0 },
            Event::Xy { x: b(1.0), y: b(2.0), idx: 0 },
        ]
    );
}

#[test]
fn processor_error_before_a_short_position_is_returned() {
    let text = r#"{"type": "FeatureCollection", "features": [
        {"type": "Feature", "properties": null, "geometry": {"type": "Point", "coordinates": [1, 2]}},
        {"type": "Feature", "properties": null, "geometry": {"type": "LineString", "coordinates": [[1, 2], [3]]}}]}"#;
    let mut rec = Recorder::new(false);
    rec.fail_at = Some(0);
    assert_eq!(read_geojson(text, &mut rec), Err(GeozeroError::Geometry("stop".to_string())));
    assert!(rec.events.is_empty());
    let mut rec = Recorder::new(false);
    assert_eq!(
        read_geojson(text, &mut rec),
        Err(GeozeroError::Geometry("A position must contain two or more elements".to_string()))
    );
    assert_eq!(rec.events.len(), 12);
    assert_eq!(rec.events[11], Event::Xy { x: b(1.0), y: b(2.0), idx: 0 });
}

#[test]
fn processor_error_stops_the_walk() {
    let text = r#"{"type": "MultiPoint", "coordinates": [[1, 2], [3, 4], [5, 6]]}"#;
    let mut rec = Recorder::new(false);
    rec.fail_at = Some(2);
    assert_eq!(read_geojson_geom(text, &mut rec), Err(GeozeroError::Geometry("stop".to_string())));
    assert_eq!(
        rec.events,
        vec![
            Event::MultiPointBegin { size: 3, idx: 0 },
            Event::Xy { x: b(1.0), y: b(2.0), idx: 0 },
        ]
    );
}

fn depth_change(e: &Event) -> i64 {
    match e {
        Event::PointBegin { .. }
        | Event::MultiPointBegin { .. }
        | Event::LineStringBegin { .. }
        | Event::MultiLineStringBegin { .. }
        | Event::PolygonBegin { .. }
        | Event::MultiPolygonBegin { .. }
        | Event::GeometryCollectionBegin { .. }
        | Event::DatasetBegin { .. }
        | Event::FeatureBegin { .. }
        | Event::PropertiesBegin
        | Event::GeometryBegin => 1,
        Event::PointEnd { .. }
        | Event::MultiPointEnd { .. }
        | Event::LineStringEnd { .. }
        | Event::MultiLineStringEnd { .. }
        | Event::PolygonEnd { .. }
        | Event::MultiPolygonEnd { .. }
        | Event::GeometryCollectionEnd { .. }
        | Event::DatasetEnd
        | Event::FeatureEnd { .. }
        | Event::PropertiesEnd
        | Event::GeometryEnd => -1,
        _ => 0,
    }
}

fn is_balanced(events: &[Event]) -> bool {
    let mut depth = 0i64;
    for e in events {
        depth += depth_change(e);
        if depth < 0 {
            return false;
        }
    }
    depth == 0
}

fn is_geometry_event(e: &Event) -> bool {
    !matches!(
        e,
        Event::DatasetBegin { .. }
            | Event::DatasetEnd
            | Event::FeatureBegin { .. }
            | Event::FeatureEnd { .. }
            | Event::PropertiesBegin
            | Event::PropertiesEnd
            | Event::Property { .. }
            | Event::GeometryBegin
            | Event::GeometryEnd
    )
}

const MIXED: &str = r#"{"type": "FeatureCollection", "features": [
    {"type": "Feature", "properties": {"n": 1}, "geometry": {"type": "MultiPolygon", "coordinates": [[[[0, 0], [1, 0], [0, 1], [0, 0]]], [[[5, 5], [6, 5], [5, 6], [5, 5]], [[5.1, 5.1], [5.2, 5.1], [5.1, 5.2], [5.1, 5.1]]]]}},
    {"type": "Feature", "properties": {}, "geometry": {"type": "GeometryCollection", "geometries": [{"type": "Point", "coordinates": [1, 2, 3]}, {"type": "MultiLineString", "coordinates": [[[0, 0], [1, 1]]]}]}}
]}"#;

#[test]
fn walks_are_balanced_and_count_positions() {
    // 4 + 8 positions in the multi-polygon, 1 + 2 in the collection.
    for multi_dim in [false, true] {
        let mut rec = Recorder::new(multi_dim);
        assert_eq!(read_geojson(MIXED, &mut rec), Ok(()));
        assert!(is_balanced(&rec.events));
        let xy = rec.events.iter().filter(|e| matches!(e, Event::Xy { .. })).count();
        let coord = rec.events.iter().filter(|e| matches!(e, Event::Coordinate { .. })).count();
        if multi_dim {
            assert_eq!((xy, coord), (0, 15));
        } else {
            assert_eq!((xy, coord), (15, 0));
        }

        let mut rec = Recorder::new(multi_dim);
        assert_eq!(read_geojson_geom(MIXED, &mut rec), Ok(()));
        assert!(is_balanced(&rec.events));
        assert!(rec.events.iter().all(is_geometry_event));
    }
}

#[test]
fn geometry_walk_is_the_projection_of_the_feature_walk() {
    let mut full = Recorder::new(false);
    assert_eq!(read_geojson(MIXED, &mut full), Ok(()));
    let projected: Vec<Event> = full.events.iter().filter(|e| is_geometry_event(e)).cloned().collect();
    let mut geom = Recorder::new(false);
    assert_eq!(read_geojson_geom(MIXED, &mut geom), Ok(()));
    assert_eq!(projected, geom.events);
}

#[test]
fn property_flag_of_the_processor_is_not_looked_at() {
    // The recorder answers `true` to every property; the walk goes on.
    let mut rec = Recorder::new(false);
    assert_eq!(read_geojson(r#"{"type": "Feature", "properties": {"a": 1, "b": 2}, "geometry": null}"#, &mut rec), Ok(()));
    assert_eq!(rec.events.len(), 8);
}

#[test]
fn event_log_keeps_what_it_receives() {
    let text = r#"{"type": "Feature", "properties": {"k": "v"}, "geometry": {"type": "Point", "coordinates": [1, 2]}}"#;
    let mut log = EventLog::new(false);
    assert_eq!(read_geojson(text, &mut log), Ok(()));
    let mut rec = Recorder::new(false);
    assert_eq!(read_geojson(text, &mut rec), Ok(()));
    assert_eq!(log.events, rec.events);
    assert_eq!(log.events.len(), 12);
}

fn closes(open: &Event, close: &Event) -> bool {
    match (open, close) {
        (Event::PointBegin { idx: a }, Event::PointEnd { idx: b }) => a == b,
        (Event::MultiPointBegin { idx: a, .. }, Event::MultiPointEnd { idx: b }) => a == b,
        (Event::LineStringBegin { tagged: t, idx: a, .. }, Event::LineStringEnd { tagged: u, idx: b }) => t == u && a == b,
        (Event::MultiLineStringBegin { idx: a, .. }, Event::MultiLineStringEnd { idx: b }) => a == b,
        (Event::PolygonBegin { tagged: t, idx: a, .. }, Event::PolygonEnd { tagged: u, idx: b }) => t == u && a == b,
        (Event::MultiPolygonBegin { idx: a, .. }, Event::MultiPolygonEnd { idx: b }) => a == b,
        (Event::GeometryCollectionBegin { idx: a, .. }, Event::GeometryCollectionEnd { idx: b }) => a == b,
        (Event::DatasetBegin { .. }, Event::DatasetEnd) => true,
        (Event::FeatureBegin { idx: a }, Event::FeatureEnd { idx: b }) => a == b,
        (Event::PropertiesBegin, Event::PropertiesEnd) => true,
        (Event::GeometryBegin, Event::GeometryEnd) => true,
        _ => false,
    }
}

fn properly_nested(events: &[Event]) -> bool {
    let mut stack: Vec<&Event> = Vec::new();
    for e in events {
        match depth_change(e) {
            1 => stack.push(e),
            -1 => match stack.pop() {
                Some(open) if closes(open, e) => {},
                _ => return false,
            },
            _ => {},
        }
    }
    stack.is_empty()
}

#[test]
fn walks_are_properly_nested() {
    for multi_dim in [false, true] {
        let events = document_events_of(MIXED, multi_dim).unwrap();
        assert!(properly_nested(&events));
        let events = document_geom_events_of(MIXED, multi_dim).unwrap();
        assert!(properly_nested(&events));
        assert_eq!(events[0], Event::MultiPolygonBegin { size: 2, idx: 0 });
        assert_eq!(events[events.len() - 1], Event::GeometryCollectionEnd { idx: 1 });
    }
}

#[test]
fn events_of_a_text_are_what_a_processor_receives() {
    let mut rec = Recorder::new(true);
    assert_eq!(read_geojson(MIXED, &mut rec), Ok(()));
    assert_eq!(document_events_of(MIXED, true), Ok(rec.events));
    assert!(matches!(document_events_of("[1, 2]", false), Err(GeozeroError::Geometry(_))));
    assert_eq!(
        document_geom_events_of(r#"{"type": "MultiPoint", "coordinates": [[1, 2], [3]]}"#, false),
        Ok(vec![
            Event::MultiPointBegin { size: 2, idx: 0 },
            Event::Xy { x: b(1.0), y: b(2.0), idx: 0 },
            Event::ShortPosition { idx: 1 },
            Event::MultiPointEnd { idx: 0 },
        ])
    );
}

#[test]
fn geometry_walk_ignores_properties() {
    let a = r#"{"type": "FeatureCollection", "features": [
        {"type": "Feature", "properties": {"x": 1}, "geometry": {"type": "Point", "coordinates": [1, 2]}},
        {"type": "Feature", "properties": null, "geometry": null}]}"#;
    let b = r#"{"type": "FeatureCollection", "features": [
        {"type": "Feature", "properties": {"y": [true], "z": "w"}, "geometry": {"type": "Point", "coordinates": [1, 2]}},
        {"type": "Feature", "properties": {"q": null}, "geometry": null}]}"#;
    assert_eq!(document_geom_events_of(a, false), document_geom_events_of(b, false));
    assert_ne!(document_events_of(a, false), document_events_of(b, false));
}

fn announced(open: &Event) -> Option<usize> {
    match open {
        Event::PointBegin { .. } => Some(1),
        Event::MultiPointBegin { size, .. }
        | Event::LineStringBegin { size, .. }
        | Event::MultiLineStringBegin { size, .. }
        | Event::PolygonBegin { size, .. }
        | Event::MultiPolygonBegin { size, .. }
        | Event::GeometryCollectionBegin { size, .. } => Some(*size),
        _ => None,
    }
}

fn holds_positions(open: &Event) -> bool {
    matches!(open, Event::PointBegin { .. } | Event::MultiPointBegin { .. } | Event::LineStringBegin { .. })
}

fn is_position(e: &Event) -> bool {
    matches!(e, Event::Xy { .. } | Event::Coordinate { .. } | Event::ShortPosition { .. })
}

// Positions stand directly inside points, multi-points and line strings;
// every bracket gets as many direct children as its begin announces.
fn well_shaped(events: &[Event]) -> bool {
    let mut stack: Vec<(&Event, usize)> = Vec::new();
    for e in events {
        let inside_positions = stack.last().map_or(false, |(open, _)| holds_positions(open));
        if is_position(e) {
            if !inside_positions {
                return false;
            }
            stack.last_mut().unwrap().1 += 1;
        } else if depth_change(e) == 1 {
            if inside_positions {
                return false;
            }
            if let Some(top) = stack.last_mut() {
                top.1 += 1;
            }
            stack.push((e, 0));
        } else if depth_change(e) == -1 {
            match stack.pop() {
                Some((open, n)) if closes(open, e) && announced(open) == Some(n) => {},
                _ => return false,
            }
        }
    }
    stack.is_empty()
}

fn handed_values(events: &[Event]) -> Vec<Vec<f64>> {
    events
        .iter()
        .filter_map(|e| match e {
            Event::Xy { x, y, .. } => Some(vec![f(*x), f(*y)]),
            Event::Coordinate { x, y, z: Some(z), .. } => Some(vec![f(*x), f(*y), f(*z)]),
            Event::Coordinate { x, y, z: None, .. } => Some(vec![f(*x), f(*y)]),
            Event::ShortPosition { .. } => Some(vec![]),
            _ => None,
        })
        .collect()
}

#[test]
fn geometry_walks_are_well_shaped_and_keep_the_order_of_positions() {
    let text = r#"{"type": "GeometryCollection", "geometries": [
        {"type": "MultiPolygon", "coordinates": [[[[0, 0], [1, 0], [1, 1], [0, 0]]], [[[5, 5], [6, 5], [5, 6], [5, 5]], [[5.2, 5.2], [5.4, 5.2], [5.2, 5.4], [5.2, 5.2]]]]},
        {"type": "LineString", "coordinates": [[5, 6, 7], [8, 9]]},
        {"type": "Point", "coordinates": [3, 4, 5, 6]}]}"#;
    let events = document_geom_events_of(text, true).unwrap();
    assert!(well_shaped(&events));
    assert_eq!(
        handed_values(&events),
        vec![
            vec![0.0, 0.0], vec![1.0, 0.0], vec![1.0, 1.0], vec![0.0, 0.0],
            vec![5.0, 5.0], vec![6.0, 5.0], vec![5.0, 6.0], vec![5.0, 5.0],
            vec![5.2, 5.2], vec![5.4, 5.2], vec![5.2, 5.4], vec![5.2, 5.2],
            vec![5.0, 6.0, 7.0], vec![8.0, 9.0], vec![3.0, 4.0, 5.0],
        ]
    );
    let events = document_geom_events_of(text, false).unwrap();
    assert!(well_shaped(&events));
    assert_eq!(handed_values(&events)[12], vec![5.0, 6.0]);
    assert_eq!(handed_values(&events)[14], vec![3.0, 4.0]);
    // A bracket short of a child is not well shaped: drop the first position
    // of the first ring.
    let mut short = events.clone();
    assert_eq!(short[4], Event::Xy { x: b(0.0), y: b(0.0), idx: 0 });
    short.remove(4);
    assert!(!well_shaped(&short));
    // The geometries of a feature collection, one after the other.
    let events = document_geom_events_of(MIXED, false).unwrap();
    assert!(well_shaped(&events));
    assert_eq!(handed_values(&events).len(), 15);
    assert_eq!(handed_values(&events)[12], vec![1.0, 2.0]);
    // A walk that reaches a short position keeps its place and its shape.
    let events = document_geom_events_of(r#"{"type": "LineString", "coordinates": [[1, 2], [3], [4, 5]]}"#, false).unwrap();
    assert!(well_shaped(&events));
    assert_eq!(handed_values(&events), vec![vec![1.0, 2.0], vec![], vec![4.0, 5.0]]);
}

#[test]
fn reading_twice_with_processors_that_answer_alike_ends_alike() {
    let mut geojson = GeoJson(MIXED);
    for fail_at in [None, Some(0), Some(7), Some(20)] {
        let mut first = Recorder::new(true);
        first.fail_at = fail_at;
        let mut second = Recorder::new(true);
        second.fail_at = fail_at;
        let r1 = geojson.process(&mut first);
        let r2 = geojson.process(&mut second);
        assert_eq!(r1, r2);
        assert_eq!(first.events, second.events);
        assert_eq!(r1.is_ok(), fail_at.is_none());
        assert_eq!(geojson.0, MIXED);
    }
    let mut bad = GeoJson("{\"type\": 1}");
    let r1 = bad.process(&mut Recorder::new(false));
    let r2 = bad.process(&mut Recorder::new(false));
    assert_eq!(r1, r2);
    assert!(matches!(r1, Err(GeozeroError::Geometry(_))));
}
