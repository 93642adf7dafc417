# geozero (GeoJSON reader)

Reads GeoJSON text and hands its content, as a sequence of processing events,
to a processor: datasets, features, their properties and their geometries.

- `src/model.rs`: the document model (coordinates as `f64` bit patterns).
- `src/events.rs`: the events, and the exact event sequence of every part of a document.
- `src/walk.rs`: the walk, proved to produce exactly those sequences.
- `src/processor.rs`: the processor traits (each method records the event it
  stands for and the answer given), the verified `EventLog` processor, and the
  in-order delivery that stops at the processor's first error and returns it.
- `src/convert.rs`: parsing with the `geojson` crate into the model (the
  result is named `geojson_parse` of the text). A position of fewer than two
  values is reached during the walk, which ends there with an error.
- `src/reader.rs`: the entry points (`read_geojson`, `read_geojson_geom`,
  `document_events_of`, `GeoJson`, `GeoJsonString`), whose contracts tie what the
  processor receives to the parsed text.
- `src/laws.rs`: properties of every walk (balanced and properly nested brackets,
  processor mode, position counts, opening event and sizes, geometry-only walk as
  projection, properties never influencing geometries, and two reads with
  processors that answer alike ending alike).
- `src/shape.rs`: the shape of a geometry walk (positions only directly inside
  points, multi-points and line strings; every bracket with as many children as
  its begin announces; positions handed on in input order), for a geometry
  and for the geometries of a whole document.
- `app/`: reading from `std::io::Read` sources (`GeoJsonReader`).
