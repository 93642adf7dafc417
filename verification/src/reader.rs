//! Reading GeoJSON and handing its events to a processor.
use vstd::prelude::*;
use crate::convert::{geojson_parse, read_document};
use crate::error::GeozeroError;
use crate::events::{Event, document_events, document_geom_events};
use crate::laws::{fits_mode, law_document_geom_walk};
use crate::model::Document;
use crate::processor::{FeatureProcessor, GeomProcessor, delivered, deliver_events, deliver_geom_events};
use crate::walk::{process_geojson, process_geojson_geom};

verus! {

/// What reading `text` with a processor whose record was `before` leaves
/// (`after`, `r`): where the text does not parse, the parser's message as a
/// geometry error and nothing received; otherwise the walk's `events` of the
/// parsed document handed on in order up to the first error, where a
/// position of fewer than two values also ends the walk (see [`delivered`]).
pub open spec fn read_outcome(
    text: Seq<char>,
    before: Seq<(Event, Result<(), GeozeroError>)>,
    after: Seq<(Event, Result<(), GeozeroError>)>,
    r: Result<(), GeozeroError>,
    events: Seq<Event>,
    parsed: Result<Document, Seq<char>>,
) -> bool {
    match parsed {
        Err(m) => (r matches Err(GeozeroError::Geometry(s)) && s@ == m) && after == before,
        Ok(_) => delivered(before, after, events, r),
    }
}

/// Walks a document and hands its events (see [`document_events`]) to a
/// feature processor, in order, until the processor reports an error, which
/// is returned. The processor's mode is asked once, before the walk.
pub fn process_document<P: FeatureProcessor>(doc: &Document, processor: &mut P) -> (r: Result<(), GeozeroError>)
    ensures
        delivered(old(processor).received(), final(processor).received(), document_events(*doc, old(processor).mode()), r),
        final(processor).mode() == old(processor).mode(),
{
    let multi_dim = processor.multi_dim();
    let mut events: Vec<Event> = Vec::new();
    process_geojson(doc, multi_dim, &mut events);
    assert(events@ == document_events(*doc, multi_dim));
    deliver_events(&events, processor).1
}

/// Walks the geometries of a document and hands their events (see
/// [`document_geom_events`]) to a geometry processor, in order, until the
/// processor reports an error, which is returned. The processor's mode is
/// asked once, before the walk.
pub fn process_document_geom<P: GeomProcessor>(doc: &Document, processor: &mut P) -> (r: Result<(), GeozeroError>)
    ensures
        delivered(old(processor).received(), final(processor).received(), document_geom_events(*doc, old(processor).mode()), r),
        final(processor).mode() == old(processor).mode(),
{
    let multi_dim = processor.multi_dim();
    let mut events: Vec<Event> = Vec::new();
    process_geojson_geom(doc, multi_dim, &mut events);
    proof {
        law_document_geom_walk(*doc, multi_dim);
        assert(events@ =~= document_geom_events(*doc, multi_dim));
        assert forall|i: int| 0 <= i < events@.len() implies (#[trigger] events@[i]).is_geometry() by {
            assert(fits_mode(events@[i], multi_dim));
        }
    }
    deliver_geom_events(&events, processor).1
}

/// The events of the walk of a text for a feature processor of the given
/// mode, where the text is a GeoJSON document.
pub fn document_events_of(text: &str, multi_dim: bool) -> (r: Result<Vec<Event>, GeozeroError>)
    ensures
        geojson_parse(text@) matches Err(m) ==> r matches Err(GeozeroError::Geometry(s)) && s@ == m,
        geojson_parse(text@) matches Ok(d) ==> r matches Ok(v) && v@ == document_events(d, multi_dim),
{
    let doc = read_document(text)?;
    let mut events: Vec<Event> = Vec::new();
    process_geojson(&doc, multi_dim, &mut events);
    Ok(events)
}

/// The events of the walk of a text for a geometry processor of the given
/// mode, where the text is a GeoJSON document.
pub fn document_geom_events_of(text: &str, multi_dim: bool) -> (r: Result<Vec<Event>, GeozeroError>)
    ensures
        geojson_parse(text@) matches Err(m) ==> r matches Err(GeozeroError::Geometry(s)) && s@ == m,
        geojson_parse(text@) matches Ok(d) ==> r matches Ok(v) && v@ == document_geom_events(d, multi_dim),
{
    let doc = read_document(text)?;
    let mut events: Vec<Event> = Vec::new();
    process_geojson_geom(&doc, multi_dim, &mut events);
    Ok(events)
}

/// Reads a GeoJSON text and processes it with a feature processor (see
/// [`read_outcome`] with the document events).
pub fn read_geojson<P: FeatureProcessor>(text: &str, processor: &mut P) -> (r: Result<(), GeozeroError>)
    ensures
        read_outcome(
            text@,
            old(processor).received(),
            final(processor).received(),
            r,
            match geojson_parse(text@) {
                Ok(d) => document_events(d, old(processor).mode()),
                Err(_) => Seq::<Event>::empty(),
            },
            geojson_parse(text@),
        ),
        final(processor).mode() == old(processor).mode(),
{
    let doc = read_document(text)?;
    process_document(&doc, processor)
}

/// Reads a GeoJSON text and processes its geometries with a geometry
/// processor (see [`read_outcome`] with the geometry events).
pub fn read_geojson_geom<P: GeomProcessor>(text: &str, processor: &mut P) -> (r: Result<(), GeozeroError>)
    ensures
        read_outcome(
            text@,
            old(processor).received(),
            final(processor).received(),
            r,
            match geojson_parse(text@) {
                Ok(d) => document_geom_events(d, old(processor).mode()),
                Err(_) => Seq::<Event>::empty(),
            },
            geojson_parse(text@),
        ),
        final(processor).mode() == old(processor).mode(),
{
    let doc = read_document(text)?;
    process_document_geom(&doc, processor)
}

/// GeoJSON text, owned.
#[derive(Debug)]
pub struct GeoJsonString(pub String);

impl GeoJsonString {
    /// Processes the geometries of the text, as [`read_geojson_geom`] does.
    pub fn process_geom<P: GeomProcessor>(&self, processor: &mut P) -> (r: Result<(), GeozeroError>)
        ensures
            read_outcome(
                self.0@,
                old(processor).received(),
                final(processor).received(),
                r,
                match geojson_parse(self.0@) {
                    Ok(d) => document_geom_events(d, old(processor).mode()),
                    Err(_) => Seq::<Event>::empty(),
                },
                geojson_parse(self.0@),
            ),
            final(processor).mode() == old(processor).mode(),
    {
        read_geojson_geom(self.0.as_str(), processor)
    }
}

/// GeoJSON text, borrowed.
pub struct GeoJson<'a>(pub &'a str);

impl<'a> GeoJson<'a> {
    /// Processes the geometries of the text, as [`read_geojson_geom`] does.
    pub fn process_geom<P: GeomProcessor>(&self, processor: &mut P) -> (r: Result<(), GeozeroError>)
        ensures
            read_outcome(
                self.0@,
                old(processor).received(),
                final(processor).received(),
                r,
                match geojson_parse(self.0@) {
                    Ok(d) => document_geom_events(d, old(processor).mode()),
                    Err(_) => Seq::<Event>::empty(),
                },
                geojson_parse(self.0@),
            ),
            final(processor).mode() == old(processor).mode(),
    {
        read_geojson_geom(self.0, processor)
    }

    /// Processes the text as a dataset, as [`read_geojson`] does; the text is
    /// left as it is.
    pub fn process<P: FeatureProcessor>(&mut self, processor: &mut P) -> (r: Result<(), GeozeroError>)
        ensures
            *final(self) == *old(self),
            read_outcome(
                old(self).0@,
                old(processor).received(),
                final(processor).received(),
                r,
                match geojson_parse(old(self).0@) {
                    Ok(d) => document_events(d, old(processor).mode()),
                    Err(_) => Seq::<Event>::empty(),
                },
                geojson_parse(old(self).0@),
            ),
            final(processor).mode() == old(processor).mode(),
    {
        read_geojson(self.0, processor)
    }
}

} // verus!
