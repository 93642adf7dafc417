//! Processors: the receivers of processing events, and the in-order
//! delivery of an event sequence to them.
//!
//! Each processor method stands for one event. Its contract says that the
//! processor has then received that event, with the answer it gave, and that
//! its mode stays as it was; what it answers is its own business.
use vstd::prelude::*;
use crate::error::{GeozeroError, is_short_position_error, short_position};
use crate::events::Event;
use crate::model::ColumnValue;

verus! {

/// The answer of a processor method, without the flag that `property` returns.
pub open spec fn answer_of<T>(r: Result<T, GeozeroError>) -> Result<(), GeozeroError> {
    match r {
        Ok(_) => Ok(()),
        Err(e) => Err(e),
    }
}

/// Events, each received with the answer `Ok`.
pub open spec fn answered(events: Seq<Event>) -> Seq<(Event, Result<(), GeozeroError>)> {
    events.map_values(|e: Event| (e, Ok::<(), GeozeroError>(())))
}

/// None of the events is the short-position event.
pub open spec fn no_short(events: Seq<Event>) -> bool {
    forall|i: int| 0 <= i < events.len() ==> !(#[trigger] events[i] is ShortPosition)
}

/// What handing the events from `k` on to a processor whose record was
/// `before`, after the events before `k` were all answered with `Ok`, leaves:
/// where event `k` is the short-position event, the record as it was after
/// those events and the short-position error; otherwise event `k` received
/// with the error `r` returns, and nothing after it.
pub open spec fn stopped_at(
    before: Seq<(Event, Result<(), GeozeroError>)>,
    after: Seq<(Event, Result<(), GeozeroError>)>,
    events: Seq<Event>,
    k: int,
    r: Result<(), GeozeroError>,
) -> bool {
    &&& 0 <= k < events.len()
    &&& no_short(events.take(k))
    &&& r is Err
    &&& if events[k] is ShortPosition {
        after == before + answered(events.take(k)) && is_short_position_error(r->Err_0)
    } else {
        after == before + answered(events.take(k)) + seq![(events[k], r)]
    }
}

/// Handing `events` in order to a processor whose record was `before`,
/// stopping at the first error, leaves the record `after` and the result
/// `r`: either every event was received with `Ok` and `r` is `Ok`, or the
/// events before some event `k` were received with `Ok` and the walk
/// stopped at event `k` (see [`stopped_at`]): at the processor's error, or
/// at a position of fewer than two values.
pub open spec fn delivered(
    before: Seq<(Event, Result<(), GeozeroError>)>,
    after: Seq<(Event, Result<(), GeozeroError>)>,
    events: Seq<Event>,
    r: Result<(), GeozeroError>,
) -> bool {
    match r {
        Ok(_) => no_short(events) && after == before + answered(events),
        Err(_) => exists|k: int| #[trigger] stopped_at(before, after, events, k, r),
    }
}

proof fn lemma_answered_push(events: Seq<Event>, i: int)
    requires
        0 <= i < events.len(),
    ensures
        answered(events.take(i + 1)) == answered(events.take(i)).push((events[i], Ok::<(), GeozeroError>(()))),
{
    assert(events.take(i + 1) =~= events.take(i).push(events[i]));
    assert(answered(events.take(i + 1)) =~= answered(events.take(i)).push((events[i], Ok::<(), GeozeroError>(()))));
}

/// Receives the geometry events of a walk. Every method reports success or
/// an error; an error ends the walk. Coordinate values are `f64` bit patterns.
pub trait GeomProcessor {
    /// The calls received so far, in order, each as its event and the answer
    /// given. A processor verified with this library defines it (see
    /// [`EventLog`]); a processor written in plain Rust cannot define a spec
    /// function, so the trait gives it an unspecified value (nothing can be
    /// proved of it, and a verified processor that does not define it cannot
    /// meet the method contracts below).
    closed spec fn received(&self) -> Seq<(Event, Result<(), GeozeroError>)> {
        vstd::pervasive::arbitrary()
    }

    /// Whether the processor takes `coordinate` in place of `xy`. It is fixed
    /// for the whole walk: every method leaves it as it was, so the library
    /// asks `multi_dim` once, before the walk, and that answer holds where the
    /// walk needs it. For a processor in plain Rust, as `received`.
    closed spec fn mode(&self) -> bool {
        vstd::pervasive::arbitrary()
    }

    /// Whether the processor takes `coordinate` (with a z value) in place of `xy`.
    fn multi_dim(&self) -> (r: bool)
        ensures
            r == self.mode(),
    ;

    fn xy(&mut self, x: u64, y: u64, idx: usize) -> (r: Result<(), GeozeroError>)
        ensures
            final(self).received() == old(self).received().push((Event::Xy { x, y, idx }, r)),
            final(self).mode() == old(self).mode(),
    ;

    fn coordinate(
        &mut self,
        x: u64,
        y: u64,
        z: Option<u64>,
        m: Option<u64>,
        t: Option<u64>,
        tm: Option<u64>,
        idx: usize,
    ) -> (r: Result<(), GeozeroError>)
        ensures
            final(self).received() == old(self).received().push((Event::Coordinate { x, y, z, m, t, tm, idx }, r)),
            final(self).mode() == old(self).mode(),
    ;

    fn point_begin(&mut self, idx: usize) -> (r: Result<(), GeozeroError>)
        ensures
            final(self).received() == old(self).received().push((Event::PointBegin { idx }, r)),
            final(self).mode() == old(self).mode(),
    ;

    fn point_end(&mut self, idx: usize) -> (r: Result<(), GeozeroError>)
        ensures
            final(self).received() == old(self).received().push((Event::PointEnd { idx }, r)),
            final(self).mode() == old(self).mode(),
    ;

    fn multipoint_begin(&mut self, size: usize, idx: usize) -> (r: Result<(), GeozeroError>)
        ensures
            final(self).received() == old(self).received().push((Event::MultiPointBegin { size, idx }, r)),
            final(self).mode() == old(self).mode(),
    ;

    fn multipoint_end(&mut self, idx: usize) -> (r: Result<(), GeozeroError>)
        ensures
            final(self).received() == old(self).received().push((Event::MultiPointEnd { idx }, r)),
            final(self).mode() == old(self).mode(),
    ;

    fn linestring_begin(&mut self, tagged: bool, size: usize, idx: usize) -> (r: Result<(), GeozeroError>)
        ensures
            final(self).received() == old(self).received().push((Event::LineStringBegin { tagged, size, idx }, r)),
            final(self).mode() == old(self).mode(),
    ;

    fn linestring_end(&mut self, tagged: bool, idx: usize) -> (r: Result<(), GeozeroError>)
        ensures
            final(self).received() == old(self).received().push((Event::LineStringEnd { tagged, idx }, r)),
            final(self).mode() == old(self).mode(),
    ;

    fn multilinestring_begin(&mut self, size: usize, idx: usize) -> (r: Result<(), GeozeroError>)
        ensures
            final(self).received() == old(self).received().push((Event::MultiLineStringBegin { size, idx }, r)),
            final(self).mode() == old(self).mode(),
    ;

    fn multilinestring_end(&mut self, idx: usize) -> (r: Result<(), GeozeroError>)
        ensures
            final(self).received() == old(self).received().push((Event::MultiLineStringEnd { idx }, r)),
            final(self).mode() == old(self).mode(),
    ;

    fn polygon_begin(&mut self, tagged: bool, size: usize, idx: usize) -> (r: Result<(), GeozeroError>)
        ensures
            final(self).received() == old(self).received().push((Event::PolygonBegin { tagged, size, idx }, r)),
            final(self).mode() == old(self).mode(),
    ;

    fn polygon_end(&mut self, tagged: bool, idx: usize) -> (r: Result<(), GeozeroError>)
        ensures
            final(self).received() == old(self).received().push((Event::PolygonEnd { tagged, idx }, r)),
            final(self).mode() == old(self).mode(),
    ;

    fn multipolygon_begin(&mut self, size: usize, idx: usize) -> (r: Result<(), GeozeroError>)
        ensures
            final(self).received() == old(self).received().push((Event::MultiPolygonBegin { size, idx }, r)),
            final(self).mode() == old(self).mode(),
    ;

    fn multipolygon_end(&mut self, idx: usize) -> (r: Result<(), GeozeroError>)
        ensures
            final(self).received() == old(self).received().push((Event::MultiPolygonEnd { idx }, r)),
            final(self).mode() == old(self).mode(),
    ;

    fn geometrycollection_begin(&mut self, size: usize, idx: usize) -> (r: Result<(), GeozeroError>)
        ensures
            final(self).received() == old(self).received().push((Event::GeometryCollectionBegin { size, idx }, r)),
            final(self).mode() == old(self).mode(),
    ;

    fn geometrycollection_end(&mut self, idx: usize) -> (r: Result<(), GeozeroError>)
        ensures
            final(self).received() == old(self).received().push((Event::GeometryCollectionEnd { idx }, r)),
            final(self).mode() == old(self).mode(),
    ;
}

/// Receives feature properties. The returned flag is the processor's own
/// business: the walk does not look at it.
pub trait PropertyProcessor: GeomProcessor {
    fn property(&mut self, idx: usize, name: &String, value: &ColumnValue) -> (r: Result<bool, GeozeroError>)
        ensures
            final(self).received() == old(self).received().push(
                (Event::Property { idx, name: *name, value: *value }, answer_of(r)),
            ),
            final(self).mode() == old(self).mode(),
    ;
}

/// Receives the events of a whole document: datasets, features, their
/// properties and their geometries.
pub trait FeatureProcessor: PropertyProcessor {
    fn dataset_begin(&mut self, name: Option<&String>) -> (r: Result<(), GeozeroError>)
        ensures
            final(self).received() == old(self).received().push((Event::DatasetBegin { name: match name { Some(s) => Some(*s), None => None } }, r)),
            final(self).mode() == old(self).mode(),
    ;

    fn dataset_end(&mut self) -> (r: Result<(), GeozeroError>)
        ensures
            final(self).received() == old(self).received().push((Event::DatasetEnd, r)),
            final(self).mode() == old(self).mode(),
    ;

    fn feature_begin(&mut self, idx: u64) -> (r: Result<(), GeozeroError>)
        ensures
            final(self).received() == old(self).received().push((Event::FeatureBegin { idx }, r)),
            final(self).mode() == old(self).mode(),
    ;

    fn feature_end(&mut self, idx: u64) -> (r: Result<(), GeozeroError>)
        ensures
            final(self).received() == old(self).received().push((Event::FeatureEnd { idx }, r)),
            final(self).mode() == old(self).mode(),
    ;

    fn properties_begin(&mut self) -> (r: Result<(), GeozeroError>)
        ensures
            final(self).received() == old(self).received().push((Event::PropertiesBegin, r)),
            final(self).mode() == old(self).mode(),
    ;

    fn properties_end(&mut self) -> (r: Result<(), GeozeroError>)
        ensures
            final(self).received() == old(self).received().push((Event::PropertiesEnd, r)),
            final(self).mode() == old(self).mode(),
    ;

    fn geometry_begin(&mut self) -> (r: Result<(), GeozeroError>)
        ensures
            final(self).received() == old(self).received().push((Event::GeometryBegin, r)),
            final(self).mode() == old(self).mode(),
    ;

    fn geometry_end(&mut self) -> (r: Result<(), GeozeroError>)
        ensures
            final(self).received() == old(self).received().push((Event::GeometryEnd, r)),
            final(self).mode() == old(self).mode(),
    ;
}

fn copy_column_value(v: &ColumnValue) -> (r: ColumnValue)
    ensures
        r == *v,
{
    match v {
        ColumnValue::String(s) => ColumnValue::String(s.clone()),
        ColumnValue::Double(b) => ColumnValue::Double(*b),
        ColumnValue::Long(i) => ColumnValue::Long(*i),
        ColumnValue::ULong(u) => ColumnValue::ULong(*u),
        ColumnValue::Bool(b) => ColumnValue::Bool(*b),
    }
}

/// A processor that keeps every event it receives and answers `Ok` to all.
pub struct EventLog {
    pub events: Vec<Event>,
    pub multi_dim: bool,
}

impl EventLog {
    /// An empty log for a processor of the given mode.
    pub fn new(multi_dim: bool) -> (r: EventLog)
        ensures
            r.events@ == Seq::<Event>::empty(),
            r.multi_dim == multi_dim,
    {
        EventLog { events: Vec::new(), multi_dim }
    }

    fn record(&mut self, e: Event) -> (r: Result<(), GeozeroError>)
        ensures
            r is Ok,
            final(self).events@ == old(self).events@.push(e),
            final(self).multi_dim == old(self).multi_dim,
            answered(final(self).events@) == answered(old(self).events@).push((e, r)),
    {
        self.events.push(e);
        let r = Ok(());
        assert(answered(self.events@) =~= answered(old(self).events@).push((e, r)));
        r
    }
}

impl GeomProcessor for EventLog {
    open spec fn received(&self) -> Seq<(Event, Result<(), GeozeroError>)> {
        answered(self.events@)
    }

    open spec fn mode(&self) -> bool {
        self.multi_dim
    }

    fn multi_dim(&self) -> (r: bool) {
        self.multi_dim
    }

    fn xy(&mut self, x: u64, y: u64, idx: usize) -> (r: Result<(), GeozeroError>) {
        self.record(Event::Xy { x, y, idx })
    }

    fn coordinate(
        &mut self,
        x: u64,
        y: u64,
        z: Option<u64>,
        m: Option<u64>,
        t: Option<u64>,
        tm: Option<u64>,
        idx: usize,
    ) -> (r: Result<(), GeozeroError>) {
        self.record(Event::Coordinate { x, y, z, m, t, tm, idx })
    }

    fn point_begin(&mut self, idx: usize) -> (r: Result<(), GeozeroError>) {
        self.record(Event::PointBegin { idx })
    }

    fn point_end(&mut self, idx: usize) -> (r: Result<(), GeozeroError>) {
        self.record(Event::PointEnd { idx })
    }

    fn multipoint_begin(&mut self, size: usize, idx: usize) -> (r: Result<(), GeozeroError>) {
        self.record(Event::MultiPointBegin { size, idx })
    }

    fn multipoint_end(&mut self, idx: usize) -> (r: Result<(), GeozeroError>) {
        self.record(Event::MultiPointEnd { idx })
    }

    fn linestring_begin(&mut self, tagged: bool, size: usize, idx: usize) -> (r: Result<(), GeozeroError>) {
        self.record(Event::LineStringBegin { tagged, size, idx })
    }

    fn linestring_end(&mut self, tagged: bool, idx: usize) -> (r: Result<(), GeozeroError>) {
        self.record(Event::LineStringEnd { tagged, idx })
    }

    fn multilinestring_begin(&mut self, size: usize, idx: usize) -> (r: Result<(), GeozeroError>) {
        self.record(Event::MultiLineStringBegin { size, idx })
    }

    fn multilinestring_end(&mut self, idx: usize) -> (r: Result<(), GeozeroError>) {
        self.record(Event::MultiLineStringEnd { idx })
    }

    fn polygon_begin(&mut self, tagged: bool, size: usize, idx: usize) -> (r: Result<(), GeozeroError>) {
        self.record(Event::PolygonBegin { tagged, size, idx })
    }

    fn polygon_end(&mut self, tagged: bool, idx: usize) -> (r: Result<(), GeozeroError>) {
        self.record(Event::PolygonEnd { tagged, idx })
    }

    fn multipolygon_begin(&mut self, size: usize, idx: usize) -> (r: Result<(), GeozeroError>) {
        self.record(Event::MultiPolygonBegin { size, idx })
    }

    fn multipolygon_end(&mut self, idx: usize) -> (r: Result<(), GeozeroError>) {
        self.record(Event::MultiPolygonEnd { idx })
    }

    fn geometrycollection_begin(&mut self, size: usize, idx: usize) -> (r: Result<(), GeozeroError>) {
        self.record(Event::GeometryCollectionBegin { size, idx })
    }

    fn geometrycollection_end(&mut self, idx: usize) -> (r: Result<(), GeozeroError>) {
        self.record(Event::GeometryCollectionEnd { idx })
    }
}

impl PropertyProcessor for EventLog {
    fn property(&mut self, idx: usize, name: &String, value: &ColumnValue) -> (r: Result<bool, GeozeroError>) {
        let e = Event::Property { idx, name: name.clone(), value: copy_column_value(value) };
        match self.record(e) {
            Ok(()) => Ok(false),
            Err(err) => Err(err),
        }
    }
}

impl FeatureProcessor for EventLog {
    fn dataset_begin(&mut self, name: Option<&String>) -> (r: Result<(), GeozeroError>) {
        self.record(Event::DatasetBegin { name: match name { Some(s) => Some(s.clone()), None => None } })
    }

    fn dataset_end(&mut self) -> (r: Result<(), GeozeroError>) {
        self.record(Event::DatasetEnd)
    }

    fn feature_begin(&mut self, idx: u64) -> (r: Result<(), GeozeroError>) {
        self.record(Event::FeatureBegin { idx })
    }

    fn feature_end(&mut self, idx: u64) -> (r: Result<(), GeozeroError>) {
        self.record(Event::FeatureEnd { idx })
    }

    fn properties_begin(&mut self) -> (r: Result<(), GeozeroError>) {
        self.record(Event::PropertiesBegin)
    }

    fn properties_end(&mut self) -> (r: Result<(), GeozeroError>) {
        self.record(Event::PropertiesEnd)
    }

    fn geometry_begin(&mut self) -> (r: Result<(), GeozeroError>) {
        self.record(Event::GeometryBegin)
    }

    fn geometry_end(&mut self) -> (r: Result<(), GeozeroError>) {
        self.record(Event::GeometryEnd)
    }
}

/// Hands one geometry event to the method of the same name.
fn dispatch_geom_event<P: GeomProcessor>(processor: &mut P, event: &Event) -> (r: Result<(), GeozeroError>)
    requires
        event.is_geometry(),
        !(event is ShortPosition),
    ensures
        final(processor).received() == old(processor).received().push((*event, r)),
        final(processor).mode() == old(processor).mode(),
{
    match event {
        Event::Xy { x, y, idx } => processor.xy(*x, *y, *idx),
        Event::Coordinate { x, y, z, m, t, tm, idx } => processor.coordinate(*x, *y, *z, *m, *t, *tm, *idx),
        Event::PointBegin { idx } => processor.point_begin(*idx),
        Event::PointEnd { idx } => processor.point_end(*idx),
        Event::MultiPointBegin { size, idx } => processor.multipoint_begin(*size, *idx),
        Event::MultiPointEnd { idx } => processor.multipoint_end(*idx),
        Event::LineStringBegin { tagged, size, idx } => processor.linestring_begin(*tagged, *size, *idx),
        Event::LineStringEnd { tagged, idx } => processor.linestring_end(*tagged, *idx),
        Event::MultiLineStringBegin { size, idx } => processor.multilinestring_begin(*size, *idx),
        Event::MultiLineStringEnd { idx } => processor.multilinestring_end(*idx),
        Event::PolygonBegin { tagged, size, idx } => processor.polygon_begin(*tagged, *size, *idx),
        Event::PolygonEnd { tagged, idx } => processor.polygon_end(*tagged, *idx),
        Event::MultiPolygonBegin { size, idx } => processor.multipolygon_begin(*size, *idx),
        Event::MultiPolygonEnd { idx } => processor.multipolygon_end(*idx),
        Event::GeometryCollectionBegin { size, idx } => processor.geometrycollection_begin(*size, *idx),
        Event::GeometryCollectionEnd { idx } => processor.geometrycollection_end(*idx),
        _ => {
            assert(false);
            Ok(())
        },
    }
}

/// Hands one event of a document walk to the method of the same name.
fn dispatch_event<P: FeatureProcessor>(processor: &mut P, event: &Event) -> (r: Result<(), GeozeroError>)
    requires
        !(event is ShortPosition),
    ensures
        final(processor).received() == old(processor).received().push((*event, r)),
        final(processor).mode() == old(processor).mode(),
{
    match event {
        Event::DatasetBegin { name } => match name {
            Some(s) => processor.dataset_begin(Some(s)),
            None => processor.dataset_begin(None),
        },
        Event::DatasetEnd => processor.dataset_end(),
        Event::FeatureBegin { idx } => processor.feature_begin(*idx),
        Event::FeatureEnd { idx } => processor.feature_end(*idx),
        Event::PropertiesBegin => processor.properties_begin(),
        Event::PropertiesEnd => processor.properties_end(),
        Event::Property { idx, name, value } => match processor.property(*idx, name, value) {
            Ok(_) => Ok(()),
            Err(e) => Err(e),
        },
        Event::GeometryBegin => processor.geometry_begin(),
        Event::GeometryEnd => processor.geometry_end(),
        _ => dispatch_geom_event(processor, event),
    }
}

/// Hands the geometry events to the processor in order and stops at the
/// first error. Returns how many events were answered with `Ok`, and the
/// error of the event after them if there was one.
pub fn deliver_geom_events<P: GeomProcessor>(events: &Vec<Event>, processor: &mut P) -> (r: (usize, Result<(), GeozeroError>))
    requires
        forall|i: int| 0 <= i < events@.len() ==> (#[trigger] events@[i]).is_geometry(),
    ensures
        r.0 <= events@.len(),
        r.1 is Ok ==> r.0 == events@.len() && no_short(events@),
        r.1 is Ok ==> final(processor).received() == old(processor).received() + answered(events@),
        r.1 is Err ==> stopped_at(old(processor).received(), final(processor).received(), events@, r.0 as int, r.1),
        delivered(old(processor).received(), final(processor).received(), events@, r.1),
        final(processor).mode() == old(processor).mode(),
{
    let ghost start = processor.received();
    let mut i: usize = 0;
    while i < events.len()
        invariant
            i <= events@.len(),
            forall|j: int| 0 <= j < events@.len() ==> (#[trigger] events@[j]).is_geometry(),
            processor.received() == start + answered(events@.take(i as int)),
            no_short(events@.take(i as int)),
            processor.mode() == old(processor).mode(),
            start == old(processor).received(),
        decreases events@.len() - i,
    {
        if let Event::ShortPosition { .. } = &events[i] {
            let e = short_position();
            assert(stopped_at(start, processor.received(), events@, i as int, Err::<(), GeozeroError>(e)));
            return (i, Err(e));
        }
        let res = dispatch_geom_event(processor, &events[i]);
        match &res {
            Err(_) => {
                assert(processor.received() == start + answered(events@.take(i as int)) + seq![(events@[i as int], res)]);
                assert(stopped_at(start, processor.received(), events@, i as int, res));
                return (i, res);
            },
            Ok(_) => {},
        }
        proof {
            lemma_answered_push(events@, i as int);
            assert(res is Ok);
            assert(res->Ok_0 == ());
            assert(res == Ok::<(), GeozeroError>(()));
            assert(start + answered(events@.take(i + 1)) =~= (start + answered(events@.take(i as int))).push((events@[i as int], res)));
            assert(no_short(events@.take(i + 1))) by {
                assert forall|j: int| 0 <= j < events@.take(i + 1).len() implies !(#[trigger] events@.take(i + 1)[j] is ShortPosition) by {
                    if j < i {
                        assert(events@.take(i + 1)[j] == events@.take(i as int)[j]);
                    }
                }
            }
        }
        i = i + 1;
    }
    assert(events@.take(i as int) =~= events@);
    (i, Ok(()))
}

/// Hands the events to the processor in order and stops at the first error.
/// Returns how many events were answered with `Ok`, and the error of the
/// event after them if there was one.
pub fn deliver_events<P: FeatureProcessor>(events: &Vec<Event>, processor: &mut P) -> (r: (usize, Result<(), GeozeroError>))
    ensures
        r.0 <= events@.len(),
        r.1 is Ok ==> r.0 == events@.len() && no_short(events@),
        r.1 is Ok ==> final(processor).received() == old(processor).received() + answered(events@),
        r.1 is Err ==> stopped_at(old(processor).received(), final(processor).received(), events@, r.0 as int, r.1),
        delivered(old(processor).received(), final(processor).received(), events@, r.1),
        final(processor).mode() == old(processor).mode(),
{
    let ghost start = processor.received();
    let mut i: usize = 0;
    while i < events.len()
        invariant
            i <= events@.len(),
            processor.received() == start + answered(events@.take(i as int)),
            no_short(events@.take(i as int)),
            processor.mode() == old(processor).mode(),
            start == old(processor).received(),
        decreases events@.len() - i,
    {
        if let Event::ShortPosition { .. } = &events[i] {
            let e = short_position();
            assert(stopped_at(start, processor.received(), events@, i as int, Err::<(), GeozeroError>(e)));
            return (i, Err(e));
        }
        let res = dispatch_event(processor, &events[i]);
        match &res {
            Err(_) => {
                assert(processor.received() == start + answered(events@.take(i as int)) + seq![(events@[i as int], res)]);
                assert(stopped_at(start, processor.received(), events@, i as int, res));
                return (i, res);
            },
            Ok(_) => {},
        }
        proof {
            lemma_answered_push(events@, i as int);
            assert(res is Ok);
            assert(res->Ok_0 == ());
            assert(res == Ok::<(), GeozeroError>(()));
            assert(start + answered(events@.take(i + 1)) =~= (start + answered(events@.take(i as int))).push((events@[i as int], res)));
            assert(no_short(events@.take(i + 1))) by {
                assert forall|j: int| 0 <= j < events@.take(i + 1).len() implies !(#[trigger] events@.take(i + 1)[j] is ShortPosition) by {
                    if j < i {
                        assert(events@.take(i + 1)[j] == events@.take(i as int)[j]);
                    }
                }
            }
        }
        i = i + 1;
    }
    assert(events@.take(i as int) =~= events@);
    (i, Ok(()))
}

} // verus!
