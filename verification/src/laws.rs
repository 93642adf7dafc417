//! Properties of every walk, proved over the event specifications.
use vstd::prelude::*;
use crate::events::{
    Event, coord_events, positions_events, point_events, multi_point_events, linestring_events,
    lines_events, multilinestring_events, polygon_events, polygons_events, multi_polygon_events,
    geometry_events, members_events, properties_events, feature_body_events, feature_events,
    features_events, document_events, count_geometries, collection_geom_events,
    document_geom_events,
};
use crate::model::{Document, Feature, Geometry, Position, PropertyValue};
use crate::error::{GeozeroError, is_short_position_error};
use crate::processor::{answered, delivered, no_short, stopped_at};
use crate::reader::read_outcome;

verus! {

/// +1 for an event that opens a bracket, -1 for one that closes it.
pub open spec fn depth_change(e: Event) -> int {
    match e {
        Event::PointBegin { .. } | Event::MultiPointBegin { .. } | Event::LineStringBegin { .. }
        | Event::MultiLineStringBegin { .. } | Event::PolygonBegin { .. }
        | Event::MultiPolygonBegin { .. } | Event::GeometryCollectionBegin { .. }
        | Event::DatasetBegin { .. } | Event::FeatureBegin { .. } | Event::PropertiesBegin
        | Event::GeometryBegin => 1,
        Event::PointEnd { .. } | Event::MultiPointEnd { .. } | Event::LineStringEnd { .. }
        | Event::MultiLineStringEnd { .. } | Event::PolygonEnd { .. }
        | Event::MultiPolygonEnd { .. } | Event::GeometryCollectionEnd { .. }
        | Event::DatasetEnd | Event::FeatureEnd { .. } | Event::PropertiesEnd
        | Event::GeometryEnd => -1,
        _ => 0,
    }
}

/// How many brackets are open after the events of `s`.
pub open spec fn depth(s: Seq<Event>) -> int
    decreases s.len(),
{
    if s.len() == 0 {
        0
    } else {
        depth(s.drop_last()) + depth_change(s.last())
    }
}

/// Every bracket that is opened is closed, and none is closed before it is opened.
pub open spec fn balanced(s: Seq<Event>) -> bool {
    &&& depth(s) == 0
    &&& forall|i: int| 0 <= i <= s.len() ==> #[trigger] depth(s.take(i)) >= 0
}

/// A position event: `xy`, `coordinate`, or the short-position event.
pub open spec fn is_position_event(e: Event) -> bool {
    e is Xy || e is Coordinate || e is ShortPosition
}

/// The number of position events in `s`.
pub open spec fn position_count(s: Seq<Event>) -> nat
    decreases s.len(),
{
    if s.len() == 0 {
        0
    } else {
        position_count(s.drop_last()) + if is_position_event(s.last()) { 1nat } else { 0nat }
    }
}

/// A geometry processor takes the event: `xy` where it is not
/// multi-dimensional, `coordinate` where it is.
pub open spec fn fits_mode(e: Event, multi_dim: bool) -> bool {
    &&& e.is_geometry()
    &&& multi_dim ==> !(e is Xy)
    &&& !multi_dim ==> !(e is Coordinate)
}

pub open spec fn all_fit(s: Seq<Event>, multi_dim: bool) -> bool {
    forall|i: int| 0 <= i < s.len() ==> fits_mode(#[trigger] s[i], multi_dim)
}

/// The number of positions of the first `n` lines of `ls`.
pub open spec fn lines_positions(ls: Seq<Vec<Position>>, n: nat) -> nat
    decreases n,
{
    if n == 0 {
        0
    } else {
        lines_positions(ls, (n - 1) as nat) + ls[n - 1]@.len()
    }
}

/// The number of positions of the first `n` polygons of `ps`.
pub open spec fn polygons_positions(ps: Seq<Vec<Vec<Position>>>, n: nat) -> nat
    decreases n,
{
    if n == 0 {
        0
    } else {
        polygons_positions(ps, (n - 1) as nat) + lines_positions(ps[n - 1]@, ps[n - 1]@.len())
    }
}

/// The number of positions of a geometry.
pub open spec fn geometry_positions(g: Geometry) -> nat
    decreases g, 0nat,
{
    match g {
        Geometry::Point(_) => 1,
        Geometry::MultiPoint(ps) => ps@.len(),
        Geometry::LineString(ps) => ps@.len(),
        Geometry::MultiLineString(ls) => lines_positions(ls@, ls@.len()),
        Geometry::Polygon(ls) => lines_positions(ls@, ls@.len()),
        Geometry::MultiPolygon(ps) => polygons_positions(ps@, ps@.len()),
        Geometry::GeometryCollection(gs) => members_positions(gs@, gs@.len()),
    }
}

/// The number of positions of the first `n` members of a collection.
pub open spec fn members_positions(gs: Seq<Geometry>, n: nat) -> nat
    decreases gs, n,
{
    if n == 0 || n > gs.len() {
        0
    } else {
        members_positions(gs, (n - 1) as nat) + geometry_positions(gs[n - 1])
    }
}

/// `close` ends what `open` began: the same kind, and the same index and
/// tag where the events carry them.
pub open spec fn closes(open: Event, close: Event) -> bool {
    match (open, close) {
        (Event::PointBegin { idx: a }, Event::PointEnd { idx: b }) => a == b,
        (Event::MultiPointBegin { idx: a, .. }, Event::MultiPointEnd { idx: b }) => a == b,
        (Event::LineStringBegin { tagged: t, idx: a, .. }, Event::LineStringEnd { tagged: u, idx: b }) => t == u && a == b,
        (Event::MultiLineStringBegin { idx: a, .. }, Event::MultiLineStringEnd { idx: b }) => a == b,
        (Event::PolygonBegin { tagged: t, idx: a, .. }, Event::PolygonEnd { tagged: u, idx: b }) => t == u && a == b,
        (Event::MultiPolygonBegin { idx: a, .. }, Event::MultiPolygonEnd { idx: b }) => a == b,
        (Event::GeometryCollectionBegin { idx: a, .. }, Event::GeometryCollectionEnd { idx: b }) => a == b,
        (Event::DatasetBegin { .. }, Event::DatasetEnd) => true,
        (Event::FeatureBegin { idx: a }, Event::FeatureEnd { idx: b }) => a == b,
        (Event::PropertiesBegin, Event::PropertiesEnd) => true,
        (Event::GeometryBegin, Event::GeometryEnd) => true,
        _ => false,
    }
}

/// The stack of open brackets after one more event, or `None` where the
/// event ends something other than what was opened last.
pub open spec fn nesting_step(stack: Seq<Event>, e: Event) -> Option<Seq<Event>> {
    if depth_change(e) == 1 {
        Some(stack.push(e))
    } else if depth_change(e) == -1 {
        if stack.len() > 0 && closes(stack.last(), e) {
            Some(stack.drop_last())
        } else {
            None
        }
    } else {
        Some(stack)
    }
}

/// The stack of open brackets after the events of `s`, starting from `stack`.
pub open spec fn nesting_run(stack: Seq<Event>, s: Seq<Event>) -> Option<Seq<Event>>
    decreases s.len(),
{
    if s.len() == 0 {
        Some(stack)
    } else {
        match nesting_run(stack, s.drop_last()) {
            Some(st) => nesting_step(st, s.last()),
            None => None,
        }
    }
}

/// Every end event in `s` ends the bracket opened last (same kind, index
/// and tag), and every bracket that `s` opens, `s` ends: from any stack of
/// open brackets, `s` leads back to that stack.
pub open spec fn properly_nested(s: Seq<Event>) -> bool {
    forall|stack: Seq<Event>| #[trigger] nesting_run(stack, s) == Some(stack)
}

proof fn lemma_nesting_run_concat(stack: Seq<Event>, a: Seq<Event>, b: Seq<Event>)
    ensures
        nesting_run(stack, a + b) == match nesting_run(stack, a) {
            Some(st) => nesting_run(st, b),
            None => None,
        },
    decreases b.len(),
{
    if b.len() == 0 {
        assert(a + b =~= a);
    } else {
        assert((a + b).drop_last() =~= a + b.drop_last());
        lemma_nesting_run_concat(stack, a, b.drop_last());
    }
}

proof fn lemma_nesting_single(stack: Seq<Event>, e: Event)
    ensures
        nesting_run(stack, seq![e]) == nesting_step(stack, e),
{
    assert(seq![e].drop_last() =~= Seq::<Event>::empty());
    assert(seq![e].last() == e);
    assert(nesting_run(stack, Seq::<Event>::empty()) == Some(stack));
}

proof fn lemma_nested_empty()
    ensures
        properly_nested(Seq::<Event>::empty()),
{
}

proof fn lemma_nested_single(e: Event)
    requires
        depth_change(e) == 0,
    ensures
        properly_nested(seq![e]),
{
    assert forall|stack: Seq<Event>| #[trigger] nesting_run(stack, seq![e]) == Some(stack) by {
        lemma_nesting_single(stack, e);
    }
}

proof fn lemma_nested_concat(a: Seq<Event>, b: Seq<Event>)
    requires
        properly_nested(a),
        properly_nested(b),
    ensures
        properly_nested(a + b),
{
    assert forall|stack: Seq<Event>| #[trigger] nesting_run(stack, a + b) == Some(stack) by {
        lemma_nesting_run_concat(stack, a, b);
        assert(nesting_run(stack, a) == Some(stack));
        assert(nesting_run(stack, b) == Some(stack));
    }
}

proof fn lemma_nested_wrap(open: Event, s: Seq<Event>, close: Event)
    requires
        depth_change(open) == 1,
        depth_change(close) == -1,
        closes(open, close),
        properly_nested(s),
    ensures
        properly_nested(seq![open] + s + seq![close]),
{
    assert forall|stack: Seq<Event>| #[trigger] nesting_run(stack, seq![open] + s + seq![close]) == Some(stack) by {
        lemma_nesting_run_concat(stack, seq![open] + s, seq![close]);
        lemma_nesting_run_concat(stack, seq![open], s);
        lemma_nesting_single(stack, open);
        assert(nesting_run(stack.push(open), s) == Some(stack.push(open)));
        lemma_nesting_single(stack.push(open), close);
        assert(stack.push(open).drop_last() =~= stack);
    }
}

/// The shape of every geometry walk: balanced, fit for the processor's
/// mode, and with `n` position events.
pub open spec fn geometry_stream(s: Seq<Event>, multi_dim: bool, n: nat) -> bool {
    &&& balanced(s)
    &&& properly_nested(s)
    &&& all_fit(s, multi_dim)
    &&& position_count(s) == n
}

proof fn lemma_depth_concat(a: Seq<Event>, b: Seq<Event>)
    ensures
        depth(a + b) == depth(a) + depth(b),
    decreases b.len(),
{
    if b.len() == 0 {
        assert(a + b =~= a);
    } else {
        assert((a + b).drop_last() =~= a + b.drop_last());
        lemma_depth_concat(a, b.drop_last());
    }
}

proof fn lemma_position_count_concat(a: Seq<Event>, b: Seq<Event>)
    ensures
        position_count(a + b) == position_count(a) + position_count(b),
    decreases b.len(),
{
    if b.len() == 0 {
        assert(a + b =~= a);
    } else {
        assert((a + b).drop_last() =~= a + b.drop_last());
        lemma_position_count_concat(a, b.drop_last());
    }
}

proof fn lemma_single(e: Event)
    ensures
        depth(seq![e]) == depth_change(e),
        position_count(seq![e]) == if is_position_event(e) { 1nat } else { 0nat },
        depth(seq![e].take(0)) == 0,
        seq![e].take(1) == seq![e],
{
    let s = seq![e];
    assert(s.drop_last() =~= Seq::<Event>::empty());
    assert(depth(Seq::<Event>::empty()) == 0);
    assert(position_count(Seq::<Event>::empty()) == 0);
    assert(s.last() == e);
    assert(s.take(0) =~= Seq::<Event>::empty());
    assert(s.take(1) =~= s);
}

proof fn lemma_balanced_concat(a: Seq<Event>, b: Seq<Event>)
    requires
        balanced(a),
        balanced(b),
        properly_nested(a),
        properly_nested(b),
    ensures
        balanced(a + b),
        properly_nested(a + b),
{
    lemma_nested_concat(a, b);
    lemma_depth_concat(a, b);
    assert forall|i: int| 0 <= i <= (a + b).len() implies #[trigger] depth((a + b).take(i)) >= 0 by {
        if i <= a.len() {
            assert((a + b).take(i) =~= a.take(i));
        } else {
            assert((a + b).take(i) =~= a + b.take(i - a.len()));
            lemma_depth_concat(a, b.take(i - a.len()));
            assert(depth(b.take(i - a.len())) >= 0);
        }
    }
}

proof fn lemma_balanced_wrap(open: Event, s: Seq<Event>, close: Event)
    requires
        depth_change(open) == 1,
        depth_change(close) == -1,
        closes(open, close),
        balanced(s),
        properly_nested(s),
    ensures
        balanced(seq![open] + s + seq![close]),
        properly_nested(seq![open] + s + seq![close]),
{
    lemma_nested_wrap(open, s, close);
    let w = seq![open] + s + seq![close];
    lemma_single(open);
    lemma_single(close);
    lemma_depth_concat(seq![open], s);
    lemma_depth_concat(seq![open] + s, seq![close]);
    assert forall|i: int| 0 <= i <= w.len() implies #[trigger] depth(w.take(i)) >= 0 by {
        if i == 0 {
            assert(w.take(i) =~= Seq::<Event>::empty());
        } else if i <= s.len() + 1 {
            assert(w.take(i) =~= seq![open] + s.take(i - 1));
            lemma_depth_concat(seq![open], s.take(i - 1));
            assert(depth(s.take(i - 1)) >= 0);
        } else {
            assert(w.take(i) =~= w);
        }
    }
}

proof fn lemma_stream_empty(multi_dim: bool)
    ensures
        geometry_stream(Seq::<Event>::empty(), multi_dim, 0),
{
    assert(Seq::<Event>::empty().take(0) =~= Seq::<Event>::empty());
    lemma_nested_empty();
}

proof fn lemma_stream_concat(a: Seq<Event>, b: Seq<Event>, multi_dim: bool, x: nat, y: nat)
    requires
        geometry_stream(a, multi_dim, x),
        geometry_stream(b, multi_dim, y),
    ensures
        geometry_stream(a + b, multi_dim, x + y),
{
    lemma_balanced_concat(a, b);
    lemma_nested_concat(a, b);
    lemma_position_count_concat(a, b);
    assert forall|i: int| 0 <= i < (a + b).len() implies fits_mode(#[trigger] (a + b)[i], multi_dim) by {
        if i < a.len() {
            assert((a + b)[i] == a[i]);
        } else {
            assert((a + b)[i] == b[i - a.len()]);
        }
    }
}

proof fn lemma_stream_wrap(open: Event, s: Seq<Event>, close: Event, multi_dim: bool, n: nat)
    requires
        depth_change(open) == 1,
        depth_change(close) == -1,
        closes(open, close),
        fits_mode(open, multi_dim),
        fits_mode(close, multi_dim),
        geometry_stream(s, multi_dim, n),
    ensures
        geometry_stream(seq![open] + s + seq![close], multi_dim, n),
{
    lemma_balanced_wrap(open, s, close);
    lemma_nested_wrap(open, s, close);
    lemma_single(open);
    lemma_single(close);
    lemma_position_count_concat(seq![open], s);
    lemma_position_count_concat(seq![open] + s, seq![close]);
    let w = seq![open] + s + seq![close];
    assert forall|i: int| 0 <= i < w.len() implies fits_mode(#[trigger] w[i], multi_dim) by {
        if 1 <= i <= s.len() {
            assert(w[i] == s[i - 1]);
        }
    }
}

proof fn lemma_coord_stream(p: Seq<u64>, idx: usize, multi_dim: bool)
    ensures
        geometry_stream(coord_events(p, idx, multi_dim), multi_dim, 1),
{
    let s = coord_events(p, idx, multi_dim);
    lemma_single(s[0]);
    lemma_nested_single(s[0]);
    assert(s =~= seq![s[0]]);
}

proof fn lemma_positions_stream(ps: Seq<Position>, n: nat, multi_dim: bool)
    ensures
        geometry_stream(positions_events(ps, n, multi_dim), multi_dim, n),
    decreases n,
{
    if n == 0 {
        lemma_stream_empty(multi_dim);
    } else {
        lemma_positions_stream(ps, (n - 1) as nat, multi_dim);
        lemma_coord_stream(ps[n - 1]@, (n - 1) as usize, multi_dim);
        lemma_stream_concat(
            positions_events(ps, (n - 1) as nat, multi_dim),
            coord_events(ps[n - 1]@, (n - 1) as usize, multi_dim),
            multi_dim,
            (n - 1) as nat,
            1,
        );
    }
}

proof fn lemma_linestring_stream(ps: Seq<Position>, tagged: bool, idx: usize, multi_dim: bool)
    ensures
        geometry_stream(linestring_events(ps, tagged, idx, multi_dim), multi_dim, ps.len()),
{
    lemma_positions_stream(ps, ps.len(), multi_dim);
    lemma_stream_wrap(
        Event::LineStringBegin { tagged, size: ps.len() as usize, idx },
        positions_events(ps, ps.len(), multi_dim),
        Event::LineStringEnd { tagged, idx },
        multi_dim,
        ps.len(),
    );
}

proof fn lemma_lines_stream(ls: Seq<Vec<Position>>, n: nat, multi_dim: bool)
    ensures
        geometry_stream(lines_events(ls, n, multi_dim), multi_dim, lines_positions(ls, n)),
    decreases n,
{
    if n == 0 {
        lemma_stream_empty(multi_dim);
    } else {
        lemma_lines_stream(ls, (n - 1) as nat, multi_dim);
        lemma_linestring_stream(ls[n - 1]@, false, (n - 1) as usize, multi_dim);
        lemma_stream_concat(
            lines_events(ls, (n - 1) as nat, multi_dim),
            linestring_events(ls[n - 1]@, false, (n - 1) as usize, multi_dim),
            multi_dim,
            lines_positions(ls, (n - 1) as nat),
            ls[n - 1]@.len(),
        );
    }
}

proof fn lemma_polygon_stream(rings: Seq<Vec<Position>>, tagged: bool, idx: usize, multi_dim: bool)
    ensures
        geometry_stream(polygon_events(rings, tagged, idx, multi_dim), multi_dim, lines_positions(rings, rings.len())),
{
    lemma_lines_stream(rings, rings.len(), multi_dim);
    lemma_stream_wrap(
        Event::PolygonBegin { tagged, size: rings.len() as usize, idx },
        lines_events(rings, rings.len(), multi_dim),
        Event::PolygonEnd { tagged, idx },
        multi_dim,
        lines_positions(rings, rings.len()),
    );
}

proof fn lemma_polygons_stream(ps: Seq<Vec<Vec<Position>>>, n: nat, multi_dim: bool)
    ensures
        geometry_stream(polygons_events(ps, n, multi_dim), multi_dim, polygons_positions(ps, n)),
    decreases n,
{
    if n == 0 {
        lemma_stream_empty(multi_dim);
    } else {
        lemma_polygons_stream(ps, (n - 1) as nat, multi_dim);
        lemma_polygon_stream(ps[n - 1]@, false, (n - 1) as usize, multi_dim);
        lemma_stream_concat(
            polygons_events(ps, (n - 1) as nat, multi_dim),
            polygon_events(ps[n - 1]@, false, (n - 1) as usize, multi_dim),
            multi_dim,
            polygons_positions(ps, (n - 1) as nat),
            lines_positions(ps[n - 1]@, ps[n - 1]@.len()),
        );
    }
}

proof fn lemma_geometry_stream(g: Geometry, idx: usize, multi_dim: bool)
    ensures
        geometry_stream(geometry_events(g, idx, multi_dim), multi_dim, geometry_positions(g)),
    decreases g, 0nat,
{
    match g {
        Geometry::Point(p) => {
            lemma_coord_stream(p@, 0, multi_dim);
            lemma_stream_wrap(
                Event::PointBegin { idx },
                coord_events(p@, 0, multi_dim),
                Event::PointEnd { idx },
                multi_dim,
                1,
            );
        },
        Geometry::MultiPoint(ps) => {
            lemma_positions_stream(ps@, ps@.len(), multi_dim);
            lemma_stream_wrap(
                Event::MultiPointBegin { size: ps@.len() as usize, idx },
                positions_events(ps@, ps@.len(), multi_dim),
                Event::MultiPointEnd { idx },
                multi_dim,
                ps@.len(),
            );
        },
        Geometry::LineString(ps) => {
            lemma_linestring_stream(ps@, true, idx, multi_dim);
        },
        Geometry::MultiLineString(ls) => {
            lemma_lines_stream(ls@, ls@.len(), multi_dim);
            lemma_stream_wrap(
                Event::MultiLineStringBegin { size: ls@.len() as usize, idx },
                lines_events(ls@, ls@.len(), multi_dim),
                Event::MultiLineStringEnd { idx },
                multi_dim,
                lines_positions(ls@, ls@.len()),
            );
        },
        Geometry::Polygon(rings) => {
            lemma_polygon_stream(rings@, true, idx, multi_dim);
        },
        Geometry::MultiPolygon(ps) => {
            lemma_polygons_stream(ps@, ps@.len(), multi_dim);
            lemma_stream_wrap(
                Event::MultiPolygonBegin { size: ps@.len() as usize, idx },
                polygons_events(ps@, ps@.len(), multi_dim),
                Event::MultiPolygonEnd { idx },
                multi_dim,
                polygons_positions(ps@, ps@.len()),
            );
        },
        Geometry::GeometryCollection(gs) => {
            lemma_members_stream(gs@, gs@.len(), multi_dim);
            lemma_stream_wrap(
                Event::GeometryCollectionBegin { size: gs@.len() as usize, idx },
                members_events(gs@, gs@.len(), multi_dim),
                Event::GeometryCollectionEnd { idx },
                multi_dim,
                members_positions(gs@, gs@.len()),
            );
        },
    }
}

proof fn lemma_members_stream(gs: Seq<Geometry>, n: nat, multi_dim: bool)
    ensures
        geometry_stream(members_events(gs, n, multi_dim), multi_dim, members_positions(gs, n)),
    decreases gs, n,
{
    if n == 0 || n > gs.len() {
        lemma_stream_empty(multi_dim);
    } else {
        lemma_members_stream(gs, (n - 1) as nat, multi_dim);
        lemma_geometry_stream(gs[n - 1], (n - 1) as usize, multi_dim);
        lemma_stream_concat(
            members_events(gs, (n - 1) as nat, multi_dim),
            geometry_events(gs[n - 1], (n - 1) as usize, multi_dim),
            multi_dim,
            members_positions(gs, (n - 1) as nat),
            geometry_positions(gs[n - 1]),
        );
    }
}

/// Walking a geometry hands on properly nested begin and end events (each
/// end closes the bracket opened last, of the same kind, index and tag),
/// only events that a geometry processor takes (`xy` alone where the
/// processor is not multi-dimensional, `coordinate` alone where it is), and
/// exactly one position event for each position of the geometry.
pub proof fn law_geometry_walk(g: Geometry, idx: usize, multi_dim: bool)
    ensures
        balanced(geometry_events(g, idx, multi_dim)),
        properly_nested(geometry_events(g, idx, multi_dim)),
        all_fit(geometry_events(g, idx, multi_dim), multi_dim),
        position_count(geometry_events(g, idx, multi_dim)) == geometry_positions(g),
{
    lemma_geometry_stream(g, idx, multi_dim);
}

/// The geometry events of `s`, in their order.
pub open spec fn geometry_part(s: Seq<Event>) -> Seq<Event>
    decreases s.len(),
{
    if s.len() == 0 {
        seq![]
    } else {
        geometry_part(s.drop_last()) + if s.last().is_geometry() { seq![s.last()] } else { seq![] }
    }
}

proof fn lemma_geometry_part_concat(a: Seq<Event>, b: Seq<Event>)
    ensures
        geometry_part(a + b) == geometry_part(a) + geometry_part(b),
    decreases b.len(),
{
    if b.len() == 0 {
        assert(a + b =~= a);
        assert(geometry_part(a) + geometry_part(b) =~= geometry_part(a));
    } else {
        assert((a + b).drop_last() =~= a + b.drop_last());
        lemma_geometry_part_concat(a, b.drop_last());
        assert(geometry_part(a + b) =~= geometry_part(a) + geometry_part(b));
    }
}

proof fn lemma_geometry_part_single(e: Event)
    ensures
        geometry_part(seq![e]) == if e.is_geometry() { seq![e] } else { Seq::<Event>::empty() },
{
    assert(seq![e].drop_last() =~= Seq::<Event>::empty());
    assert(geometry_part(Seq::<Event>::empty()) == Seq::<Event>::empty());
    assert(seq![e].last() == e);
    assert(Seq::<Event>::empty() + seq![e] =~= seq![e]);
    assert(Seq::<Event>::empty() + Seq::<Event>::empty() =~= Seq::<Event>::empty());
}

proof fn lemma_geometry_part_of_geometry(s: Seq<Event>, multi_dim: bool)
    requires
        all_fit(s, multi_dim),
    ensures
        geometry_part(s) == s,
    decreases s.len(),
{
    if s.len() > 0 {
        assert(fits_mode(s[s.len() - 1], multi_dim));
        assert(all_fit(s.drop_last(), multi_dim)) by {
            assert forall|i: int| 0 <= i < s.drop_last().len() implies fits_mode(#[trigger] s.drop_last()[i], multi_dim) by {
                assert(s.drop_last()[i] == s[i]);
            }
        }
        lemma_geometry_part_of_geometry(s.drop_last(), multi_dim);
        assert(s.drop_last() + seq![s.last()] =~= s);
    }
}

proof fn lemma_properties_part(ps: Seq<(String, PropertyValue)>, n: nat)
    ensures
        geometry_part(properties_events(ps, n)) == Seq::<Event>::empty(),
        balanced(properties_events(ps, n)),
        properly_nested(properties_events(ps, n)),
    decreases n,
{
    if n == 0 {
        lemma_balanced_empty();
        assert(geometry_part(Seq::<Event>::empty()) == Seq::<Event>::empty());
    } else {
        lemma_properties_part(ps, (n - 1) as nat);
        let e = Event::Property { idx: (n - 1) as usize, name: ps[n - 1].0, value: crate::events::column_value_of(ps[n - 1].1) };
        lemma_geometry_part_single(e);
        lemma_geometry_part_concat(properties_events(ps, (n - 1) as nat), seq![e]);
        lemma_balanced_single(e);
        lemma_balanced_concat(properties_events(ps, (n - 1) as nat), seq![e]);
        assert(Seq::<Event>::empty() + Seq::<Event>::empty() =~= Seq::<Event>::empty());
    }
}

proof fn lemma_balanced_empty()
    ensures
        balanced(Seq::<Event>::empty()),
        properly_nested(Seq::<Event>::empty()),
{
    lemma_nested_empty();
    assert(Seq::<Event>::empty().take(0) =~= Seq::<Event>::empty());
}

proof fn lemma_balanced_single(e: Event)
    requires
        depth_change(e) == 0,
    ensures
        balanced(seq![e]),
        properly_nested(seq![e]),
{
    lemma_nested_single(e);
    lemma_single(e);
    assert forall|i: int| 0 <= i <= seq![e].len() implies #[trigger] depth(seq![e].take(i)) >= 0 by {
        if i == 1 {
            assert(seq![e].take(i) == seq![e]);
        }
    }
}

/// The events inside a feature are balanced, and their geometry events are
/// those of the feature's geometry, if it has one.
proof fn lemma_feature_body(f: Feature, idx: usize, multi_dim: bool)
    ensures
        balanced(feature_body_events(f, idx, multi_dim)),
        properly_nested(feature_body_events(f, idx, multi_dim)),
        geometry_part(feature_body_events(f, idx, multi_dim)) == match f.geometry {
            Some(g) => geometry_events(g, idx, multi_dim),
            None => Seq::<Event>::empty(),
        },
{
    let props = match f.properties {
        Some(ps) => seq![Event::PropertiesBegin] + properties_events(ps@, ps@.len())
            + seq![Event::PropertiesEnd],
        None => Seq::<Event>::empty(),
    };
    let geom = match f.geometry {
        Some(g) => seq![Event::GeometryBegin] + geometry_events(g, idx, multi_dim)
            + seq![Event::GeometryEnd],
        None => Seq::<Event>::empty(),
    };
    assert(feature_body_events(f, idx, multi_dim) == props + geom);
    lemma_geometry_part_single(Event::PropertiesBegin);
    lemma_geometry_part_single(Event::PropertiesEnd);
    lemma_geometry_part_single(Event::GeometryBegin);
    lemma_geometry_part_single(Event::GeometryEnd);
    match f.properties {
        Some(ps) => {
            lemma_properties_part(ps@, ps@.len());
            lemma_balanced_wrap(Event::PropertiesBegin, properties_events(ps@, ps@.len()), Event::PropertiesEnd);
            lemma_geometry_part_concat(seq![Event::PropertiesBegin], properties_events(ps@, ps@.len()));
            lemma_geometry_part_concat(seq![Event::PropertiesBegin] + properties_events(ps@, ps@.len()), seq![Event::PropertiesEnd]);
            assert(geometry_part(props) =~= Seq::<Event>::empty());
        },
        None => {
            lemma_balanced_empty();
            assert(geometry_part(props) == Seq::<Event>::empty());
        },
    }
    match f.geometry {
        Some(g) => {
            lemma_geometry_stream(g, idx, multi_dim);
            lemma_geometry_part_of_geometry(geometry_events(g, idx, multi_dim), multi_dim);
            lemma_balanced_wrap(Event::GeometryBegin, geometry_events(g, idx, multi_dim), Event::GeometryEnd);
            lemma_geometry_part_concat(seq![Event::GeometryBegin], geometry_events(g, idx, multi_dim));
            lemma_geometry_part_concat(seq![Event::GeometryBegin] + geometry_events(g, idx, multi_dim), seq![Event::GeometryEnd]);
            assert(geometry_part(geom) =~= geometry_events(g, idx, multi_dim));
        },
        None => {
            lemma_balanced_empty();
            assert(geometry_part(geom) == Seq::<Event>::empty());
        },
    }
    lemma_balanced_concat(props, geom);
    lemma_geometry_part_concat(props, geom);
    assert(geometry_part(props) + geometry_part(geom) =~= geometry_part(geom));
}

proof fn lemma_feature(f: Feature, idx: usize, multi_dim: bool)
    ensures
        balanced(feature_events(f, idx, multi_dim)),
        properly_nested(feature_events(f, idx, multi_dim)),
        geometry_part(feature_events(f, idx, multi_dim)) == match f.geometry {
            Some(g) => geometry_events(g, idx, multi_dim),
            None => Seq::<Event>::empty(),
        },
{
    let b = feature_body_events(f, idx, multi_dim);
    let open = Event::FeatureBegin { idx: idx as u64 };
    let close = Event::FeatureEnd { idx: idx as u64 };
    lemma_feature_body(f, idx, multi_dim);
    lemma_balanced_wrap(open, b, close);
    lemma_geometry_part_single(open);
    lemma_geometry_part_single(close);
    lemma_geometry_part_concat(seq![open], b);
    lemma_geometry_part_concat(seq![open] + b, seq![close]);
    assert(geometry_part(feature_events(f, idx, multi_dim)) =~= geometry_part(b));
}

proof fn lemma_features(fs: Seq<Feature>, n: nat, multi_dim: bool)
    requires
        n <= fs.len(),
        forall|i: int| 0 <= i < n ==> (#[trigger] fs[i]).geometry is Some,
    ensures
        balanced(features_events(fs, n, multi_dim)),
        properly_nested(features_events(fs, n, multi_dim)),
        geometry_part(features_events(fs, n, multi_dim)) == collection_geom_events(fs, n, multi_dim),
        count_geometries(fs, n) == n,
    decreases n,
{
    if n == 0 {
        lemma_balanced_empty();
        assert(geometry_part(Seq::<Event>::empty()) == Seq::<Event>::empty());
    } else {
        lemma_features(fs, (n - 1) as nat, multi_dim);
        assert(fs[n - 1].geometry is Some);
        lemma_feature(fs[n - 1], (n - 1) as usize, multi_dim);
        lemma_balanced_concat(features_events(fs, (n - 1) as nat, multi_dim), feature_events(fs[n - 1], (n - 1) as usize, multi_dim));
        lemma_geometry_part_concat(features_events(fs, (n - 1) as nat, multi_dim), feature_events(fs[n - 1], (n - 1) as usize, multi_dim));
    }
}

proof fn lemma_features_balanced(fs: Seq<Feature>, n: nat, multi_dim: bool)
    ensures
        balanced(features_events(fs, n, multi_dim)),
        properly_nested(features_events(fs, n, multi_dim)),
    decreases n,
{
    if n == 0 {
        lemma_balanced_empty();
    } else {
        lemma_features_balanced(fs, (n - 1) as nat, multi_dim);
        lemma_feature(fs[n - 1], (n - 1) as usize, multi_dim);
        lemma_balanced_concat(features_events(fs, (n - 1) as nat, multi_dim), feature_events(fs[n - 1], (n - 1) as usize, multi_dim));
    }
}

proof fn lemma_collection_geom(fs: Seq<Feature>, n: nat, multi_dim: bool)
    ensures
        geometry_stream(collection_geom_events(fs, n, multi_dim), multi_dim, position_count(collection_geom_events(fs, n, multi_dim))),
    decreases n,
{
    if n == 0 {
        lemma_stream_empty(multi_dim);
    } else {
        lemma_collection_geom(fs, (n - 1) as nat, multi_dim);
        let prev = collection_geom_events(fs, (n - 1) as nat, multi_dim);
        let p = position_count(prev);
        match fs[n - 1].geometry {
            Some(g) => {
                let k = count_geometries(fs, (n - 1) as nat) as usize;
                lemma_geometry_stream(g, k, multi_dim);
                lemma_stream_concat(prev, geometry_events(g, k, multi_dim), multi_dim, p, geometry_positions(g));
            },
            None => {
                assert(prev + Seq::<Event>::empty() =~= prev);
            },
        }
    }
}

/// Walking a document for a feature processor hands on balanced and
/// properly nested begin and end events (datasets, features, properties,
/// geometries and the parts of geometries): each end closes the bracket
/// opened last, of the same kind, index and tag.
pub proof fn law_document_walk_balanced(doc: Document, multi_dim: bool)
    ensures
        balanced(document_events(doc, multi_dim)),
        properly_nested(document_events(doc, multi_dim)),
{
    match doc {
        Document::FeatureCollection(fs) => {
            lemma_features_balanced(fs@, fs@.len(), multi_dim);
            lemma_balanced_wrap(Event::DatasetBegin { name: None }, features_events(fs@, fs@.len(), multi_dim), Event::DatasetEnd);
        },
        Document::Feature(f) => {
            let inner = if f.geometry is Some || f.properties is Some {
                feature_events(f, 0, multi_dim)
            } else {
                Seq::<Event>::empty()
            };
            lemma_feature(f, 0, multi_dim);
            lemma_balanced_empty();
            lemma_balanced_wrap(Event::DatasetBegin { name: None }, inner, Event::DatasetEnd);
        },
        Document::Geometry(g) => {
            lemma_geometry_stream(g, 0, multi_dim);
        },
    }
}

/// Walking a document for a geometry processor hands on properly nested
/// begin and end events, and only events that a geometry processor of the
/// given mode takes.
pub proof fn law_document_geom_walk(doc: Document, multi_dim: bool)
    ensures
        balanced(document_geom_events(doc, multi_dim)),
        properly_nested(document_geom_events(doc, multi_dim)),
        all_fit(document_geom_events(doc, multi_dim), multi_dim),
{
    match doc {
        Document::FeatureCollection(fs) => {
            lemma_collection_geom(fs@, fs@.len(), multi_dim);
        },
        Document::Feature(f) => {
            match f.geometry {
                Some(g) => lemma_geometry_stream(g, 0, multi_dim),
                None => lemma_stream_empty(multi_dim),
            }
        },
        Document::Geometry(g) => {
            lemma_geometry_stream(g, 0, multi_dim);
        },
    }
}

/// A geometry processor receives the geometry events that a feature
/// processor receives, in the same order, wherever the indices agree: for a
/// single feature or a bare geometry always, for a feature collection when
/// every feature carries a geometry (else the geometry-only walk numbers the
/// geometries by their place among those present).
pub proof fn law_geometry_walk_is_projection(doc: Document, multi_dim: bool)
    requires
        doc matches Document::FeatureCollection(fs) ==> forall|i: int|
            0 <= i < fs@.len() ==> (#[trigger] fs@[i]).geometry is Some,
    ensures
        geometry_part(document_events(doc, multi_dim)) == document_geom_events(doc, multi_dim),
{
    lemma_geometry_part_single(Event::DatasetBegin { name: None });
    lemma_geometry_part_single(Event::DatasetEnd);
    match doc {
        Document::FeatureCollection(fs) => {
            let body = features_events(fs@, fs@.len(), multi_dim);
            lemma_features(fs@, fs@.len(), multi_dim);
            lemma_geometry_part_concat(seq![Event::DatasetBegin { name: None }], body);
            lemma_geometry_part_concat(seq![Event::DatasetBegin { name: None }] + body, seq![Event::DatasetEnd]);
            assert(geometry_part(document_events(doc, multi_dim)) =~= geometry_part(body));
        },
        Document::Feature(f) => {
            let inner = if f.geometry is Some || f.properties is Some {
                feature_events(f, 0, multi_dim)
            } else {
                Seq::<Event>::empty()
            };
            lemma_feature(f, 0, multi_dim);
            assert(geometry_part(Seq::<Event>::empty()) == Seq::<Event>::empty());
            lemma_geometry_part_concat(seq![Event::DatasetBegin { name: None }], inner);
            lemma_geometry_part_concat(seq![Event::DatasetBegin { name: None }] + inner, seq![Event::DatasetEnd]);
            assert(geometry_part(document_events(doc, multi_dim)) =~= geometry_part(inner));
        },
        Document::Geometry(g) => {
            lemma_geometry_stream(g, 0, multi_dim);
            lemma_geometry_part_of_geometry(geometry_events(g, 0, multi_dim), multi_dim);
        },
    }
}


/// The event that opens the walk of a geometry with index `idx`: its kind,
/// the index, the tag of a single line string or polygon, and the length of
/// its list of parts.
pub open spec fn begin_of(g: Geometry, idx: usize) -> Event {
    match g {
        Geometry::Point(_) => Event::PointBegin { idx },
        Geometry::MultiPoint(ps) => Event::MultiPointBegin { size: ps@.len() as usize, idx },
        Geometry::LineString(ps) => Event::LineStringBegin { tagged: true, size: ps@.len() as usize, idx },
        Geometry::MultiLineString(ls) => Event::MultiLineStringBegin { size: ls@.len() as usize, idx },
        Geometry::Polygon(rings) => Event::PolygonBegin { tagged: true, size: rings@.len() as usize, idx },
        Geometry::MultiPolygon(ps) => Event::MultiPolygonBegin { size: ps@.len() as usize, idx },
        Geometry::GeometryCollection(gs) => Event::GeometryCollectionBegin { size: gs@.len() as usize, idx },
    }
}

/// The walk of a geometry opens with the begin event of its kind, carrying
/// the given index and the length of its list of parts, and closes with the
/// matching end event.
pub proof fn law_geometry_head(g: Geometry, idx: usize, multi_dim: bool)
    ensures
        geometry_events(g, idx, multi_dim).len() >= 2,
        geometry_events(g, idx, multi_dim)[0] == begin_of(g, idx),
        closes(geometry_events(g, idx, multi_dim)[0], geometry_events(g, idx, multi_dim).last()),
{
}

/// Two documents whose features (or single feature, or bare geometry) carry
/// the same geometries in the same places, whatever their properties.
pub open spec fn same_geometries(a: Document, b: Document) -> bool {
    match (a, b) {
        (Document::FeatureCollection(fa), Document::FeatureCollection(fb)) => {
            &&& fa@.len() == fb@.len()
            &&& forall|i: int| 0 <= i < fa@.len() ==> (#[trigger] fa@[i]).geometry == fb@[i].geometry
        },
        (Document::Feature(x), Document::Feature(y)) => x.geometry == y.geometry,
        (Document::Geometry(x), Document::Geometry(y)) => x == y,
        _ => false,
    }
}

proof fn lemma_collection_same_geometries(fa: Seq<Feature>, fb: Seq<Feature>, n: nat, multi_dim: bool)
    requires
        n <= fa.len(),
        fa.len() == fb.len(),
        forall|i: int| 0 <= i < fa.len() ==> (#[trigger] fa[i]).geometry == fb[i].geometry,
    ensures
        count_geometries(fa, n) == count_geometries(fb, n),
        collection_geom_events(fa, n, multi_dim) == collection_geom_events(fb, n, multi_dim),
    decreases n,
{
    if n > 0 {
        lemma_collection_same_geometries(fa, fb, (n - 1) as nat, multi_dim);
        assert(fa[n - 1].geometry == fb[n - 1].geometry);
    }
}

/// Properties never influence the geometry-only walk: documents that carry
/// the same geometries in the same places give the same geometry events.
pub proof fn law_geometry_walk_ignores_properties(a: Document, b: Document, multi_dim: bool)
    requires
        same_geometries(a, b),
    ensures
        document_geom_events(a, multi_dim) == document_geom_events(b, multi_dim),
{
    match (a, b) {
        (Document::FeatureCollection(fa), Document::FeatureCollection(fb)) => {
            lemma_collection_same_geometries(fa@, fb@, fa@.len(), multi_dim);
        },
        _ => {},
    }
}

/// Two processors answer alike in a run: wherever both received the same
/// event at the same place of the run, they gave the same answer.
pub open spec fn answer_alike(
    run1: Seq<(Event, Result<(), GeozeroError>)>,
    run2: Seq<(Event, Result<(), GeozeroError>)>,
) -> bool {
    forall|i: int|
        0 <= i < run1.len() && 0 <= i < run2.len() && (#[trigger] run1[i]).0 == (#[trigger] run2[i]).0
            ==> run1[i].1 == run2[i].1
}

/// The calls of a run, and where it stopped: `len` of them answered `Ok`
/// (all events, or the events before the stop).
proof fn lemma_run_shape(
    before: Seq<(Event, Result<(), GeozeroError>)>,
    after: Seq<(Event, Result<(), GeozeroError>)>,
    events: Seq<Event>,
    r: Result<(), GeozeroError>,
) -> (k: int)
    requires
        delivered(before, after, events, r),
    ensures
        0 <= k <= events.len(),
        r is Ok <==> k == events.len(),
        no_short(events.take(k)),
        after.len() >= before.len(),
        forall|i: int| 0 <= i < k ==> #[trigger] after.skip(before.len() as int)[i] == (events[i], Ok::<(), GeozeroError>(())),
        r is Err ==> (if events[k] is ShortPosition {
            after.skip(before.len() as int).len() == k && is_short_position_error(r->Err_0)
        } else {
            after.skip(before.len() as int).len() == k + 1 && after.skip(before.len() as int)[k] == (events[k], r)
        }),
        r is Ok ==> after.skip(before.len() as int).len() == k,
{
    match r {
        Ok(_) => {
            assert(events.take(events.len() as int) =~= events);
            assert(after.skip(before.len() as int) =~= answered(events));
            events.len() as int
        },
        Err(_) => {
            let k = choose|k: int| #[trigger] stopped_at(before, after, events, k, r);
            if events[k] is ShortPosition {
                assert(after.skip(before.len() as int) =~= answered(events.take(k)));
            } else {
                assert(after.skip(before.len() as int) =~= answered(events.take(k)) + seq![(events[k], r)]);
            }
            k
        },
    }
}

/// Two deliveries of the same events to processors that answer alike hand
/// on the same calls and end alike: with the same result, or both at the
/// same position of fewer than two values with the short-position error.
pub proof fn law_delivery_answers_alike(
    before1: Seq<(Event, Result<(), GeozeroError>)>,
    after1: Seq<(Event, Result<(), GeozeroError>)>,
    r1: Result<(), GeozeroError>,
    before2: Seq<(Event, Result<(), GeozeroError>)>,
    after2: Seq<(Event, Result<(), GeozeroError>)>,
    r2: Result<(), GeozeroError>,
    events: Seq<Event>,
)
    requires
        delivered(before1, after1, events, r1),
        delivered(before2, after2, events, r2),
        answer_alike(after1.skip(before1.len() as int), after2.skip(before2.len() as int)),
    ensures
        after1.skip(before1.len() as int) == after2.skip(before2.len() as int),
        r1 is Ok <==> r2 is Ok,
        r1 is Err ==> r1 == r2 || (is_short_position_error(r1->Err_0) && is_short_position_error(r2->Err_0)),
{
    let run1 = after1.skip(before1.len() as int);
    let run2 = after2.skip(before2.len() as int);
    let k1 = lemma_run_shape(before1, after1, events, r1);
    let k2 = lemma_run_shape(before2, after2, events, r2);
    if k1 < k2 {
        // run 1 stopped at event k1, which run 2 passed with Ok
        assert(events.take(k2)[k1] == events[k1]);
        assert(!(events[k1] is ShortPosition));
        assert(run2[k1] == (events[k1], Ok::<(), GeozeroError>(())));
        assert(run1[k1].0 == run2[k1].0);
        assert(false);
    }
    if k2 < k1 {
        assert(events.take(k1)[k2] == events[k2]);
        assert(!(events[k2] is ShortPosition));
        assert(run1[k2] == (events[k2], Ok::<(), GeozeroError>(())));
        assert(run1[k2].0 == run2[k2].0);
        assert(false);
    }
    if r1 is Err && !(events[k1] is ShortPosition) {
        assert(run1[k1].0 == run2[k1].0);
    }
    assert(run1 =~= run2);
}

/// Two results end alike: the same result, or geometry errors with the same
/// message.
pub open spec fn end_alike(r1: Result<(), GeozeroError>, r2: Result<(), GeozeroError>) -> bool {
    ||| r1 == r2
    ||| (r1 matches Err(GeozeroError::Geometry(s1)) && r2 matches Err(GeozeroError::Geometry(s2)) && s1@ == s2@)
}

/// Reading the same text twice, with processors of the same mode that
/// answer alike (as `GeoJson::process` or `read_geojson` does), hands on the
/// same calls and ends alike; the text itself is not used up.
pub proof fn law_read_answers_alike(
    text: Seq<char>,
    parsed: Result<Document, Seq<char>>,
    events: Seq<Event>,
    before1: Seq<(Event, Result<(), GeozeroError>)>,
    after1: Seq<(Event, Result<(), GeozeroError>)>,
    r1: Result<(), GeozeroError>,
    before2: Seq<(Event, Result<(), GeozeroError>)>,
    after2: Seq<(Event, Result<(), GeozeroError>)>,
    r2: Result<(), GeozeroError>,
)
    requires
        read_outcome(text, before1, after1, r1, events, parsed),
        read_outcome(text, before2, after2, r2, events, parsed),
        answer_alike(after1.skip(before1.len() as int), after2.skip(before2.len() as int)),
    ensures
        after1.skip(before1.len() as int) == after2.skip(before2.len() as int),
        end_alike(r1, r2),
{
    match parsed {
        Err(_) => {
            assert(after1.skip(before1.len() as int) =~= Seq::<(Event, Result<(), GeozeroError>)>::empty());
            assert(after2.skip(before2.len() as int) =~= Seq::<(Event, Result<(), GeozeroError>)>::empty());
        },
        Ok(_) => {
            law_delivery_answers_alike(before1, after1, r1, before2, after2, r2, events);
            if r1 is Ok {
                // both runs end with the one value of `Ok`
                let (u1, u2) = (r1->Ok_0, r2->Ok_0);
                assert(u1 == u2);
            }
        },
    }
}

} // verus!
