//! The shape of a geometry walk: where its positions stand, how many
//! children each bracket gets, and which values it hands on, in order.
use vstd::prelude::*;
use crate::events::{
    Event, coord_events, positions_events, point_events, multi_point_events, linestring_events,
    lines_events, multilinestring_events, polygon_events, polygons_events, multi_polygon_events,
    geometry_events, members_events, count_geometries, collection_geom_events, document_geom_events,
};
use crate::laws::{closes, depth_change, is_position_event};
use crate::model::{Document, Feature, Geometry, Position};

verus! {

/// The number of direct children that the bracket begun by `open`
/// announces: one position for a point, its `size` for the others.
pub open spec fn announced(open: Event) -> Option<nat> {
    match open {
        Event::PointBegin { .. } => Some(1),
        Event::MultiPointBegin { size, .. } => Some(size as nat),
        Event::LineStringBegin { size, .. } => Some(size as nat),
        Event::MultiLineStringBegin { size, .. } => Some(size as nat),
        Event::PolygonBegin { size, .. } => Some(size as nat),
        Event::MultiPolygonBegin { size, .. } => Some(size as nat),
        Event::GeometryCollectionBegin { size, .. } => Some(size as nat),
        _ => None,
    }
}

/// The brackets whose children are positions: point, multi-point and line string.
pub open spec fn holds_positions(open: Event) -> bool {
    open is PointBegin || open is MultiPointBegin || open is LineStringBegin
}

/// The innermost open bracket holds positions.
pub open spec fn inside_positions(stack: Seq<(Event, nat)>) -> bool {
    stack.len() > 0 && holds_positions(stack.last().0)
}

/// `k` more children for the innermost open bracket (nothing where no
/// bracket is open).
pub open spec fn count_children(stack: Seq<(Event, nat)>, k: nat) -> Seq<(Event, nat)> {
    if stack.len() == 0 {
        stack
    } else {
        stack.drop_last().push((stack.last().0, stack.last().1 + k))
    }
}

/// The open brackets, each with the number of direct children it has had,
/// after one more event; `None` where the event may not stand there. A
/// position stands directly inside a point, multi-point or line string and
/// is a child of it; a begin event stands anywhere else, is a child of the
/// innermost open bracket and opens one; an end event closes the innermost
/// bracket, of the same kind, index and tag, once that bracket has had as
/// many children as its begin announced.
pub open spec fn shape_step(stack: Seq<(Event, nat)>, e: Event) -> Option<Seq<(Event, nat)>> {
    if is_position_event(e) {
        if inside_positions(stack) {
            Some(count_children(stack, 1))
        } else {
            None
        }
    } else if depth_change(e) == 1 {
        if inside_positions(stack) {
            None
        } else {
            Some(count_children(stack, 1).push((e, 0nat)))
        }
    } else if depth_change(e) == -1 {
        if stack.len() > 0 && closes(stack.last().0, e) && announced(stack.last().0) == Some(stack.last().1) {
            Some(stack.drop_last())
        } else {
            None
        }
    } else {
        Some(stack)
    }
}

/// The open brackets after the events of `s`, starting from `stack`.
pub open spec fn shape_run(stack: Seq<(Event, nat)>, s: Seq<Event>) -> Option<Seq<(Event, nat)>>
    decreases s.len(),
{
    if s.len() == 0 {
        Some(stack)
    } else {
        match shape_run(stack, s.drop_last()) {
            Some(st) => shape_step(st, s.last()),
            None => None,
        }
    }
}

/// Started with nothing open, every event of `s` may stand where it stands
/// and nothing is left open.
pub open spec fn well_shaped(s: Seq<Event>) -> bool {
    shape_run(Seq::empty(), s) == Some(Seq::<(Event, nat)>::empty())
}

/// The values a position event hands on: x and y, and z where a coordinate
/// carries one; none for the short-position event.
pub open spec fn handed_values(e: Event) -> Seq<u64> {
    match e {
        Event::Xy { x, y, .. } => seq![x, y],
        Event::Coordinate { x, y, z, .. } => match z {
            Some(z) => seq![x, y, z],
            None => seq![x, y],
        },
        _ => seq![],
    }
}

/// The values of the position events of `s`, in their order.
pub open spec fn handed_positions(s: Seq<Event>) -> Seq<Seq<u64>>
    decreases s.len(),
{
    if s.len() == 0 {
        seq![]
    } else {
        handed_positions(s.drop_last()) + if is_position_event(s.last()) {
            seq![handed_values(s.last())]
        } else {
            seq![]
        }
    }
}

/// What a walk hands on of a position: nothing where it has fewer than two
/// values; else x and y, and for a multi-dimensional processor the third
/// value too where there is one.
pub open spec fn kept_values(p: Seq<u64>, multi_dim: bool) -> Seq<u64> {
    if p.len() < 2 {
        seq![]
    } else if multi_dim && p.len() > 2 {
        p.take(3)
    } else {
        p.take(2)
    }
}

/// The first `n` positions of `ps`, in order.
pub open spec fn positions_coords(ps: Seq<Position>, n: nat) -> Seq<Seq<u64>>
    decreases n,
{
    if n == 0 {
        seq![]
    } else {
        positions_coords(ps, (n - 1) as nat).push(ps[n - 1]@)
    }
}

/// The positions of the first `n` lines of `ls`, line after line.
pub open spec fn lines_coords(ls: Seq<Vec<Position>>, n: nat) -> Seq<Seq<u64>>
    decreases n,
{
    if n == 0 {
        seq![]
    } else {
        lines_coords(ls, (n - 1) as nat) + positions_coords(ls[n - 1]@, ls[n - 1]@.len())
    }
}

/// The positions of the first `n` polygons of `ps`, polygon after polygon.
pub open spec fn polygons_coords(ps: Seq<Vec<Vec<Position>>>, n: nat) -> Seq<Seq<u64>>
    decreases n,
{
    if n == 0 {
        seq![]
    } else {
        polygons_coords(ps, (n - 1) as nat) + lines_coords(ps[n - 1]@, ps[n - 1]@.len())
    }
}

/// The positions of a geometry in the order in which it lists them.
pub open spec fn geometry_coords(g: Geometry) -> Seq<Seq<u64>>
    decreases g, 0nat,
{
    match g {
        Geometry::Point(p) => seq![p@],
        Geometry::MultiPoint(ps) => positions_coords(ps@, ps@.len()),
        Geometry::LineString(ps) => positions_coords(ps@, ps@.len()),
        Geometry::MultiLineString(ls) => lines_coords(ls@, ls@.len()),
        Geometry::Polygon(ls) => lines_coords(ls@, ls@.len()),
        Geometry::MultiPolygon(ps) => polygons_coords(ps@, ps@.len()),
        Geometry::GeometryCollection(gs) => members_coords(gs@, gs@.len()),
    }
}

/// The positions of the first `n` members of a collection, member after member.
pub open spec fn members_coords(gs: Seq<Geometry>, n: nat) -> Seq<Seq<u64>>
    decreases gs, n,
{
    if n == 0 || n > gs.len() {
        seq![]
    } else {
        members_coords(gs, (n - 1) as nat) + geometry_coords(gs[n - 1])
    }
}

/// The positions of the geometries of the first `n` features, feature
/// after feature; a feature without a geometry has none.
pub open spec fn collection_coords(fs: Seq<Feature>, n: nat) -> Seq<Seq<u64>>
    decreases n,
{
    if n == 0 {
        seq![]
    } else {
        collection_coords(fs, (n - 1) as nat) + match fs[n - 1].geometry {
            Some(g) => geometry_coords(g),
            None => seq![],
        }
    }
}

/// The positions of the geometries of a document, in document order.
pub open spec fn document_coords(doc: Document) -> Seq<Seq<u64>> {
    match doc {
        Document::FeatureCollection(fs) => collection_coords(fs@, fs@.len()),
        Document::Feature(f) => match f.geometry {
            Some(g) => geometry_coords(g),
            None => seq![],
        },
        Document::Geometry(g) => geometry_coords(g),
    }
}

/// What a walk hands on of each of `coords`, in order.
pub open spec fn kept_all(coords: Seq<Seq<u64>>, multi_dim: bool) -> Seq<Seq<u64>> {
    coords.map_values(|p: Seq<u64>| kept_values(p, multi_dim))
}

/// From every stack whose innermost bracket holds positions exactly where
/// `pos_level` says so, `s` runs through and adds `k` children to that bracket.
spec fn shape_from(s: Seq<Event>, pos_level: bool, k: nat) -> bool {
    forall|stack: Seq<(Event, nat)>|
        inside_positions(stack) == pos_level ==> #[trigger] shape_run(stack, s) == Some(count_children(stack, k))
}

/// The shape of a part of a walk and the values it hands on.
spec fn walk_shape(s: Seq<Event>, pos_level: bool, k: nat, coords: Seq<Seq<u64>>, multi_dim: bool) -> bool {
    &&& shape_from(s, pos_level, k)
    &&& handed_positions(s) == kept_all(coords, multi_dim)
}

proof fn lemma_shape_run_concat(stack: Seq<(Event, nat)>, a: Seq<Event>, b: Seq<Event>)
    ensures
        shape_run(stack, a + b) == match shape_run(stack, a) {
            Some(st) => shape_run(st, b),
            None => None,
        },
    decreases b.len(),
{
    if b.len() == 0 {
        assert(a + b =~= a);
    } else {
        assert((a + b).drop_last() =~= a + b.drop_last());
        lemma_shape_run_concat(stack, a, b.drop_last());
    }
}

proof fn lemma_shape_single(stack: Seq<(Event, nat)>, e: Event)
    ensures
        shape_run(stack, seq![e]) == shape_step(stack, e),
        handed_positions(seq![e]) == if is_position_event(e) { seq![handed_values(e)] } else { Seq::<Seq<u64>>::empty() },
{
    assert(seq![e].drop_last() =~= Seq::<Event>::empty());
    assert(seq![e].last() == e);
    assert(shape_run(stack, Seq::<Event>::empty()) == Some(stack));
    assert(handed_positions(Seq::<Event>::empty()) =~= Seq::<Seq<u64>>::empty());
}

proof fn lemma_handed_concat(a: Seq<Event>, b: Seq<Event>)
    ensures
        handed_positions(a + b) == handed_positions(a) + handed_positions(b),
    decreases b.len(),
{
    if b.len() == 0 {
        assert(a + b =~= a);
        assert(handed_positions(b) =~= Seq::<Seq<u64>>::empty());
        assert(handed_positions(a) + handed_positions(b) =~= handed_positions(a));
    } else {
        assert((a + b).drop_last() =~= a + b.drop_last());
        lemma_handed_concat(a, b.drop_last());
        assert(handed_positions(a + b) =~= handed_positions(a) + handed_positions(b));
    }
}

proof fn lemma_count_children(stack: Seq<(Event, nat)>, x: nat, y: nat)
    ensures
        count_children(count_children(stack, x), y) == count_children(stack, x + y),
        count_children(stack, 0) == stack,
        inside_positions(count_children(stack, x)) == inside_positions(stack),
        count_children(stack, x).len() == stack.len(),
{
    if stack.len() > 0 {
        assert(count_children(count_children(stack, x), y) =~= count_children(stack, x + y));
        assert(count_children(stack, 0) =~= stack);
    }
}

proof fn lemma_kept_concat(a: Seq<Seq<u64>>, b: Seq<Seq<u64>>, multi_dim: bool)
    ensures
        kept_all(a + b, multi_dim) == kept_all(a, multi_dim) + kept_all(b, multi_dim),
{
    assert(kept_all(a + b, multi_dim) =~= kept_all(a, multi_dim) + kept_all(b, multi_dim));
}

proof fn lemma_walk_empty(pos_level: bool, multi_dim: bool)
    ensures
        walk_shape(Seq::<Event>::empty(), pos_level, 0, Seq::<Seq<u64>>::empty(), multi_dim),
{
    assert forall|stack: Seq<(Event, nat)>| inside_positions(stack) == pos_level implies
        #[trigger] shape_run(stack, Seq::<Event>::empty()) == Some(count_children(stack, 0)) by {
        lemma_count_children(stack, 0, 0);
    }
    assert(kept_all(Seq::<Seq<u64>>::empty(), multi_dim) =~= Seq::<Seq<u64>>::empty());
}

proof fn lemma_walk_concat(
    a: Seq<Event>,
    b: Seq<Event>,
    pos_level: bool,
    x: nat,
    y: nat,
    ca: Seq<Seq<u64>>,
    cb: Seq<Seq<u64>>,
    multi_dim: bool,
)
    requires
        walk_shape(a, pos_level, x, ca, multi_dim),
        walk_shape(b, pos_level, y, cb, multi_dim),
    ensures
        walk_shape(a + b, pos_level, x + y, ca + cb, multi_dim),
{
    assert forall|stack: Seq<(Event, nat)>| inside_positions(stack) == pos_level implies
        #[trigger] shape_run(stack, a + b) == Some(count_children(stack, x + y)) by {
        lemma_shape_run_concat(stack, a, b);
        assert(shape_run(stack, a) == Some(count_children(stack, x)));
        lemma_count_children(stack, x, y);
        assert(shape_run(count_children(stack, x), b) == Some(count_children(count_children(stack, x), y)));
    }
    lemma_handed_concat(a, b);
    lemma_kept_concat(ca, cb, multi_dim);
}

proof fn lemma_walk_wrap(open: Event, s: Seq<Event>, close: Event, k: nat, coords: Seq<Seq<u64>>, multi_dim: bool)
    requires
        depth_change(open) == 1,
        depth_change(close) == -1,
        !is_position_event(open),
        !is_position_event(close),
        closes(open, close),
        announced(open) == Some(k),
        walk_shape(s, holds_positions(open), k, coords, multi_dim),
    ensures
        walk_shape(seq![open] + s + seq![close], false, 1, coords, multi_dim),
{
    assert forall|stack: Seq<(Event, nat)>| inside_positions(stack) == false implies
        #[trigger] shape_run(stack, seq![open] + s + seq![close]) == Some(count_children(stack, 1)) by {
        lemma_shape_run_concat(stack, seq![open] + s, seq![close]);
        lemma_shape_run_concat(stack, seq![open], s);
        lemma_shape_single(stack, open);
        let inner = count_children(stack, 1).push((open, 0nat));
        assert(inner.last() == (open, 0nat));
        assert(inside_positions(inner) == holds_positions(open));
        assert(shape_run(inner, s) == Some(count_children(inner, k)));
        let after = count_children(inner, k);
        assert(after =~= count_children(stack, 1).push((open, k)));
        lemma_shape_single(after, close);
        assert(after.drop_last() =~= count_children(stack, 1));
    }
    lemma_handed_concat(seq![open], s);
    lemma_handed_concat(seq![open] + s, seq![close]);
    lemma_shape_single(Seq::empty(), open);
    lemma_shape_single(Seq::empty(), close);
    assert(handed_positions(seq![open] + s + seq![close]) =~= handed_positions(s));
}

proof fn lemma_coord_shape(p: Seq<u64>, idx: usize, multi_dim: bool)
    ensures
        walk_shape(coord_events(p, idx, multi_dim), true, 1, seq![p], multi_dim),
{
    let s = coord_events(p, idx, multi_dim);
    let e = s[0];
    assert(s =~= seq![e]);
    assert forall|stack: Seq<(Event, nat)>| inside_positions(stack) == true implies
        #[trigger] shape_run(stack, s) == Some(count_children(stack, 1)) by {
        lemma_shape_single(stack, e);
    }
    lemma_shape_single(Seq::empty(), e);
    assert(handed_values(e) =~= kept_values(p, multi_dim));
    assert(kept_all(seq![p], multi_dim) =~= seq![kept_values(p, multi_dim)]);
}

proof fn lemma_positions_shape(ps: Seq<Position>, n: nat, multi_dim: bool)
    ensures
        walk_shape(positions_events(ps, n, multi_dim), true, n, positions_coords(ps, n), multi_dim),
    decreases n,
{
    if n == 0 {
        lemma_walk_empty(true, multi_dim);
    } else {
        lemma_positions_shape(ps, (n - 1) as nat, multi_dim);
        lemma_coord_shape(ps[n - 1]@, (n - 1) as usize, multi_dim);
        lemma_walk_concat(
            positions_events(ps, (n - 1) as nat, multi_dim),
            coord_events(ps[n - 1]@, (n - 1) as usize, multi_dim),
            true,
            (n - 1) as nat,
            1,
            positions_coords(ps, (n - 1) as nat),
            seq![ps[n - 1]@],
            multi_dim,
        );
        assert(positions_coords(ps, (n - 1) as nat) + seq![ps[n - 1]@] =~= positions_coords(ps, n));
    }
}

proof fn lemma_linestring_shape(ps: Seq<Position>, tagged: bool, idx: usize, multi_dim: bool)
    requires
        ps.len() <= usize::MAX,
    ensures
        walk_shape(linestring_events(ps, tagged, idx, multi_dim), false, 1, positions_coords(ps, ps.len()), multi_dim),
{
    lemma_positions_shape(ps, ps.len(), multi_dim);
    lemma_walk_wrap(
        Event::LineStringBegin { tagged, size: ps.len() as usize, idx },
        positions_events(ps, ps.len(), multi_dim),
        Event::LineStringEnd { tagged, idx },
        ps.len(),
        positions_coords(ps, ps.len()),
        multi_dim,
    );
}

proof fn lemma_lines_shape(ls: Seq<Vec<Position>>, n: nat, multi_dim: bool)
    requires
        n <= ls.len(),
    ensures
        walk_shape(lines_events(ls, n, multi_dim), false, n, lines_coords(ls, n), multi_dim),
    decreases n,
{
    if n == 0 {
        lemma_walk_empty(false, multi_dim);
    } else {
        lemma_lines_shape(ls, (n - 1) as nat, multi_dim);
        assert(ls[n - 1]@.len() == ls[n - 1].len());
        lemma_linestring_shape(ls[n - 1]@, false, (n - 1) as usize, multi_dim);
        lemma_walk_concat(
            lines_events(ls, (n - 1) as nat, multi_dim),
            linestring_events(ls[n - 1]@, false, (n - 1) as usize, multi_dim),
            false,
            (n - 1) as nat,
            1,
            lines_coords(ls, (n - 1) as nat),
            positions_coords(ls[n - 1]@, ls[n - 1]@.len()),
            multi_dim,
        );
    }
}

proof fn lemma_polygon_shape(rings: Seq<Vec<Position>>, tagged: bool, idx: usize, multi_dim: bool)
    requires
        rings.len() <= usize::MAX,
    ensures
        walk_shape(polygon_events(rings, tagged, idx, multi_dim), false, 1, lines_coords(rings, rings.len()), multi_dim),
{
    lemma_lines_shape(rings, rings.len(), multi_dim);
    lemma_walk_wrap(
        Event::PolygonBegin { tagged, size: rings.len() as usize, idx },
        lines_events(rings, rings.len(), multi_dim),
        Event::PolygonEnd { tagged, idx },
        rings.len(),
        lines_coords(rings, rings.len()),
        multi_dim,
    );
}

proof fn lemma_polygons_shape(ps: Seq<Vec<Vec<Position>>>, n: nat, multi_dim: bool)
    requires
        n <= ps.len(),
    ensures
        walk_shape(polygons_events(ps, n, multi_dim), false, n, polygons_coords(ps, n), multi_dim),
    decreases n,
{
    if n == 0 {
        lemma_walk_empty(false, multi_dim);
    } else {
        lemma_polygons_shape(ps, (n - 1) as nat, multi_dim);
        assert(ps[n - 1]@.len() == ps[n - 1].len());
        lemma_polygon_shape(ps[n - 1]@, false, (n - 1) as usize, multi_dim);
        lemma_walk_concat(
            polygons_events(ps, (n - 1) as nat, multi_dim),
            polygon_events(ps[n - 1]@, false, (n - 1) as usize, multi_dim),
            false,
            (n - 1) as nat,
            1,
            polygons_coords(ps, (n - 1) as nat),
            lines_coords(ps[n - 1]@, ps[n - 1]@.len()),
            multi_dim,
        );
    }
}

proof fn lemma_geometry_shape(g: Geometry, idx: usize, multi_dim: bool)
    ensures
        walk_shape(geometry_events(g, idx, multi_dim), false, 1, geometry_coords(g), multi_dim),
    decreases g, 0nat,
{
    match g {
        Geometry::Point(p) => {
            lemma_coord_shape(p@, 0, multi_dim);
            lemma_walk_wrap(
                Event::PointBegin { idx },
                coord_events(p@, 0, multi_dim),
                Event::PointEnd { idx },
                1,
                seq![p@],
                multi_dim,
            );
        },
        Geometry::MultiPoint(ps) => {
            assert(ps@.len() == ps.len());
            lemma_positions_shape(ps@, ps@.len(), multi_dim);
            lemma_walk_wrap(
                Event::MultiPointBegin { size: ps@.len() as usize, idx },
                positions_events(ps@, ps@.len(), multi_dim),
                Event::MultiPointEnd { idx },
                ps@.len(),
                positions_coords(ps@, ps@.len()),
                multi_dim,
            );
        },
        Geometry::LineString(ps) => {
            assert(ps@.len() == ps.len());
            lemma_linestring_shape(ps@, true, idx, multi_dim);
        },
        Geometry::MultiLineString(ls) => {
            assert(ls@.len() == ls.len());
            lemma_lines_shape(ls@, ls@.len(), multi_dim);
            lemma_walk_wrap(
                Event::MultiLineStringBegin { size: ls@.len() as usize, idx },
                lines_events(ls@, ls@.len(), multi_dim),
                Event::MultiLineStringEnd { idx },
                ls@.len(),
                lines_coords(ls@, ls@.len()),
                multi_dim,
            );
        },
        Geometry::Polygon(rings) => {
            assert(rings@.len() == rings.len());
            lemma_polygon_shape(rings@, true, idx, multi_dim);
        },
        Geometry::MultiPolygon(ps) => {
            assert(ps@.len() == ps.len());
            lemma_polygons_shape(ps@, ps@.len(), multi_dim);
            lemma_walk_wrap(
                Event::MultiPolygonBegin { size: ps@.len() as usize, idx },
                polygons_events(ps@, ps@.len(), multi_dim),
                Event::MultiPolygonEnd { idx },
                ps@.len(),
                polygons_coords(ps@, ps@.len()),
                multi_dim,
            );
        },
        Geometry::GeometryCollection(gs) => {
            assert(gs@.len() == gs.len());
            lemma_members_shape(gs@, gs@.len(), multi_dim);
            lemma_walk_wrap(
                Event::GeometryCollectionBegin { size: gs@.len() as usize, idx },
                members_events(gs@, gs@.len(), multi_dim),
                Event::GeometryCollectionEnd { idx },
                gs@.len(),
                members_coords(gs@, gs@.len()),
                multi_dim,
            );
        },
    }
}

proof fn lemma_members_shape(gs: Seq<Geometry>, n: nat, multi_dim: bool)
    requires
        n <= gs.len(),
    ensures
        walk_shape(members_events(gs, n, multi_dim), false, n, members_coords(gs, n), multi_dim),
    decreases gs, n,
{
    if n == 0 {
        lemma_walk_empty(false, multi_dim);
    } else {
        lemma_members_shape(gs, (n - 1) as nat, multi_dim);
        lemma_geometry_shape(gs[n - 1], (n - 1) as usize, multi_dim);
        lemma_walk_concat(
            members_events(gs, (n - 1) as nat, multi_dim),
            geometry_events(gs[n - 1], (n - 1) as usize, multi_dim),
            false,
            (n - 1) as nat,
            1,
            members_coords(gs, (n - 1) as nat),
            geometry_coords(gs[n - 1]),
            multi_dim,
        );
    }
}

proof fn lemma_collection_shape(fs: Seq<Feature>, n: nat, multi_dim: bool)
    ensures
        walk_shape(collection_geom_events(fs, n, multi_dim), false, count_geometries(fs, n), collection_coords(fs, n), multi_dim),
    decreases n,
{
    if n == 0 {
        lemma_walk_empty(false, multi_dim);
    } else {
        lemma_collection_shape(fs, (n - 1) as nat, multi_dim);
        let prev = collection_geom_events(fs, (n - 1) as nat, multi_dim);
        let k = count_geometries(fs, (n - 1) as nat);
        let c = collection_coords(fs, (n - 1) as nat);
        match fs[n - 1].geometry {
            Some(g) => {
                lemma_geometry_shape(g, k as usize, multi_dim);
                lemma_walk_concat(prev, geometry_events(g, k as usize, multi_dim), false, k, 1, c, geometry_coords(g), multi_dim);
            },
            None => {
                lemma_walk_empty(false, multi_dim);
                lemma_walk_concat(prev, Seq::<Event>::empty(), false, k, 0, c, Seq::<Seq<u64>>::empty(), multi_dim);
                assert(prev + Seq::<Event>::empty() =~= prev);
                assert(c + Seq::<Seq<u64>>::empty() =~= c);
            },
        }
    }
}

/// Walking a geometry, started with nothing open: each position event
/// stands directly inside a point, multi-point or line string and nowhere
/// else; each end closes the bracket opened last, of the same kind, index
/// and tag; each bracket has, at every level, as many direct children
/// (positions, lines, rings, polygons or member geometries) as its begin
/// announces: one position for a point, the length of its list for the
/// others; nothing is left open; and the values handed on are those of the
/// geometry's positions in the order in which the geometry lists them (x
/// and y, and for a multi-dimensional processor the third value where there
/// is one; nothing for a position of fewer than two values).
pub proof fn law_geometry_shape(g: Geometry, idx: usize, multi_dim: bool)
    ensures
        well_shaped(geometry_events(g, idx, multi_dim)),
        handed_positions(geometry_events(g, idx, multi_dim)) == kept_all(geometry_coords(g), multi_dim),
{
    lemma_geometry_shape(g, idx, multi_dim);
    let empty = Seq::<(Event, nat)>::empty();
    assert(inside_positions(empty) == false);
    assert(shape_run(empty, geometry_events(g, idx, multi_dim)) == Some(count_children(empty, 1)));
}

/// Walking the geometries of a document gives the same shape, geometry
/// after geometry (see [`law_geometry_shape`]), and hands on the values of
/// the document's positions in document order.
pub proof fn law_document_geom_shape(doc: Document, multi_dim: bool)
    ensures
        well_shaped(document_geom_events(doc, multi_dim)),
        handed_positions(document_geom_events(doc, multi_dim)) == kept_all(document_coords(doc), multi_dim),
{
    let empty = Seq::<(Event, nat)>::empty();
    assert(inside_positions(empty) == false);
    match doc {
        Document::FeatureCollection(fs) => {
            lemma_collection_shape(fs@, fs@.len(), multi_dim);
            assert(shape_run(empty, document_geom_events(doc, multi_dim))
                == Some(count_children(empty, count_geometries(fs@, fs@.len()))));
        },
        Document::Feature(f) => {
            match f.geometry {
                Some(g) => {
                    lemma_geometry_shape(g, 0, multi_dim);
                    assert(shape_run(empty, document_geom_events(doc, multi_dim)) == Some(count_children(empty, 1)));
                },
                None => {
                    lemma_walk_empty(false, multi_dim);
                    assert(shape_run(empty, document_geom_events(doc, multi_dim)) == Some(count_children(empty, 0)));
                },
            }
        },
        Document::Geometry(g) => {
            lemma_geometry_shape(g, 0, multi_dim);
            assert(shape_run(empty, document_geom_events(doc, multi_dim)) == Some(count_children(empty, 1)));
        },
    }
}

} // verus!
