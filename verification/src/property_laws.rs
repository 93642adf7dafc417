//! What a feature walk hands on of feature properties: one bracket for each
//! property map that is there, and each property with its place, its key and
//! its typed value.
use vstd::prelude::*;
use crate::events::{
    Event, column_value_of, properties_events, feature_body_events, feature_events, features_events,
    document_events, geometry_events,
};
use crate::laws::{fits_mode, law_geometry_walk};
use crate::model::{ColumnValue, Document, Feature, PropertyValue};

verus! {

/// How often the event `e` occurs in `s`.
pub open spec fn occurrences(s: Seq<Event>, e: Event) -> nat
    decreases s.len(),
{
    if s.len() == 0 {
        0
    } else {
        occurrences(s.drop_last(), e) + if s.last() == e { 1nat } else { 0nat }
    }
}

/// How many of the first `n` features have a property map (empty or not).
pub open spec fn with_properties(fs: Seq<Feature>, n: nat) -> nat
    decreases n,
{
    if n == 0 {
        0
    } else {
        with_properties(fs, (n - 1) as nat) + if fs[n - 1].properties is Some { 1nat } else { 0nat }
    }
}

/// How many property maps a feature walk of the document reaches: one for
/// each feature that has one; a bare geometry has none.
pub open spec fn document_property_maps(doc: Document) -> nat {
    match doc {
        Document::FeatureCollection(fs) => with_properties(fs@, fs@.len()),
        Document::Feature(f) => if f.properties is Some { 1 } else { 0 },
        Document::Geometry(_) => 0,
    }
}

proof fn lemma_occurrences_concat(a: Seq<Event>, b: Seq<Event>, e: Event)
    ensures
        occurrences(a + b, e) == occurrences(a, e) + occurrences(b, e),
    decreases b.len(),
{
    if b.len() == 0 {
        assert(a + b =~= a);
    } else {
        assert((a + b).drop_last() =~= a + b.drop_last());
        lemma_occurrences_concat(a, b.drop_last(), e);
    }
}

proof fn lemma_occurrences_single(x: Event, e: Event)
    ensures
        occurrences(seq![x], e) == if x == e { 1nat } else { 0nat },
{
    assert(seq![x].drop_last() =~= Seq::<Event>::empty());
    assert(seq![x].last() == x);
    assert(occurrences(Seq::<Event>::empty(), e) == 0);
}

proof fn lemma_occurrences_absent(s: Seq<Event>, e: Event)
    requires
        forall|i: int| 0 <= i < s.len() ==> #[trigger] s[i] != e,
    ensures
        occurrences(s, e) == 0,
    decreases s.len(),
{
    if s.len() > 0 {
        assert forall|i: int| 0 <= i < s.drop_last().len() implies #[trigger] s.drop_last()[i] != e by {
            assert(s.drop_last()[i] == s[i]);
        }
        lemma_occurrences_absent(s.drop_last(), e);
        assert(s.last() == s[s.len() - 1]);
    }
}

proof fn lemma_properties_no_bracket(ps: Seq<(String, PropertyValue)>, n: nat, e: Event)
    requires
        e == Event::PropertiesBegin || e == Event::PropertiesEnd,
    ensures
        occurrences(properties_events(ps, n), e) == 0,
    decreases n,
{
    if n > 0 {
        lemma_properties_no_bracket(ps, (n - 1) as nat, e);
        let p = Event::Property { idx: (n - 1) as usize, name: ps[n - 1].0, value: column_value_of(ps[n - 1].1) };
        lemma_occurrences_concat(properties_events(ps, (n - 1) as nat), seq![p], e);
        lemma_occurrences_single(p, e);
    }
}

proof fn lemma_geometry_no_bracket(g: crate::model::Geometry, idx: usize, multi_dim: bool, e: Event)
    requires
        e == Event::PropertiesBegin || e == Event::PropertiesEnd,
    ensures
        occurrences(geometry_events(g, idx, multi_dim), e) == 0,
{
    let s = geometry_events(g, idx, multi_dim);
    law_geometry_walk(g, idx, multi_dim);
    assert forall|i: int| 0 <= i < s.len() implies #[trigger] s[i] != e by {
        assert(fits_mode(s[i], multi_dim));
    }
    lemma_occurrences_absent(s, e);
}

proof fn lemma_feature_brackets(f: Feature, idx: usize, multi_dim: bool, e: Event)
    requires
        e == Event::PropertiesBegin || e == Event::PropertiesEnd,
    ensures
        occurrences(feature_events(f, idx, multi_dim), e) == if f.properties is Some { 1nat } else { 0nat },
{
    let props = match f.properties {
        Some(ps) => seq![Event::PropertiesBegin] + properties_events(ps@, ps@.len())
            + seq![Event::PropertiesEnd],
        None => Seq::<Event>::empty(),
    };
    let geom = match f.geometry {
        Some(g) => seq![Event::GeometryBegin] + geometry_events(g, idx, multi_dim)
            + seq![Event::GeometryEnd],
        None => Seq::<Event>::empty(),
    };
    assert(feature_body_events(f, idx, multi_dim) == props + geom);
    match f.properties {
        Some(ps) => {
            lemma_properties_no_bracket(ps@, ps@.len(), e);
            lemma_occurrences_concat(seq![Event::PropertiesBegin], properties_events(ps@, ps@.len()), e);
            lemma_occurrences_concat(seq![Event::PropertiesBegin] + properties_events(ps@, ps@.len()), seq![Event::PropertiesEnd], e);
            lemma_occurrences_single(Event::PropertiesBegin, e);
            lemma_occurrences_single(Event::PropertiesEnd, e);
        },
        None => {},
    }
    match f.geometry {
        Some(g) => {
            lemma_geometry_no_bracket(g, idx, multi_dim, e);
            lemma_occurrences_concat(seq![Event::GeometryBegin], geometry_events(g, idx, multi_dim), e);
            lemma_occurrences_concat(seq![Event::GeometryBegin] + geometry_events(g, idx, multi_dim), seq![Event::GeometryEnd], e);
            lemma_occurrences_single(Event::GeometryBegin, e);
            lemma_occurrences_single(Event::GeometryEnd, e);
        },
        None => {},
    }
    lemma_occurrences_concat(props, geom, e);
    let open = Event::FeatureBegin { idx: idx as u64 };
    let close = Event::FeatureEnd { idx: idx as u64 };
    lemma_occurrences_concat(seq![open], props + geom, e);
    lemma_occurrences_concat(seq![open] + (props + geom), seq![close], e);
    lemma_occurrences_single(open, e);
    lemma_occurrences_single(close, e);
    assert(feature_events(f, idx, multi_dim) == seq![open] + (props + geom) + seq![close]);
}

proof fn lemma_features_brackets(fs: Seq<Feature>, n: nat, multi_dim: bool, e: Event)
    requires
        e == Event::PropertiesBegin || e == Event::PropertiesEnd,
    ensures
        occurrences(features_events(fs, n, multi_dim), e) == with_properties(fs, n),
    decreases n,
{
    if n > 0 {
        lemma_features_brackets(fs, (n - 1) as nat, multi_dim, e);
        lemma_feature_brackets(fs[n - 1], (n - 1) as usize, multi_dim, e);
        lemma_occurrences_concat(
            features_events(fs, (n - 1) as nat, multi_dim),
            feature_events(fs[n - 1], (n - 1) as usize, multi_dim),
            e,
        );
    }
}

/// A feature walk opens and closes exactly one properties bracket for each
/// feature that has a property map, whether the map is empty or not, and
/// none for a feature without one.
pub proof fn law_property_brackets(doc: Document, multi_dim: bool)
    ensures
        occurrences(document_events(doc, multi_dim), Event::PropertiesBegin) == document_property_maps(doc),
        occurrences(document_events(doc, multi_dim), Event::PropertiesEnd) == document_property_maps(doc),
{
    let s = document_events(doc, multi_dim);
    assert forall|e: Event| e == Event::PropertiesBegin || e == Event::PropertiesEnd implies
        #[trigger] occurrences(s, e) == document_property_maps(doc) by {
        let open = Event::DatasetBegin { name: None };
        lemma_occurrences_single(open, e);
        lemma_occurrences_single(Event::DatasetEnd, e);
        match doc {
            Document::FeatureCollection(fs) => {
                let body = features_events(fs@, fs@.len(), multi_dim);
                lemma_features_brackets(fs@, fs@.len(), multi_dim, e);
                lemma_occurrences_concat(seq![open], body, e);
                lemma_occurrences_concat(seq![open] + body, seq![Event::DatasetEnd], e);
            },
            Document::Feature(f) => {
                let inner = if f.geometry is Some || f.properties is Some {
                    feature_events(f, 0, multi_dim)
                } else {
                    Seq::<Event>::empty()
                };
                if f.geometry is Some || f.properties is Some {
                    lemma_feature_brackets(f, 0, multi_dim, e);
                }
                lemma_occurrences_concat(seq![open], inner, e);
                lemma_occurrences_concat(seq![open] + inner, seq![Event::DatasetEnd], e);
            },
            Document::Geometry(g) => {
                lemma_geometry_no_bracket(g, 0, multi_dim, e);
            },
        }
    }
}

/// How a property value is typed when it is handed on: a string as that
/// string; a number read as floating-point, with its `f64` value (of either
/// sign), as that double; else a number that fits an `i64` as that long,
/// else one that fits a `u64` as that unsigned long, else as its JSON text;
/// a boolean as that boolean; `null`, an array or an object as its JSON text.
pub proof fn law_column_value(v: PropertyValue)
    ensures
        v matches PropertyValue::String(s) ==> column_value_of(v) == ColumnValue::String(s),
        v matches PropertyValue::Bool(b) ==> column_value_of(v) == ColumnValue::Bool(b),
        v matches PropertyValue::Other(t) ==> column_value_of(v) == ColumnValue::String(t),
        forall|b: u64| #![auto] v matches PropertyValue::Number(n) && n.is_float && n.float_bits == Some(b)
            ==> column_value_of(v) == ColumnValue::Double(b),
        forall|l: i64| #![auto] v matches PropertyValue::Number(n) && !n.is_float && n.signed == Some(l)
            ==> column_value_of(v) == ColumnValue::Long(l),
        forall|u: u64| #![auto] v matches PropertyValue::Number(n) && !n.is_float && n.signed is None
            && n.unsigned == Some(u) ==> column_value_of(v) == ColumnValue::ULong(u),
        v matches PropertyValue::Number(n) ==> (!n.is_float && n.signed is None && n.unsigned is None
            ==> column_value_of(v) == ColumnValue::String(n.text)),
{
}

/// The property events of a property map: one for each property, in the
/// map's order, each with its place, its key as it stands in the map, and
/// its value typed as [`law_column_value`] says.
pub proof fn law_property_events(ps: Seq<(String, PropertyValue)>)
    ensures
        properties_events(ps, ps.len()).len() == ps.len(),
        forall|i: int| 0 <= i < ps.len() ==> #[trigger] properties_events(ps, ps.len())[i]
            == (Event::Property { idx: i as usize, name: ps[i].0, value: column_value_of(ps[i].1) }),
{
    lemma_property_events(ps, ps.len());
}

proof fn lemma_property_events(ps: Seq<(String, PropertyValue)>, n: nat)
    requires
        n <= ps.len(),
    ensures
        properties_events(ps, n).len() == n,
        forall|i: int| 0 <= i < n ==> #[trigger] properties_events(ps, n)[i]
            == (Event::Property { idx: i as usize, name: ps[i].0, value: column_value_of(ps[i].1) }),
    decreases n,
{
    if n > 0 {
        lemma_property_events(ps, (n - 1) as nat);
        let prev = properties_events(ps, (n - 1) as nat);
        assert forall|i: int| 0 <= i < n implies #[trigger] properties_events(ps, n)[i]
            == (Event::Property { idx: i as usize, name: ps[i].0, value: column_value_of(ps[i].1) }) by {
            if i < n - 1 {
                assert(properties_events(ps, n)[i] == prev[i]);
            }
        }
    }
}

} // verus!
