//! The Signal K data model: deltas, updates, path values and sources.
//!
//! Values at paths are arbitrary JSON, held as `serde_json::Value` and carried
//! through unchanged: nothing in the library looks inside them.
use vstd::prelude::*;

verus! {

/// An arbitrary JSON value.
#[verifier::external_type_specification]
#[verifier::external_body]
pub struct ExValue(serde_json::Value);

/// Relies on the `Clone` impl of `serde_json::Value`: the copy is the same JSON value.
pub assume_specification[ <serde_json::Value as Clone>::clone ](v: &serde_json::Value) -> (r:
    serde_json::Value)
    ensures
        r == *v,
;

/// The views of an optional string.
pub open spec fn opt_view(o: Option<String>) -> Option<Seq<char>> {
    match o {
        Some(s) => Some(s@),
        None => None,
    }
}

/// Copies an optional string.
pub fn copy_opt(o: &Option<String>) -> (r: Option<String>)
    ensures
        opt_view(r) == opt_view(*o),
{
    match o {
        Some(s) => Some(s.clone()),
        None => None,
    }
}

/// A delta: updates to one context (a vessel, usually).
#[derive(Debug, Clone, PartialEq)]
pub struct Delta {
    /// The context path; absent means the server's own vessel.
    pub context: Option<String>,
    /// The updates, in the order they apply.
    pub updates: Vec<Update>,
}

/// Values from one source at one time.
#[derive(Debug, Clone, PartialEq)]
pub struct Update {
    /// The source key, as `label.qualifier` (on the wire: `$source`).
    pub source_ref: Option<String>,
    /// A structured description of the source.
    pub source: Option<Source>,
    /// ISO 8601 time of the readings.
    pub timestamp: Option<String>,
    /// The readings, in order.
    pub values: Vec<PathValue>,
    /// Metadata for paths.
    pub meta: Option<Vec<PathMeta>>,
}

/// One reading: a path relative to the context and its JSON value.
#[derive(Debug, Clone, PartialEq)]
pub struct PathValue {
    pub path: String,
    pub value: serde_json::Value,
}

/// Metadata for a path, as the JSON object that describes it.
#[derive(Debug, Clone, PartialEq)]
pub struct PathMeta {
    pub path: String,
    pub value: serde_json::Value,
}

/// Where data came from.
#[derive(Debug, Clone, PartialEq)]
pub struct Source {
    /// The bus or device label.
    pub label: String,
    /// The kind of source (`NMEA0183`, `NMEA2000`, ...).
    pub source_type: Option<String>,
    /// NMEA 2000 source address.
    pub src: Option<String>,
    /// NMEA 2000 device CAN name.
    pub can_name: Option<String>,
    /// NMEA 2000 PGN.
    pub pgn: Option<u32>,
    /// NMEA 0183 sentence.
    pub sentence: Option<String>,
    /// NMEA 0183 talker.
    pub talker: Option<String>,
    /// AIS message type.
    pub ais_type: Option<u8>,
}

/// How a gauge scales its display.
#[derive(Debug, Clone, Copy, PartialEq, Eq)]
pub enum ScaleType {
    Linear,
    Logarithmic,
    Squareroot,
    Power,
}

/// Alarm states, from least to most severe.
#[derive(Debug, Clone, Copy, PartialEq, Eq)]
pub enum AlarmState {
    Nominal,
    Normal,
    Alert,
    Warn,
    Alarm,
    Emergency,
}

/// The hello a server sends when a client connects.
#[derive(Debug, Clone, PartialEq)]
pub struct Hello {
    pub name: Option<String>,
    pub version: String,
    pub timestamp: Option<String>,
    pub self_urn: String,
    pub roles: Vec<String>,
}

/// A reading as the store sees it: the path string and the value.
pub open spec fn path_value_view(pv: PathValue) -> (Seq<char>, serde_json::Value) {
    (pv.path@, pv.value)
}

/// An update as the store sees it.
pub ghost struct UpdateView {
    pub source_ref: Option<Seq<char>>,
    pub source_label: Option<Seq<char>>,
    pub source_type: Option<Seq<char>>,
    pub timestamp: Option<Seq<char>>,
    pub values: Seq<(Seq<char>, serde_json::Value)>,
}

pub open spec fn update_view(u: Update) -> UpdateView {
    UpdateView {
        source_ref: opt_view(u.source_ref),
        source_label: match u.source {
            Some(s) => Some(s.label@),
            None => None,
        },
        source_type: match u.source {
            Some(s) => opt_view(s.source_type),
            None => None,
        },
        timestamp: opt_view(u.timestamp),
        values: u.values@.map_values(|pv: PathValue| path_value_view(pv)),
    }
}

/// The updates of a delta as the store sees them.
pub open spec fn updates_view(d: Delta) -> Seq<UpdateView> {
    d.updates@.map_values(|u: Update| update_view(u))
}

/// A source object as a mathematical value.
pub ghost struct SourceObjView {
    pub label: Seq<char>,
    pub source_type: Option<Seq<char>>,
    pub src: Option<Seq<char>>,
    pub can_name: Option<Seq<char>>,
    pub pgn: Option<u32>,
    pub sentence: Option<Seq<char>>,
    pub talker: Option<Seq<char>>,
    pub ais_type: Option<u8>,
}

pub open spec fn source_obj_view(s: Source) -> SourceObjView {
    SourceObjView {
        label: s.label@,
        source_type: opt_view(s.source_type),
        src: opt_view(s.src),
        can_name: opt_view(s.can_name),
        pgn: s.pgn,
        sentence: opt_view(s.sentence),
        talker: opt_view(s.talker),
        ais_type: s.ais_type,
    }
}

pub open spec fn path_meta_view(m: PathMeta) -> (Seq<char>, serde_json::Value) {
    (m.path@, m.value)
}

/// A whole update as a mathematical value.
pub ghost struct UpdateFullView {
    pub source_ref: Option<Seq<char>>,
    pub source: Option<SourceObjView>,
    pub timestamp: Option<Seq<char>>,
    pub values: Seq<(Seq<char>, serde_json::Value)>,
    pub meta: Option<Seq<(Seq<char>, serde_json::Value)>>,
}

pub open spec fn update_full_view(u: Update) -> UpdateFullView {
    UpdateFullView {
        source_ref: opt_view(u.source_ref),
        source: match u.source {
            Some(s) => Some(source_obj_view(s)),
            None => None,
        },
        timestamp: opt_view(u.timestamp),
        values: u.values@.map_values(|pv: PathValue| path_value_view(pv)),
        meta: match u.meta {
            Some(m) => Some(m@.map_values(|x: PathMeta| path_meta_view(x))),
            None => None,
        },
    }
}

/// A whole delta as a mathematical value.
pub ghost struct DeltaView {
    pub context: Option<Seq<char>>,
    pub updates: Seq<UpdateFullView>,
}

impl View for Delta {
    type V = DeltaView;

    open spec fn view(&self) -> DeltaView {
        DeltaView {
            context: opt_view(self.context),
            updates: self.updates@.map_values(|u: Update| update_full_view(u)),
        }
    }
}

pub open spec fn opt_delta_view(d: Option<Delta>) -> Option<DeltaView> {
    match d {
        Some(x) => Some(x@),
        None => None,
    }
}

/// Copies a source object.
pub fn copy_source(s: &Source) -> (r: Source)
    ensures
        source_obj_view(r) == source_obj_view(*s),
{
    Source {
        label: s.label.clone(),
        source_type: copy_opt(&s.source_type),
        src: copy_opt(&s.src),
        can_name: copy_opt(&s.can_name),
        pgn: s.pgn,
        sentence: copy_opt(&s.sentence),
        talker: copy_opt(&s.talker),
        ais_type: s.ais_type,
    }
}

/// Copies a list of path metadata.
pub fn copy_meta(m: &Vec<PathMeta>) -> (r: Vec<PathMeta>)
    ensures
        r@.map_values(|x: PathMeta| path_meta_view(x)) == m@.map_values(|x: PathMeta| path_meta_view(x)),
{
    let mut out: Vec<PathMeta> = Vec::new();
    let mut i: usize = 0;
    while i < m.len()
        invariant
            i <= m@.len(),
            out@.map_values(|x: PathMeta| path_meta_view(x)) == m@.map_values(|x: PathMeta| path_meta_view(x)).take(i as int),
        decreases m.len() - i,
    {
        let ghost before = out@;
        out.push(PathMeta { path: m[i].path.clone(), value: m[i].value.clone() });
        assert(out@.map_values(|x: PathMeta| path_meta_view(x)) =~= before.map_values(|x: PathMeta| path_meta_view(x)).push(path_meta_view(m@[i as int])));
        assert(m@.map_values(|x: PathMeta| path_meta_view(x)).take(i as int + 1) =~= m@.map_values(|x: PathMeta| path_meta_view(x)).take(i as int).push(path_meta_view(m@[i as int])));
        i = i + 1;
    }
    assert(m@.map_values(|x: PathMeta| path_meta_view(x)).take(m@.len() as int) =~= m@.map_values(|x: PathMeta| path_meta_view(x)));
    out
}

/// The updates that keep at least one value when only the values whose path
/// `keep` accepts are kept; each keeps its source, timestamp and metadata.
pub open spec fn filter_updates(ups: Seq<UpdateFullView>, keep: spec_fn(Seq<char>) -> bool) -> Seq<UpdateFullView>
    decreases ups.len(),
{
    if ups.len() == 0 {
        Seq::empty()
    } else {
        let rest = filter_updates(ups.drop_last(), keep);
        let u = ups.last();
        let vs = u.values.filter(|pv: (Seq<char>, serde_json::Value)| keep(pv.0));
        if vs.len() > 0 {
            rest.push(UpdateFullView { values: vs, ..u })
        } else {
            rest
        }
    }
}

/// The delta restricted to the values whose path `keep` accepts, or nothing
/// when no value is left. The context is kept.
pub open spec fn filter_delta_by(d: DeltaView, keep: spec_fn(Seq<char>) -> bool) -> Option<DeltaView> {
    let ups = filter_updates(d.updates, keep);
    if ups.len() > 0 {
        Some(DeltaView { context: d.context, updates: ups })
    } else {
        None
    }
}

/// Restricts a delta to the values marked in `masks`, which mark exactly the
/// values whose path `keep` accepts.
pub(crate) fn filter_by_mask(d: &Delta, masks: &Vec<Vec<bool>>, Ghost(keep): Ghost<spec_fn(Seq<char>) -> bool>) -> (r: Option<Delta>)
    requires
        masks@.len() == d.updates@.len(),
        forall|u: int| 0 <= u < masks@.len() ==> (#[trigger] masks@[u])@.len() == d.updates@[u].values@.len(),
        forall|u: int, i: int| 0 <= u < masks@.len() && 0 <= i < masks@[u]@.len() ==> masks@[u]@[i] == keep(
            #[trigger] d.updates@[u].values@[i].path@,
        ),
    ensures
        opt_delta_view(r) == filter_delta_by(d@, keep),
{
    let ghost all = d@.updates;
    let mut ups: Vec<Update> = Vec::new();
    let mut u: usize = 0;
    while u < d.updates.len()
        invariant
            all == d@.updates,
            u <= d.updates@.len(),
            masks@.len() == d.updates@.len(),
            forall|u: int| 0 <= u < masks@.len() ==> (#[trigger] masks@[u])@.len() == d.updates@[u].values@.len(),
            forall|u: int, i: int| 0 <= u < masks@.len() && 0 <= i < masks@[u]@.len() ==> masks@[u]@[i] == keep(
                #[trigger] d.updates@[u].values@[i].path@,
            ),
            ups@.map_values(|x: Update| update_full_view(x)) == filter_updates(all.take(u as int), keep),
        decreases d.updates.len() - u,
    {
        let up = &d.updates[u];
        let mask = &masks[u];
        let ghost uv = update_full_view(*up);
        let ghost pred = |pv: (Seq<char>, serde_json::Value)| keep(pv.0);
        assert(all[u as int] == uv);
        let mut vals: Vec<PathValue> = Vec::new();
        let mut i: usize = 0;
        while i < up.values.len()
            invariant
                uv == update_full_view(*up),
                mask@.len() == up.values@.len(),
                forall|i: int| 0 <= i < mask@.len() ==> mask@[i] == keep(#[trigger] up.values@[i].path@),
                pred == (|pv: (Seq<char>, serde_json::Value)| keep(pv.0)),
                i <= up.values@.len(),
                vals@.map_values(|pv: PathValue| path_value_view(pv)) == uv.values.take(i as int).filter(pred),
            decreases up.values.len() - i,
        {
            let ghost pre = uv.values.take(i as int);
            assert(uv.values.take(i as int + 1).drop_last() =~= pre);
            assert(uv.values.take(i as int + 1).last() == path_value_view(up.values@[i as int]));
            assert(pred(path_value_view(up.values@[i as int])) == mask@[i as int]);
            proof {
                reveal(Seq::filter);
            }
            assert(uv.values.take(i as int + 1).filter(pred) == (if pred(path_value_view(up.values@[i as int])) {
                pre.filter(pred).push(path_value_view(up.values@[i as int]))
            } else {
                pre.filter(pred)
            }));
            if mask[i] {
                let ghost before = vals@;
                vals.push(PathValue { path: up.values[i].path.clone(), value: up.values[i].value.clone() });
                assert(vals@.map_values(|pv: PathValue| path_value_view(pv)) =~= before.map_values(|pv: PathValue| path_value_view(pv)).push(path_value_view(up.values@[i as int])));
            }
            i = i + 1;
        }
        assert(uv.values.take(up.values@.len() as int) =~= uv.values);
        assert(all.take(u as int + 1).drop_last() =~= all.take(u as int));
        if vals.len() > 0 {
            let nu = Update {
                source_ref: copy_opt(&up.source_ref),
                source: match &up.source {
                    Some(s) => Some(copy_source(s)),
                    None => None,
                },
                timestamp: copy_opt(&up.timestamp),
                values: vals,
                meta: match &up.meta {
                    Some(m) => Some(copy_meta(m)),
                    None => None,
                },
            };
            let ghost before = ups@;
            ups.push(nu);
            assert(ups@.map_values(|x: Update| update_full_view(x)) =~= before.map_values(|x: Update| update_full_view(x)).push(update_full_view(nu)));
            assert(update_full_view(nu) == UpdateFullView { values: uv.values.filter(pred), ..uv });
        }
        u = u + 1;
    }
    assert(all.take(d.updates@.len() as int) =~= all);
    if ups.len() > 0 {
        Some(Delta { context: copy_opt(&d.context), updates: ups })
    } else {
        None
    }
}

} // verus!
