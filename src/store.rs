//! The in-memory state store.
//!
//! The store keeps one leaf per full path (context segments followed by the
//! path's segments). No leaf lies below another: writing a path replaces the
//! leaves below it and the leaf above it, if any. Each leaf holds the latest
//! value and, per source, the latest reading of that source.
use vstd::prelude::*;
use crate::model::{copy_opt, opt_view, update_view, updates_view, Delta, Update, UpdateView};
use crate::path::{
    find_char, first_of, segments_prefix, split_dots, split_path, str_eq, strs_view,
};

verus! {

broadcast use vstd::string::group_string_axioms;

/// One source's latest reading of a path.
pub ghost struct Reading {
    pub value: serde_json::Value,
    pub timestamp: Option<Seq<char>>,
}

/// A leaf as a mathematical value.
pub ghost struct StoredView {
    pub value: serde_json::Value,
    pub source: Option<Seq<char>>,
    pub timestamp: Option<Seq<char>>,
    pub values: Map<Seq<char>, Reading>,
}

/// A registered source: its type, if one was given, and its qualifiers.
pub ghost struct SourceView {
    pub source_type: Option<Seq<char>>,
    pub qualifiers: Set<Seq<char>>,
}

/// The store as a mathematical value.
pub ghost struct StoreView {
    pub self_urn: Seq<char>,
    pub leaves: Map<Seq<Seq<char>>, StoredView>,
    pub sources: Map<Seq<char>, SourceView>,
}

/// The map that a list of key/value pairs stands for: later pairs win.
pub open spec fn assoc<K, V>(s: Seq<(K, V)>) -> Map<K, V>
    decreases s.len(),
{
    if s.len() == 0 {
        Map::empty()
    } else {
        assoc(s.drop_last()).insert(s.last().0, s.last().1)
    }
}

/// No key appears twice.
pub open spec fn keys_unique<K, V>(s: Seq<(K, V)>) -> bool {
    forall|i: int, j: int| 0 <= i < j < s.len() ==> s[i].0 != s[j].0
}

/// A key of the map is the key of some pair.
pub proof fn lemma_assoc_key<K, V>(s: Seq<(K, V)>, k: K)
    requires
        assoc(s).contains_key(k),
    ensures
        exists|j: int| 0 <= j < s.len() && s[j].0 == k,
    decreases s.len(),
{
    if s.last().0 != k {
        lemma_assoc_key(s.drop_last(), k);
        let j = choose|j: int| 0 <= j < s.drop_last().len() && s.drop_last()[j].0 == k;
        assert(s[j] == s.drop_last()[j]);
    }
}

/// The key of every pair is a key of the map.
pub proof fn lemma_assoc_has_key<K, V>(s: Seq<(K, V)>, j: int)
    requires
        0 <= j < s.len(),
    ensures
        assoc(s).contains_key(s[j].0),
    decreases s.len(),
{
    if j < s.len() - 1 {
        lemma_assoc_has_key(s.drop_last(), j);
        assert(s.drop_last()[j] == s[j]);
    }
}

/// The pairs under `vessels`.
pub open spec fn count_vessel_pairs(s: Seq<(Seq<Seq<char>>, StoredView)>) -> nat
    decreases s.len(),
{
    if s.len() == 0 {
        0
    } else {
        count_vessel_pairs(s.drop_last()) + if s.last().0.len() > 0 && s.last().0[0] == "vessels"@ {
            1nat
        } else {
            0nat
        }
    }
}

proof fn lemma_count_vessel_pairs(s: Seq<(Seq<Seq<char>>, StoredView)>)
    requires
        keys_unique(s),
    ensures
        assoc(s).dom().finite(),
        assoc(s).dom().filter(|k: Seq<Seq<char>>| k.len() > 0 && k[0] == "vessels"@).len()
            == count_vessel_pairs(s),
    decreases s.len(),
{
    let f = |k: Seq<Seq<char>>| k.len() > 0 && k[0] == "vessels"@;
    if s.len() == 0 {
        assert(assoc(s).dom() =~= Set::<Seq<Seq<char>>>::empty());
        assert(assoc(s).dom().filter(f) =~= Set::<Seq<Seq<char>>>::empty());
    } else {
        let d = s.drop_last();
        let k = s.last().0;
        assert forall|i: int, j: int| 0 <= i < j < d.len() implies d[i].0 != d[j].0 by {
            assert(d[i] == s[i] && d[j] == s[j]);
        }
        lemma_count_vessel_pairs(d);
        if assoc(d).contains_key(k) {
            lemma_assoc_key(d, k);
            let j = choose|j: int| 0 <= j < d.len() && d[j].0 == k;
            assert(s[j] == d[j]);
        }
        assert(assoc(s).dom() =~= assoc(d).dom().insert(k));
        if f(k) {
            assert(assoc(s).dom().filter(f) =~= assoc(d).dom().filter(f).insert(k));
        } else {
            assert(assoc(s).dom().filter(f) =~= assoc(d).dom().filter(f));
        }
    }
}

/// One source's reading, as stored at a leaf.
#[derive(Debug, Clone, PartialEq)]
pub struct SourceValue {
    pub source_ref: String,
    pub value: serde_json::Value,
    pub timestamp: Option<String>,
}

/// The value at a path: the latest reading and every source's latest reading.
#[derive(Debug, Clone, PartialEq)]
pub struct StoredValue {
    pub value: serde_json::Value,
    pub source_ref: Option<String>,
    pub timestamp: Option<String>,
    pub values: Vec<SourceValue>,
}

pub open spec fn source_value_view(v: SourceValue) -> (Seq<char>, Reading) {
    (v.source_ref@, Reading { value: v.value, timestamp: opt_view(v.timestamp) })
}

pub open spec fn readings_view(s: Seq<SourceValue>) -> Seq<(Seq<char>, Reading)> {
    s.map_values(|v: SourceValue| source_value_view(v))
}

impl View for StoredValue {
    type V = StoredView;

    open spec fn view(&self) -> StoredView {
        StoredView {
            value: self.value,
            source: opt_view(self.source_ref),
            timestamp: opt_view(self.timestamp),
            values: assoc(readings_view(self.values@)),
        }
    }
}

/// A leaf of the store: its full path and its value.
#[derive(Debug, Clone, PartialEq)]
pub struct Leaf {
    pub path: Vec<String>,
    pub stored: StoredValue,
}

pub open spec fn leaf_view(l: Leaf) -> (Seq<Seq<char>>, StoredView) {
    (strs_view(l.path@), l.stored@)
}

pub open spec fn leaves_view(s: Seq<Leaf>) -> Seq<(Seq<Seq<char>>, StoredView)> {
    s.map_values(|l: Leaf| leaf_view(l))
}

/// A registered source label with its type and qualifiers.
#[derive(Debug, Clone, PartialEq)]
pub struct SourceEntry {
    pub label: String,
    pub source_type: Option<String>,
    pub qualifiers: Vec<String>,
}

pub open spec fn source_entry_view(e: SourceEntry) -> (Seq<char>, SourceView) {
    (
        e.label@,
        SourceView {
            source_type: opt_view(e.source_type),
            qualifiers: strs_view(e.qualifiers@).to_set(),
        },
    )
}

pub open spec fn sources_view(s: Seq<SourceEntry>) -> Seq<(Seq<char>, SourceView)> {
    s.map_values(|e: SourceEntry| source_entry_view(e))
}

// ---------------------------------------------------------------------------
// What applying a delta does
// ---------------------------------------------------------------------------

/// One write of a value to a full path.
pub ghost struct Write {
    pub path: Seq<Seq<char>>,
    pub value: serde_json::Value,
    pub source: Option<Seq<char>>,
    pub timestamp: Option<Seq<char>>,
}

/// The context a delta applies to: `vessels.self` and an absent context mean
/// the store's own vessel; any other context is taken as it stands.
pub open spec fn resolve_context(self_urn: Seq<char>, context: Option<Seq<char>>) -> Seq<char> {
    match context {
        Some(c) => if c == "vessels.self"@ {
            self_urn
        } else {
            c
        },
        None => self_urn,
    }
}

/// The writes of one update, in order.
pub open spec fn update_writes(ctx: Seq<Seq<char>>, u: UpdateView) -> Seq<Write> {
    u.values.map_values(
        |pv: (Seq<char>, serde_json::Value)|
            Write {
                path: ctx + split_dots(pv.0),
                value: pv.1,
                source: u.source_ref,
                timestamp: u.timestamp,
            },
    )
}

/// The writes of a list of updates, in order.
pub open spec fn delta_writes(ctx: Seq<Seq<char>>, ups: Seq<UpdateView>) -> Seq<Write>
    decreases ups.len(),
{
    if ups.len() == 0 {
        Seq::empty()
    } else {
        delta_writes(ctx, ups.drop_last()) + update_writes(ctx, ups.last())
    }
}

/// A full path whose segments are all non-empty.
pub open spec fn valid_segments(p: Seq<Seq<char>>) -> bool {
    p.len() > 0 && forall|i: int| 0 <= i < p.len() ==> (#[trigger] p[i]).len() > 0
}

/// Whether one of the two paths begins the other (or they are equal).
pub open spec fn overlaps(a: Seq<Seq<char>>, b: Seq<Seq<char>>) -> bool {
    segments_prefix(a, b) || segments_prefix(b, a)
}

/// The leaves that stay when `p` is written.
pub open spec fn without_overlaps(m: Map<Seq<Seq<char>>, StoredView>, p: Seq<Seq<char>>) -> Map<
    Seq<Seq<char>>,
    StoredView,
> {
    Map::new(|k: Seq<Seq<char>>| m.contains_key(k) && !overlaps(k, p), |k: Seq<Seq<char>>| m[k])
}

/// The leaf after a write, given the leaf before it (if any): the top-level
/// fields are the write's, and the write's source reading replaces that source's
/// previous one. Other sources' readings stay.
pub open spec fn stored_after(prior: Option<StoredView>, w: Write) -> StoredView {
    let kept = match prior {
        Some(o) => o.values,
        None => Map::empty(),
    };
    StoredView {
        value: w.value,
        source: w.source,
        timestamp: w.timestamp,
        values: match w.source {
            Some(s) => kept.insert(s, Reading { value: w.value, timestamp: w.timestamp }),
            None => kept,
        },
    }
}

/// The leaves after one write. A write to a path with an empty segment changes nothing.
pub open spec fn apply_write(m: Map<Seq<Seq<char>>, StoredView>, w: Write) -> Map<
    Seq<Seq<char>>,
    StoredView,
> {
    if valid_segments(w.path) {
        let prior = if m.contains_key(w.path) {
            Some(m[w.path])
        } else {
            None
        };
        without_overlaps(m, w.path).insert(w.path, stored_after(prior, w))
    } else {
        m
    }
}

/// The leaves after a list of writes, in order.
pub open spec fn apply_writes(m: Map<Seq<Seq<char>>, StoredView>, ws: Seq<Write>) -> Map<
    Seq<Seq<char>>,
    StoredView,
>
    decreases ws.len(),
{
    if ws.len() == 0 {
        m
    } else {
        apply_write(apply_writes(m, ws.drop_last()), ws.last())
    }
}

/// The label of a source key: the text before its first dot.
pub open spec fn source_label(r: Seq<char>) -> Seq<char> {
    r.take(first_of(r, '.'))
}

/// The qualifier of a source key: the text after its first dot, if it has one.
pub open spec fn source_qualifier(r: Seq<char>) -> Option<Seq<char>> {
    if first_of(r, '.') < r.len() {
        Some(r.subrange(first_of(r, '.') + 1, r.len() as int))
    } else {
        None
    }
}

/// The sources after an update registers its source: the label (from the
/// source key, else from the source object) is created if new, with the
/// object's type; the key's qualifier is added under it.
pub open spec fn register_source(src: Map<Seq<char>, SourceView>, u: UpdateView) -> Map<
    Seq<char>,
    SourceView,
> {
    let label = match u.source_ref {
        Some(r) => Some(source_label(r)),
        None => u.source_label,
    };
    match label {
        None => src,
        Some(l) => {
            let created = if src.contains_key(l) {
                src
            } else {
                src.insert(l, SourceView { source_type: u.source_type, qualifiers: Set::empty() })
            };
            match u.source_ref {
                Some(r) => match source_qualifier(r) {
                    Some(q) => created.insert(
                        l,
                        SourceView {
                            source_type: created[l].source_type,
                            qualifiers: created[l].qualifiers.insert(q),
                        },
                    ),
                    None => created,
                },
                None => created,
            }
        },
    }
}

/// The sources after a list of updates.
pub open spec fn register_sources(src: Map<Seq<char>, SourceView>, ups: Seq<UpdateView>) -> Map<
    Seq<char>,
    SourceView,
>
    decreases ups.len(),
{
    if ups.len() == 0 {
        src
    } else {
        register_source(register_sources(src, ups.drop_last()), ups.last())
    }
}

/// The store after a delta.
pub open spec fn apply_delta_spec(s: StoreView, context: Option<Seq<char>>, ups: Seq<UpdateView>) -> StoreView {
    let ctx = split_dots(resolve_context(s.self_urn, context));
    StoreView {
        self_urn: s.self_urn,
        leaves: apply_writes(s.leaves, delta_writes(ctx, ups)),
        sources: register_sources(s.sources, ups),
    }
}

// ---------------------------------------------------------------------------
// Segment helpers
// ---------------------------------------------------------------------------

/// Whether `p`'s segments begin `k`'s.
pub fn is_segment_prefix(p: &Vec<String>, k: &Vec<String>) -> (r: bool)
    ensures
        r == segments_prefix(strs_view(p@), strs_view(k@)),
{
    let n = p.len();
    if n > k.len() {
        return false;
    }
    let mut i: usize = 0;
    while i < n
        invariant
            n == p@.len(),
            n <= k@.len(),
            i <= n,
            forall|j: int| 0 <= j < i ==> p@[j]@ == k@[j]@,
        decreases n - i,
    {
        if p[i] != k[i] {
            assert(strs_view(k@).take(n as int)[i as int] != strs_view(p@)[i as int]);
            return false;
        }
        i = i + 1;
    }
    assert(strs_view(k@).take(n as int) =~= strs_view(p@));
    true
}

/// Whether every segment is non-empty (and there is at least one).
fn segments_valid(p: &Vec<String>) -> (r: bool)
    ensures
        r == valid_segments(strs_view(p@)),
{
    if p.len() == 0 {
        return false;
    }
    let mut i: usize = 0;
    while i < p.len()
        invariant
            i <= p@.len(),
            forall|j: int| 0 <= j < i ==> p@[j]@.len() > 0,
        decreases p.len() - i,
    {
        if p[i].as_str().is_empty() {
            assert(strs_view(p@)[i as int].len() == 0);
            return false;
        }
        i = i + 1;
    }
    assert forall|j: int| 0 <= j < strs_view(p@).len() implies (#[trigger] strs_view(p@)[j]).len()
        > 0 by {
        assert(strs_view(p@)[j] == p@[j]@);
    }
    true
}

/// Copies a list of strings.
fn copy_strings(v: &Vec<String>) -> (r: Vec<String>)
    ensures
        strs_view(r@) == strs_view(v@),
{
    let mut out: Vec<String> = Vec::new();
    let mut i: usize = 0;
    while i < v.len()
        invariant
            i <= v@.len(),
            strs_view(out@) == strs_view(v@).take(i as int),
        decreases v.len() - i,
    {
        let ghost before = out@;
        out.push(v[i].clone());
        assert(strs_view(out@) =~= strs_view(before).push(v@[i as int]@));
        assert(strs_view(v@).take(i as int + 1) =~= strs_view(v@).take(i as int).push(v@[i as int]@));
        i = i + 1;
    }
    assert(strs_view(v@).take(v@.len() as int) =~= strs_view(v@));
    out
}

/// Appends the second list of strings to a copy of the first.
fn concat_strings(a: &Vec<String>, b: &Vec<String>) -> (r: Vec<String>)
    ensures
        strs_view(r@) == strs_view(a@) + strs_view(b@),
{
    let mut out = copy_strings(a);
    let mut i: usize = 0;
    while i < b.len()
        invariant
            i <= b@.len(),
            strs_view(out@) == strs_view(a@) + strs_view(b@).take(i as int),
        decreases b.len() - i,
    {
        let ghost before = out@;
        out.push(b[i].clone());
        assert(strs_view(out@) =~= strs_view(before).push(b@[i as int]@));
        assert(strs_view(b@).take(i as int + 1) =~= strs_view(b@).take(i as int).push(b@[i as int]@));
        assert(strs_view(a@) + strs_view(b@).take(i as int + 1) =~= (strs_view(a@) + strs_view(
            b@,
        ).take(i as int)).push(b@[i as int]@));
        i = i + 1;
    }
    assert(strs_view(b@).take(b@.len() as int) =~= strs_view(b@));
    out
}

impl StoredValue {
    /// A copy of this value.
    pub fn copy(&self) -> (r: Self)
        ensures
            r@ == self@,
    {
        let mut values: Vec<SourceValue> = Vec::new();
        let mut i: usize = 0;
        while i < self.values.len()
            invariant
                i <= self.values@.len(),
                readings_view(values@) == readings_view(self.values@).take(i as int),
            decreases self.values.len() - i,
        {
            let v = &self.values[i];
            let c = SourceValue {
                source_ref: v.source_ref.clone(),
                value: v.value.clone(),
                timestamp: copy_opt(&v.timestamp),
            };
            let ghost before = values@;
            values.push(c);
            assert(readings_view(values@) =~= readings_view(before).push(source_value_view(*v)));
            assert(readings_view(self.values@).take(i as int + 1) =~= readings_view(
                self.values@,
            ).take(i as int).push(source_value_view(*v)));
            i = i + 1;
        }
        assert(readings_view(self.values@).take(self.values@.len() as int) =~= readings_view(
            self.values@,
        ));
        StoredValue {
            value: self.value.clone(),
            source_ref: copy_opt(&self.source_ref),
            timestamp: copy_opt(&self.timestamp),
            values,
        }
    }
}

/// The stored value after writing `value` from `source` at `timestamp` over
/// `prior`: the readings of other sources are kept.
fn stored_after_exec(
    prior: Option<StoredValue>,
    value: &serde_json::Value,
    source: &Option<String>,
    timestamp: &Option<String>,
) -> (r: StoredValue)
    ensures
        r@ == stored_after(
            match prior {
                Some(p) => Some(p@),
                None => None,
            },
            Write { path: Seq::empty(), value: *value, source: opt_view(*source), timestamp: opt_view(*timestamp) },
        ),
{
    let mut kept: Vec<SourceValue> = match prior {
        Some(p) => p.values,
        None => Vec::new(),
    };
    let ghost prior_values = assoc(readings_view(kept@));
    match source {
        Some(s) => {
            let mut out: Vec<SourceValue> = Vec::new();
            let mut i: usize = 0;
            while i < kept.len()
                invariant
                    i <= kept@.len(),
                    prior_values == assoc(readings_view(kept@)),
                    assoc(readings_view(out@)) == Map::new(
                        |k: Seq<char>| assoc(readings_view(kept@.take(i as int))).contains_key(k) && k != s@,
                        |k: Seq<char>| assoc(readings_view(kept@.take(i as int)))[k],
                    ),
                decreases kept.len() - i,
            {
                let ghost pre = kept@.take(i as int);
                assert(kept@.take(i as int + 1) =~= pre.push(kept@[i as int]));
                assert(readings_view(kept@.take(i as int + 1)) =~= readings_view(pre).push(
                    source_value_view(kept@[i as int]),
                ));
                assert(readings_view(pre.push(kept@[i as int])).drop_last() =~= readings_view(pre));
                if kept[i].source_ref != *s {
                    let ghost before = out@;
                    let e = SourceValue {
                        source_ref: kept[i].source_ref.clone(),
                        value: kept[i].value.clone(),
                        timestamp: copy_opt(&kept[i].timestamp),
                    };
                    out.push(e);
                    assert(readings_view(out@) =~= readings_view(before).push(
                        source_value_view(kept@[i as int]),
                    ));
                    assert(readings_view(out@).drop_last() =~= readings_view(before));
                }
                assert(assoc(readings_view(out@)) =~= Map::new(
                    |k: Seq<char>| assoc(readings_view(kept@.take(i as int + 1))).contains_key(k) && k != s@,
                    |k: Seq<char>| assoc(readings_view(kept@.take(i as int + 1)))[k],
                ));
                i = i + 1;
            }
            assert(kept@.take(kept@.len() as int) =~= kept@);
            let ghost before = out@;
            out.push(SourceValue { source_ref: s.clone(), value: value.clone(), timestamp: copy_opt(timestamp) });
            assert(readings_view(out@).drop_last() =~= readings_view(before));
            assert(assoc(readings_view(out@)) =~= prior_values.insert(
                s@,
                Reading { value: *value, timestamp: opt_view(*timestamp) },
            ));
            StoredValue { value: value.clone(), source_ref: Some(s.clone()), timestamp: copy_opt(timestamp), values: out }
        },
        None => {
            StoredValue { value: value.clone(), source_ref: None, timestamp: copy_opt(timestamp), values: kept }
        },
    }
}


/// Splits a source key at its first dot into label and qualifier.
fn split_source_ref(r: &str) -> (res: (String, Option<String>))
    ensures
        res.0@ == source_label(r@),
        opt_view(res.1) == source_qualifier(r@),
{
    let n = r.unicode_len();
    let k = find_char(r, '.');
    let label = r.substring_char(0, k).to_owned();
    assert(label@ =~= r@.take(k as int));
    if k < n {
        (label, Some(r.substring_char(k + 1, n).to_owned()))
    } else {
        (label, None)
    }
}

/// What a path addresses in the store: a leaf, or the leaves below it.
#[derive(Debug, Clone, PartialEq)]
pub enum PathNode {
    /// The leaf at the path.
    Value(StoredValue),
    /// The leaves below the path, with paths relative to it.
    Subtree(Vec<Leaf>),
}

/// What a path addresses, as a mathematical value.
pub ghost enum NodeView {
    Value(StoredView),
    Subtree(Map<Seq<Seq<char>>, StoredView>),
}

pub open spec fn node_view(n: PathNode) -> NodeView {
    match n {
        PathNode::Value(v) => NodeView::Value(v@),
        PathNode::Subtree(ls) => NodeView::Subtree(assoc(leaves_view(ls@))),
    }
}

pub open spec fn opt_node_view(n: Option<PathNode>) -> Option<NodeView> {
    match n {
        Some(x) => Some(node_view(x)),
        None => None,
    }
}

/// The leaves strictly below `p`, keyed by their path relative to `p`.
pub open spec fn subtree_of(m: Map<Seq<Seq<char>>, StoredView>, p: Seq<Seq<char>>) -> Map<
    Seq<Seq<char>>,
    StoredView,
> {
    Map::new(
        |rel: Seq<Seq<char>>| rel.len() > 0 && m.contains_key(p + rel),
        |rel: Seq<Seq<char>>| m[p + rel],
    )
}

/// What the path with segments `p` addresses: the leaf there; else the
/// leaves below it, when there are some or when `p` begins the store's own
/// vessel path (that vessel and `vessels` always exist); else nothing.
pub open spec fn node_at(s: StoreView, p: Seq<Seq<char>>) -> Option<NodeView> {
    if s.leaves.contains_key(p) {
        Some(NodeView::Value(s.leaves[p]))
    } else if subtree_of(s.leaves, p) != Map::<Seq<Seq<char>>, StoredView>::empty() || (p.len() > 0
        && segments_prefix(p, split_dots(s.self_urn))) {
        Some(NodeView::Subtree(subtree_of(s.leaves, p)))
    } else {
        None
    }
}

/// The number of leaves under `vessels`.
pub open spec fn vessel_leaf_count(s: StoreView) -> nat {
    s.leaves.dom().filter(|k: Seq<Seq<char>>| k.len() > 0 && k[0] == "vessels"@).len()
}

/// The Signal K state: the leaves of every context and the registered sources.
#[derive(Debug)]
pub struct MemoryStore {
    self_urn: String,
    leaves: Vec<Leaf>,
    sources: Vec<SourceEntry>,
}

impl View for MemoryStore {
    type V = StoreView;

    closed spec fn view(&self) -> StoreView {
        StoreView {
            self_urn: self.self_urn@,
            leaves: assoc(leaves_view(self.leaves@)),
            sources: assoc(sources_view(self.sources@)),
        }
    }
}

impl MemoryStore {
    #[verifier::type_invariant]
    spec fn inv(self) -> bool {
        keys_unique(leaves_view(self.leaves@))
    }

    /// The leaves in the order the store keeps them.
    pub closed spec fn leaf_seq(&self) -> Seq<(Seq<Seq<char>>, StoredView)> {
        leaves_view(self.leaves@)
    }

    /// An empty store for the vessel `self_urn` (as `vessels.urn:...`).
    pub fn new(self_urn: &str) -> (r: Self)
        ensures
            r@.self_urn == self_urn@,
            r@.leaves == Map::<Seq<Seq<char>>, StoredView>::empty(),
            r@.sources == Map::<Seq<char>, SourceView>::empty(),
    {
        let r = MemoryStore { self_urn: self_urn.to_owned(), leaves: Vec::new(), sources: Vec::new() };
        assert(leaves_view(r.leaves@) =~= Seq::empty());
        assert(sources_view(r.sources@) =~= Seq::empty());
        r
    }

    /// The store's own vessel, as `vessels.urn:...`.
    pub fn self_urn(&self) -> (r: &str)
        ensures
            r@ == self@.self_urn,
    {
        self.self_urn.as_str()
    }

    /// The Signal K version the store's model follows.
    pub fn version(&self) -> (r: String)
        ensures
            r@ == "1.7.0"@,
    {
        "1.7.0".to_owned()
    }

    /// The context a delta with this context applies to.
    fn resolve_context(&self, context: &Option<String>) -> (r: String)
        ensures
            r@ == resolve_context(self@.self_urn, opt_view(*context)),
    {
        match context {
            Some(c) => {
                if str_eq(c.as_str(), "vessels.self") {
                    proof {
                        reveal_strlit("vessels.self");
                    }
                    self.self_urn.clone()
                } else {
                    proof {
                        reveal_strlit("vessels.self");
                    }
                    c.clone()
                }
            },
            None => self.self_urn.clone(),
        }
    }

    /// Writes one value at a full path: the leaves above and below it go, and
    /// the leaf keeps the other sources' readings. A path with an empty segment
    /// is skipped.
    fn write(&mut self, p: Vec<String>, value: &serde_json::Value, source: &Option<String>, timestamp: &Option<String>)
        ensures
            final(self)@ == (StoreView {
                leaves: apply_write(
                    old(self)@.leaves,
                    Write { path: strs_view(p@), value: *value, source: opt_view(*source), timestamp: opt_view(*timestamp) },
                ),
                ..old(self)@
            }),
    {
        if !segments_valid(&p) {
            return;
        }
        proof {
            use_type_invariant(&*self);
        }
        let ghost pv = strs_view(p@);
        let ghost all = leaves_view(self.leaves@);
        let mut prior: Option<StoredValue> = None;
        let mut out: Vec<Leaf> = Vec::new();
        let mut i: usize = 0;
        while i < self.leaves.len()
            invariant
                pv == strs_view(p@),
                all == leaves_view(self.leaves@),
                i <= self.leaves@.len(),
                match prior {
                    Some(v) => assoc(all.take(i as int)).contains_key(pv) && assoc(all.take(i as int))[pv] == v@,
                    None => !assoc(all.take(i as int)).contains_key(pv),
                },
                assoc(leaves_view(out@)) == without_overlaps(assoc(all.take(i as int)), pv),
                keys_unique(all),
                keys_unique(leaves_view(out@)),
            decreases self.leaves.len() - i,
        {
            let l = &self.leaves[i];
            let ghost pre = all.take(i as int);
            assert(all.take(i as int + 1) =~= pre.push(leaf_view(*l)));
            assert(pre.push(leaf_view(*l)).drop_last() =~= pre);
            assert(pv.take(pv.len() as int) =~= pv);
            let below = is_segment_prefix(&p, &l.path);
            let above = is_segment_prefix(&l.path, &p);
            if below && above {
                assert(strs_view(l.path@) =~= pv);
                prior = Some(l.stored.copy());
            }
            if !below && !above {
                let ghost before = out@;
                proof {
                    assert forall|a: int| 0 <= a < leaves_view(before).len() implies leaves_view(before)[a].0 != leaf_view(*l).0 by {
                        lemma_assoc_has_key(leaves_view(before), a);
                        lemma_assoc_key(pre, leaves_view(before)[a].0);
                        let j = choose|j: int| 0 <= j < pre.len() && pre[j].0 == leaves_view(before)[a].0;
                        assert(pre[j] == all[j]);
                        assert(all[i as int] == leaf_view(*l));
                    }
                }
                out.push(Leaf { path: copy_strings(&l.path), stored: l.stored.copy() });
                assert(leaves_view(out@) =~= leaves_view(before).push(leaf_view(*l)));
                assert(leaves_view(out@).drop_last() =~= leaves_view(before));
            }
            assert(assoc(leaves_view(out@)) =~= without_overlaps(assoc(all.take(i as int + 1)), pv));
            i = i + 1;
        }
        assert(all.take(all.len() as int) =~= all);
        let stored = stored_after_exec(prior, value, source, timestamp);
        let ghost before = out@;
        proof {
            assert forall|a: int| 0 <= a < leaves_view(before).len() implies leaves_view(before)[a].0 != pv by {
                lemma_assoc_has_key(leaves_view(before), a);
                assert(pv.take(pv.len() as int) =~= pv);
            }
        }
        out.push(Leaf { path: p, stored });
        assert(leaves_view(out@).drop_last() =~= leaves_view(before));
        assert forall|a: int, b: int| 0 <= a < b < leaves_view(out@).len() implies leaves_view(out@)[a].0 != leaves_view(out@)[b].0 by {
            assert(leaves_view(out@)[a] == leaves_view(before)[a]);
            if b < leaves_view(before).len() {
                assert(leaves_view(out@)[b] == leaves_view(before)[b]);
            }
        }
        self.leaves = out;
        assert(assoc(leaves_view(self.leaves@)) =~= apply_write(
            assoc(all),
            Write { path: pv, value: *value, source: opt_view(*source), timestamp: opt_view(*timestamp) },
        ));
    }

    /// Registers the source of an update.
    fn register(&mut self, u: &Update)
        ensures
            final(self)@ == (StoreView { sources: register_source(old(self)@.sources, update_view(*u)), ..old(self)@ }),
    {
        let (label, qualifier) = match &u.source_ref {
            Some(r) => {
                let (l, q) = split_source_ref(r.as_str());
                (l, q)
            },
            None => match &u.source {
                Some(s) => (s.label.clone(), None),
                None => {
                    return;
                },
            },
        };
        proof {
            use_type_invariant(&*self);
        }
        let ghost uv = update_view(*u);
        let ghost all = sources_view(self.sources@);
        let mut found: Option<SourceEntry> = None;
        let mut out: Vec<SourceEntry> = Vec::new();
        let mut i: usize = 0;
        while i < self.sources.len()
            invariant
                all == sources_view(self.sources@),
                i <= self.sources@.len(),
                match found {
                    Some(e) => assoc(all.take(i as int)).contains_key(label@) && assoc(all.take(i as int))[label@] == source_entry_view(e).1 && e.label@ == label@,
                    None => !assoc(all.take(i as int)).contains_key(label@),
                },
                assoc(sources_view(out@)) == assoc(all.take(i as int)).remove(label@),
            decreases self.sources.len() - i,
        {
            let e = &self.sources[i];
            let ghost pre = all.take(i as int);
            assert(all.take(i as int + 1) =~= pre.push(source_entry_view(*e)));
            assert(pre.push(source_entry_view(*e)).drop_last() =~= pre);
            if e.label == label {
                found = Some(SourceEntry {
                    label: e.label.clone(),
                    source_type: copy_opt(&e.source_type),
                    qualifiers: copy_strings(&e.qualifiers),
                });
            } else {
                let ghost before = out@;
                out.push(SourceEntry {
                    label: e.label.clone(),
                    source_type: copy_opt(&e.source_type),
                    qualifiers: copy_strings(&e.qualifiers),
                });
                assert(sources_view(out@) =~= sources_view(before).push(source_entry_view(*e)));
                assert(sources_view(out@).drop_last() =~= sources_view(before));
            }
            assert(assoc(sources_view(out@)) =~= assoc(all.take(i as int + 1)).remove(label@));
            i = i + 1;
        }
        assert(all.take(all.len() as int) =~= all);
        let ghost old_map = assoc(all);
        let mut entry = match found {
            Some(e) => e,
            None => {
                let t = match &u.source {
                    Some(s) => copy_opt(&s.source_type),
                    None => None,
                };
                let e = SourceEntry { label: label.clone(), source_type: t, qualifiers: Vec::new() };
                assert(strs_view(e.qualifiers@).to_set() =~= Set::<Seq<char>>::empty());
                e
            },
        };
        let ghost created = if old_map.contains_key(label@) {
            old_map
        } else {
            old_map.insert(label@, SourceView { source_type: uv.source_type, qualifiers: Set::empty() })
        };
        assert(source_entry_view(entry).1 == created[label@]);
        match qualifier {
            Some(q) => {
                let mut present = false;
                let mut j: usize = 0;
                while j < entry.qualifiers.len()
                    invariant
                        j <= entry.qualifiers@.len(),
                        present <==> exists|k: int| 0 <= k < j && entry.qualifiers@[k]@ == q@,
                    decreases entry.qualifiers.len() - j,
                {
                    if entry.qualifiers[j] == q {
                        present = true;
                    }
                    j = j + 1;
                }
                let ghost qs = strs_view(entry.qualifiers@);
                if present {
                    proof {
                        let k = choose|k: int| 0 <= k < entry.qualifiers@.len() && entry.qualifiers@[k]@ == q@;
                        assert(qs[k] == q@);
                        assert(qs.to_set().insert(q@) =~= qs.to_set());
                    }
                } else {
                    let ghost before = entry.qualifiers@;
                    entry.qualifiers.push(q);
                    assert(strs_view(entry.qualifiers@) =~= strs_view(before).push(q@));
                    proof {
                        strs_view(before).lemma_push_to_set_commute(q@);
                    }
                }
            },
            None => {},
        }
        let ghost before = out@;
        out.push(entry);
        assert(sources_view(out@).drop_last() =~= sources_view(before));
        self.sources = out;
        assert(assoc(sources_view(self.sources@)) =~= register_source(old_map, uv));
    }

    /// Applies a delta: each update registers its source, then writes its
    /// values in order under the delta's context. A value whose full path has an
    /// empty segment is skipped.
    pub fn apply_delta(&mut self, delta: &Delta)
        ensures
            final(self)@ == apply_delta_spec(old(self)@, opt_view(delta.context), updates_view(*delta)),
    {
        let ctx_str = self.resolve_context(&delta.context);
        let ctx = split_path(ctx_str.as_str());
        let ghost ctxv = strs_view(ctx@);
        let ghost ups = updates_view(*delta);
        let ghost start = self@;
        let mut u: usize = 0;
        assert(ups.take(0) =~= Seq::<UpdateView>::empty());
        while u < delta.updates.len()
            invariant
                ctxv == strs_view(ctx@),
                ctxv == split_dots(resolve_context(start.self_urn, opt_view(delta.context))),
                ups == updates_view(*delta),
                u <= delta.updates@.len(),
                self@.self_urn == start.self_urn,
                self@.leaves == apply_writes(start.leaves, delta_writes(ctxv, ups.take(u as int))),
                self@.sources == register_sources(start.sources, ups.take(u as int)),
            decreases delta.updates.len() - u,
        {
            let up = &delta.updates[u];
            let ghost uv = update_view(*up);
            assert(ups[u as int] == uv);
            assert(ups.take(u as int + 1) =~= ups.take(u as int).push(uv));
            assert(ups.take(u as int).push(uv).drop_last() =~= ups.take(u as int));
            self.register(up);
            let ghost done = delta_writes(ctxv, ups.take(u as int));
            let ghost these = update_writes(ctxv, uv);
            let mut i: usize = 0;
            assert(done + these.take(0) =~= done);
            while i < up.values.len()
                invariant
                    ctxv == strs_view(ctx@),
                    uv == update_view(*up),
                    these == update_writes(ctxv, uv),
                    i <= up.values@.len(),
                    self@.self_urn == start.self_urn,
                    self@.leaves == apply_writes(start.leaves, done + these.take(i as int)),
                    self@.sources == register_sources(start.sources, ups.take(u as int + 1)),
                decreases up.values.len() - i,
            {
                let pv = &up.values[i];
                let rel = split_path(pv.path.as_str());
                let full = concat_strings(&ctx, &rel);
                self.write(full, &pv.value, &up.source_ref, &up.timestamp);
                assert(done + these.take(i as int + 1) =~= (done + these.take(i as int)).push(these[i as int]));
                assert((done + these.take(i as int)).push(these[i as int]).drop_last() =~= done + these.take(i as int));
                i = i + 1;
            }
            assert(these.take(up.values@.len() as int) =~= these);
            assert(delta_writes(ctxv, ups.take(u as int + 1)) == done + these);
            u = u + 1;
        }
        assert(ups.take(delta.updates@.len() as int) =~= ups);
    }
}


/// The segments of `v` from index `n` on.
fn drop_segments(v: &Vec<String>, n: usize) -> (r: Vec<String>)
    requires
        n <= v@.len(),
    ensures
        strs_view(r@) == strs_view(v@).subrange(n as int, v@.len() as int),
{
    let mut out: Vec<String> = Vec::new();
    let mut i: usize = n;
    while i < v.len()
        invariant
            n <= i <= v@.len(),
            strs_view(out@) == strs_view(v@).subrange(n as int, i as int),
        decreases v.len() - i,
    {
        let ghost before = out@;
        out.push(v[i].clone());
        assert(strs_view(out@) =~= strs_view(before).push(v@[i as int]@));
        assert(strs_view(v@).subrange(n as int, i as int + 1) =~= strs_view(v@).subrange(
            n as int,
            i as int,
        ).push(v@[i as int]@));
        i = i + 1;
    }
    out
}

impl MemoryStore {
    /// What the path with these segments addresses.
    fn node(&self, p: &Vec<String>) -> (r: Option<PathNode>)
        ensures
            opt_node_view(r) == node_at(self@, strs_view(p@)),
    {
        let ghost pv = strs_view(p@);
        let ghost all = leaves_view(self.leaves@);
        let mut found: Option<StoredValue> = None;
        let mut below: Vec<Leaf> = Vec::new();
        let mut i: usize = 0;
        while i < self.leaves.len()
            invariant
                pv == strs_view(p@),
                all == leaves_view(self.leaves@),
                i <= self.leaves@.len(),
                match found {
                    Some(v) => assoc(all.take(i as int)).contains_key(pv) && assoc(all.take(i as int))[pv] == v@,
                    None => !assoc(all.take(i as int)).contains_key(pv),
                },
                assoc(leaves_view(below@)) == subtree_of(assoc(all.take(i as int)), pv),
            decreases self.leaves.len() - i,
        {
            let l = &self.leaves[i];
            let ghost k = strs_view(l.path@);
            let ghost pre = all.take(i as int);
            assert(all.take(i as int + 1) =~= pre.push(leaf_view(*l)));
            assert(pre.push(leaf_view(*l)).drop_last() =~= pre);
            assert(pv.take(pv.len() as int) =~= pv);
            let under = is_segment_prefix(p, &l.path);
            let over = is_segment_prefix(&l.path, p);
            if under && over {
                assert(k =~= pv);
                found = Some(l.stored.copy());
            }
            if under && l.path.len() > p.len() {
                let rel = drop_segments(&l.path, p.len());
                let ghost before = below@;
                below.push(Leaf { path: rel, stored: l.stored.copy() });
                let ghost relv = k.subrange(pv.len() as int, k.len() as int);
                assert(pv + relv =~= k);
                assert(leaves_view(below@).drop_last() =~= leaves_view(before));
                assert forall|r: Seq<Seq<char>>| #[trigger] (pv + r) == k implies r == relv by {
                    assert(r =~= (pv + r).subrange(pv.len() as int, (pv + r).len() as int));
                }
            } else {
                assert forall|r: Seq<Seq<char>>| r.len() > 0 implies #[trigger] (pv + r) != k by {
                    if pv + r == k {
                        assert(k.take(pv.len() as int) =~= pv);
                    }
                }
            }
            assert(assoc(leaves_view(below@)) =~= subtree_of(assoc(all.take(i as int + 1)), pv));
            i = i + 1;
        }
        assert(all.take(all.len() as int) =~= all);
        match found {
            Some(v) => Some(PathNode::Value(v)),
            None => {
                if below.len() > 0 {
                    assert(assoc(leaves_view(below@)).contains_key(leaves_view(below@).last().0));
                    Some(PathNode::Subtree(below))
                } else {
                    assert(leaves_view(below@) =~= Seq::empty());
                    let own = split_path(self.self_urn.as_str());
                    if p.len() > 0 && is_segment_prefix(p, &own) {
                        Some(PathNode::Subtree(below))
                    } else {
                        None
                    }
                }
            },
        }
    }

    /// What an absolute dotted path addresses: a leaf, or the leaves below it.
    pub fn get_path(&self, path: &str) -> (r: Option<PathNode>)
        ensures
            opt_node_view(r) == node_at(self@, split_dots(path@)),
    {
        let p = split_path(path);
        self.node(&p)
    }

    /// What a path relative to the store's own vessel addresses.
    pub fn get_self_path(&self, path: &str) -> (r: Option<PathNode>)
        ensures
            opt_node_view(r) == node_at(self@, split_dots(self@.self_urn) + split_dots(path@)),
    {
        let own = split_path(self.self_urn.as_str());
        let rel = split_path(path);
        let p = concat_strings(&own, &rel);
        self.node(&p)
    }

    /// What a context addresses; `vessels.self` is the store's own vessel.
    pub fn get_context(&self, context: &str) -> (r: Option<PathNode>)
        ensures
            opt_node_view(r) == node_at(self@, split_dots(resolve_context(self@.self_urn, Some(context@)))),
    {
        let c = self.resolve_context(&Some(context.to_owned()));
        let p = split_path(c.as_str());
        self.node(&p)
    }

    /// Every registered source.
    pub fn get_sources(&self) -> (r: Vec<SourceEntry>)
        ensures
            assoc(sources_view(r@)) == self@.sources,
    {
        let mut out: Vec<SourceEntry> = Vec::new();
        let mut i: usize = 0;
        while i < self.sources.len()
            invariant
                i <= self.sources@.len(),
                sources_view(out@) == sources_view(self.sources@).take(i as int),
            decreases self.sources.len() - i,
        {
            let e = &self.sources[i];
            let ghost before = out@;
            out.push(SourceEntry {
                label: e.label.clone(),
                source_type: copy_opt(&e.source_type),
                qualifiers: copy_strings(&e.qualifiers),
            });
            assert(sources_view(out@) =~= sources_view(before).push(source_entry_view(*e)));
            assert(sources_view(self.sources@).take(i as int + 1) =~= sources_view(self.sources@).take(
                i as int,
            ).push(source_entry_view(*e)));
            i = i + 1;
        }
        assert(sources_view(self.sources@).take(self.sources@.len() as int) =~= sources_view(
            self.sources@,
        ));
        out
    }

    /// The whole model.
    pub fn full_model(&self) -> (r: &Self)
        ensures
            r@ == self@,
    {
        self
    }

    /// The number of leaves under `vessels`.
    pub fn path_count(&self) -> (r: usize)
        ensures
            r == vessel_leaf_count(self@),
    {
        proof {
            use_type_invariant(self);
            lemma_count_vessel_pairs(leaves_view(self.leaves@));
        }
        let ghost all = leaves_view(self.leaves@);
        let vessels = "vessels".to_owned();
        proof {
            reveal_strlit("vessels");
        }
        let mut n: usize = 0;
        let mut i: usize = 0;
        while i < self.leaves.len()
            invariant
                all == leaves_view(self.leaves@),
                vessels@ == "vessels"@,
                i <= self.leaves@.len(),
                n == count_vessel_pairs(all.take(i as int)),
                n <= i,
            decreases self.leaves.len() - i,
        {
            let l = &self.leaves[i];
            assert(all.take(i as int + 1).drop_last() =~= all.take(i as int));
            assert(all.take(i as int + 1).last() == leaf_view(*l));
            if l.path.len() > 0 && l.path[0] == vessels {
                n = n + 1;
            }
            i = i + 1;
        }
        assert(all.take(all.len() as int) =~= all);
        n
    }

    /// Every leaf, with its full path, in the order kept by the store.
    pub fn leaves(&self) -> (r: &[Leaf])
        ensures
            leaves_view(r@) == self.leaf_seq(),
            assoc(leaves_view(r@)) == self@.leaves,
            keys_unique(leaves_view(r@)),
    {
        proof {
            use_type_invariant(self);
        }
        self.leaves.as_slice()
    }
}

// ---------------------------------------------------------------------------
// Laws
// ---------------------------------------------------------------------------

/// A write survives the writes after it that are not at, above or below its path.
proof fn lemma_write_survives(m: Map<Seq<Seq<char>>, StoredView>, ws: Seq<Write>, j: int)
    requires
        0 <= j < ws.len(),
        valid_segments(ws[j].path),
        forall|k: int| j < k < ws.len() && valid_segments(#[trigger] ws[k].path) ==> !overlaps(ws[k].path, ws[j].path),
    ensures
        apply_writes(m, ws).contains_key(ws[j].path),
        apply_writes(m, ws)[ws[j].path].value == ws[j].value,
        apply_writes(m, ws)[ws[j].path].source == ws[j].source,
        apply_writes(m, ws)[ws[j].path].timestamp == ws[j].timestamp,
        ws[j].source matches Some(src) ==> apply_writes(m, ws)[ws[j].path].values.contains_key(src)
            && apply_writes(m, ws)[ws[j].path].values[src] == (Reading { value: ws[j].value, timestamp: ws[j].timestamp }),
    decreases ws.len(),
{
    let d = ws.drop_last();
    if j < ws.len() - 1 {
        assert forall|k: int| j < k < d.len() && valid_segments(#[trigger] d[k].path) implies !overlaps(d[k].path, d[j].path) by {
            assert(d[k] == ws[k]);
        }
        lemma_write_survives(m, d, j);
        let w = ws.last();
        if valid_segments(w.path) {
            assert(!overlaps(w.path, ws[j].path));
            assert(ws[j].path.take(ws[j].path.len() as int) =~= ws[j].path);
        }
    }
}

/// After a delta is applied, the full path of each of its values reads as that
/// value, with the update's source and timestamp, unless a later value of the
/// same delta was written at, above or below that path. A value whose full path
/// has an empty segment is skipped, so the law speaks of well-formed paths.
pub proof fn lemma_apply_then_read(s: StoreView, context: Option<Seq<char>>, ups: Seq<UpdateView>, j: int)
    requires
        0 <= j < delta_writes(split_dots(resolve_context(s.self_urn, context)), ups).len(),
        valid_segments(delta_writes(split_dots(resolve_context(s.self_urn, context)), ups)[j].path),
        forall|k: int|
            j < k < delta_writes(split_dots(resolve_context(s.self_urn, context)), ups).len()
                && valid_segments(#[trigger] delta_writes(split_dots(resolve_context(s.self_urn, context)), ups)[k].path)
                ==> !overlaps(
                delta_writes(split_dots(resolve_context(s.self_urn, context)), ups)[k].path,
                delta_writes(split_dots(resolve_context(s.self_urn, context)), ups)[j].path,
            ),
    ensures
        ({
            let w = delta_writes(split_dots(resolve_context(s.self_urn, context)), ups)[j];
            let after = apply_delta_spec(s, context, ups);
            &&& node_at(after, w.path) matches Some(NodeView::Value(v))
            &&& v.value == w.value
            &&& v.source == w.source
            &&& v.timestamp == w.timestamp
        }),
{
    let ws = delta_writes(split_dots(resolve_context(s.self_urn, context)), ups);
    lemma_write_survives(s.leaves, ws, j);
}

proof fn lemma_delta_writes_concat(ctx: Seq<Seq<char>>, a: Seq<UpdateView>, b: Seq<UpdateView>)
    ensures
        delta_writes(ctx, a + b) == delta_writes(ctx, a) + delta_writes(ctx, b),
    decreases b.len(),
{
    if b.len() == 0 {
        assert(a + b =~= a);
        assert(delta_writes(ctx, a) + Seq::<Write>::empty() =~= delta_writes(ctx, a));
    } else {
        lemma_delta_writes_concat(ctx, a, b.drop_last());
        assert((a + b).drop_last() =~= a + b.drop_last());
        assert((a + b).last() == b.last());
        assert(delta_writes(ctx, a) + delta_writes(ctx, b.drop_last()) + update_writes(ctx, b.last()) =~= delta_writes(
            ctx,
            a,
        ) + (delta_writes(ctx, b.drop_last()) + update_writes(ctx, b.last())));
    }
}

/// Where the write of value `i` of update `u` stands among a delta's writes.
pub open spec fn write_index(ctx: Seq<Seq<char>>, ups: Seq<UpdateView>, u: int, i: int) -> int {
    delta_writes(ctx, ups.take(u)).len() + i
}

/// The write of value `i` of update `u` is the one at `write_index`.
proof fn lemma_write_at(ctx: Seq<Seq<char>>, ups: Seq<UpdateView>, u: int, i: int)
    requires
        0 <= u < ups.len(),
        0 <= i < ups[u].values.len(),
    ensures
        0 <= write_index(ctx, ups, u, i) < delta_writes(ctx, ups).len(),
        delta_writes(ctx, ups)[write_index(ctx, ups, u, i)] == (Write {
            path: ctx + split_dots(ups[u].values[i].0),
            value: ups[u].values[i].1,
            source: ups[u].source_ref,
            timestamp: ups[u].timestamp,
        }),
{
    let head = ups.take(u);
    let tail = ups.subrange(u + 1, ups.len() as int);
    assert(ups =~= head.push(ups[u]) + tail);
    lemma_delta_writes_concat(ctx, head.push(ups[u]), tail);
    assert(head.push(ups[u]).drop_last() =~= head);
    let dw = delta_writes(ctx, ups);
    let pre = delta_writes(ctx, head);
    let mid = update_writes(ctx, ups[u]);
    assert(dw == pre + mid + delta_writes(ctx, tail));
    assert(dw[pre.len() + i] == mid[i]);
}

/// After a delta is applied, `get_path` on the resolved context, a dot and
/// a value's path reads that value with the update's source and timestamp,
/// unless a later value of the delta was written at, above or below it. A
/// value whose full path has an empty segment is skipped, so the law speaks
/// of well-formed paths.
pub proof fn lemma_apply_then_get_path(s: StoreView, context: Option<Seq<char>>, ups: Seq<UpdateView>, u: int, i: int)
    requires
        0 <= u < ups.len(),
        0 <= i < ups[u].values.len(),
        valid_segments(split_dots(resolve_context(s.self_urn, context)) + split_dots(ups[u].values[i].0)),
        forall|k: int|
            write_index(split_dots(resolve_context(s.self_urn, context)), ups, u, i) < k < delta_writes(
                split_dots(resolve_context(s.self_urn, context)),
                ups,
            ).len() && valid_segments(#[trigger] delta_writes(split_dots(resolve_context(s.self_urn, context)), ups)[k].path)
                ==> !overlaps(
                delta_writes(split_dots(resolve_context(s.self_urn, context)), ups)[k].path,
                split_dots(resolve_context(s.self_urn, context)) + split_dots(ups[u].values[i].0),
            ),
    ensures
        ({
            let after = apply_delta_spec(s, context, ups);
            let full = resolve_context(s.self_urn, context) + "."@ + ups[u].values[i].0;
            &&& node_at(after, split_dots(full)) matches Some(NodeView::Value(v))
            &&& v.value == ups[u].values[i].1
            &&& v.source == ups[u].source_ref
            &&& v.timestamp == ups[u].timestamp
        }),
{
    let ctx = split_dots(resolve_context(s.self_urn, context));
    lemma_write_at(ctx, ups, u, i);
    lemma_apply_then_read(s, context, ups, write_index(ctx, ups, u, i));
    crate::path::lemma_split_concat(resolve_context(s.self_urn, context), ups[u].values[i].0, '.');
    reveal_strlit(".");
    assert("."@ =~= seq!['.']);
}

/// Writes keep, at a path `p`, each source's latest reading there: the last
/// value and timestamp that source wrote at `p`, provided no write lands above
/// or below `p` (which would remove the leaf). Writes elsewhere do not matter.
pub proof fn lemma_sources_preserved(m: Map<Seq<Seq<char>>, StoredView>, ws: Seq<Write>, p: Seq<Seq<char>>, j: int)
    requires
        valid_segments(p),
        forall|k: int|
            0 <= k < ws.len() && valid_segments(#[trigger] ws[k].path) && overlaps(ws[k].path, p) ==> ws[k].path == p,
        0 <= j < ws.len(),
        ws[j].path == p,
        ws[j].source is Some,
        forall|k: int| j < k < ws.len() && (#[trigger] ws[k]).path == p ==> ws[k].source != ws[j].source,
    ensures
        apply_writes(m, ws).contains_key(p),
        apply_writes(m, ws)[p].values.contains_key(ws[j].source->Some_0),
        apply_writes(m, ws)[p].values[ws[j].source->Some_0] == (Reading {
            value: ws[j].value,
            timestamp: ws[j].timestamp,
        }),
    decreases ws.len(),
{
    let d = ws.drop_last();
    let w = ws.last();
    assert(w == ws[ws.len() - 1]);
    assert(p.take(p.len() as int) =~= p);
    if j < ws.len() - 1 {
        assert forall|k: int|
            0 <= k < d.len() && valid_segments(#[trigger] d[k].path) && overlaps(d[k].path, p) implies d[k].path == p by {
            assert(d[k] == ws[k]);
        }
        assert forall|k: int| j < k < d.len() && (#[trigger] d[k]).path == p implies d[k].source != d[j].source by {
            assert(d[k] == ws[k]);
        }
        lemma_sources_preserved(m, d, p, j);
        if valid_segments(w.path) && w.path != p {
            assert(!overlaps(w.path, p));
        }
    }
}

/// A delta for `vessels.self` changes the store exactly as the same delta for
/// the store's own vessel does.
pub proof fn lemma_self_resolution(s: StoreView, ups: Seq<UpdateView>)
    ensures
        apply_delta_spec(s, Some("vessels.self"@), ups) == apply_delta_spec(s, Some(s.self_urn), ups),
        apply_delta_spec(s, None, ups) == apply_delta_spec(s, Some(s.self_urn), ups),
{
}

/// A delta as the store sees it: its context and its updates.
pub ghost struct DeltaInput {
    pub context: Option<Seq<char>>,
    pub updates: Seq<UpdateView>,
}

/// The store after a list of deltas, in order.
pub open spec fn apply_deltas(s: StoreView, ds: Seq<DeltaInput>) -> StoreView
    decreases ds.len(),
{
    if ds.len() == 0 {
        s
    } else {
        let before = apply_deltas(s, ds.drop_last());
        apply_delta_spec(before, ds.last().context, ds.last().updates)
    }
}

/// The writes of a list of deltas, in order.
pub open spec fn deltas_writes(self_urn: Seq<char>, ds: Seq<DeltaInput>) -> Seq<Write>
    decreases ds.len(),
{
    if ds.len() == 0 {
        Seq::empty()
    } else {
        deltas_writes(self_urn, ds.drop_last()) + delta_writes(
            split_dots(resolve_context(self_urn, ds.last().context)),
            ds.last().updates,
        )
    }
}

proof fn lemma_apply_writes_concat(m: Map<Seq<Seq<char>>, StoredView>, a: Seq<Write>, b: Seq<Write>)
    ensures
        apply_writes(apply_writes(m, a), b) == apply_writes(m, a + b),
    decreases b.len(),
{
    if b.len() == 0 {
        assert(a + b =~= a);
    } else {
        lemma_apply_writes_concat(m, a, b.drop_last());
        assert((a + b).drop_last() =~= a + b.drop_last());
        assert((a + b).last() == b.last());
    }
}

/// Applying deltas one after another writes their values in order.
pub proof fn lemma_apply_deltas(s: StoreView, ds: Seq<DeltaInput>)
    ensures
        apply_deltas(s, ds).self_urn == s.self_urn,
        apply_deltas(s, ds).leaves == apply_writes(s.leaves, deltas_writes(s.self_urn, ds)),
    decreases ds.len(),
{
    if ds.len() > 0 {
        lemma_apply_deltas(s, ds.drop_last());
        let before = apply_deltas(s, ds.drop_last());
        lemma_apply_writes_concat(
            s.leaves,
            deltas_writes(s.self_urn, ds.drop_last()),
            delta_writes(split_dots(resolve_context(s.self_urn, ds.last().context)), ds.last().updates),
        );
    }
}

/// After a sequence of deltas, a path `p` holds, for each source that wrote
/// it, that source's latest value and timestamp there, provided no write of
/// the deltas lands above or below `p`. Writes to other paths may interleave.
pub proof fn lemma_deltas_keep_every_source(s: StoreView, ds: Seq<DeltaInput>, p: Seq<Seq<char>>, j: int)
    requires
        valid_segments(p),
        forall|k: int|
            0 <= k < deltas_writes(s.self_urn, ds).len() && valid_segments(#[trigger] deltas_writes(s.self_urn, ds)[k].path)
                && overlaps(deltas_writes(s.self_urn, ds)[k].path, p) ==> deltas_writes(s.self_urn, ds)[k].path == p,
        0 <= j < deltas_writes(s.self_urn, ds).len(),
        deltas_writes(s.self_urn, ds)[j].path == p,
        deltas_writes(s.self_urn, ds)[j].source is Some,
        forall|k: int|
            j < k < deltas_writes(s.self_urn, ds).len() && (#[trigger] deltas_writes(s.self_urn, ds)[k]).path == p
                ==> deltas_writes(s.self_urn, ds)[k].source != deltas_writes(s.self_urn, ds)[j].source,
    ensures
        ({
            let w = deltas_writes(s.self_urn, ds)[j];
            let after = apply_deltas(s, ds);
            &&& after.leaves.contains_key(p)
            &&& after.leaves[p].values.contains_key(w.source->Some_0)
            &&& after.leaves[p].values[w.source->Some_0] == (Reading { value: w.value, timestamp: w.timestamp })
        }),
{
    lemma_apply_deltas(s, ds);
    lemma_sources_preserved(s.leaves, deltas_writes(s.self_urn, ds), p, j);
}

/// After a sequence of deltas, the top-level value, source and timestamp of
/// a path are those of the last write to it, and that write's source holds
/// the same reading; provided no later write lands above or below the path.
pub proof fn lemma_deltas_primary_is_latest(s: StoreView, ds: Seq<DeltaInput>, j: int)
    requires
        0 <= j < deltas_writes(s.self_urn, ds).len(),
        valid_segments(deltas_writes(s.self_urn, ds)[j].path),
        forall|k: int|
            j < k < deltas_writes(s.self_urn, ds).len() && valid_segments(#[trigger] deltas_writes(s.self_urn, ds)[k].path)
                ==> !overlaps(deltas_writes(s.self_urn, ds)[k].path, deltas_writes(s.self_urn, ds)[j].path),
    ensures
        ({
            let w = deltas_writes(s.self_urn, ds)[j];
            let after = apply_deltas(s, ds);
            &&& after.leaves.contains_key(w.path)
            &&& after.leaves[w.path].value == w.value
            &&& after.leaves[w.path].source == w.source
            &&& after.leaves[w.path].timestamp == w.timestamp
            &&& (w.source matches Some(src) ==> after.leaves[w.path].values.contains_key(src)
                && after.leaves[w.path].values[src] == (Reading { value: w.value, timestamp: w.timestamp }))
        }),
{
    lemma_apply_deltas(s, ds);
    lemma_write_survives(s.leaves, deltas_writes(s.self_urn, ds), j);
}

} // verus!
