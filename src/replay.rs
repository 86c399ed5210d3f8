//! The cached values a client is sent when it connects: every leaf below
//! the store's own vessel whose relative path the client's subscription
//! accepts, in one delta for `vessels.self`.
use vstd::prelude::*;
use crate::model::{copy_opt, opt_view, path_value_view, Delta, DeltaView, PathValue, Update};
use crate::path::{join_by, join_text, segments_prefix, split_dots, split_path, strs_view};
use crate::store::{is_segment_prefix, leaf_view, leaves_view, MemoryStore, StoredView};

verus! {

broadcast use vstd::string::group_string_axioms;

/// Whether the full path `k` lies strictly below the own vessel path.
pub open spec fn below_own(own: Seq<Seq<char>>, k: Seq<Seq<char>>) -> bool {
    segments_prefix(own, k) && k.len() > own.len()
}

/// The dotted path of `k` relative to the own vessel.
pub open spec fn relative_path(own: Seq<Seq<char>>, k: Seq<Seq<char>>) -> Seq<char> {
    join_by(k.subrange(own.len() as int, k.len() as int), '.')
}

/// Whether the leaf at `k` is replayed: it lies below the own vessel and
/// `keep` accepts its relative path.
pub open spec fn replayed(keep: spec_fn(Seq<char>) -> bool, own: Seq<Seq<char>>, k: Seq<Seq<char>>) -> bool {
    below_own(own, k) && keep(relative_path(own, k))
}

/// The replayed values, in the order of the leaves: each relative path with
/// its current value.
pub open spec fn cached_values(keep: spec_fn(Seq<char>) -> bool, own: Seq<Seq<char>>, ls: Seq<(Seq<Seq<char>>, StoredView)>) -> Seq<(Seq<char>, serde_json::Value)>
    decreases ls.len(),
{
    if ls.len() == 0 {
        Seq::empty()
    } else {
        let rest = cached_values(keep, own, ls.drop_last());
        let (k, v) = ls.last();
        if replayed(keep, own, k) {
            rest.push((relative_path(own, k), v.value))
        } else {
            rest
        }
    }
}

/// The source of the first replayed leaf that has one.
pub open spec fn first_cached_source(keep: spec_fn(Seq<char>) -> bool, own: Seq<Seq<char>>, ls: Seq<(Seq<Seq<char>>, StoredView)>) -> Option<Seq<char>>
    decreases ls.len(),
{
    if ls.len() == 0 {
        None
    } else {
        match first_cached_source(keep, own, ls.drop_last()) {
            Some(x) => Some(x),
            None => if replayed(keep, own, ls.last().0) {
                ls.last().1.source
            } else {
                None
            },
        }
    }
}

/// The timestamp of the first replayed leaf that has one.
pub open spec fn first_cached_timestamp(keep: spec_fn(Seq<char>) -> bool, own: Seq<Seq<char>>, ls: Seq<(Seq<Seq<char>>, StoredView)>) -> Option<Seq<char>>
    decreases ls.len(),
{
    if ls.len() == 0 {
        None
    } else {
        match first_cached_timestamp(keep, own, ls.drop_last()) {
            Some(x) => Some(x),
            None => if replayed(keep, own, ls.last().0) {
                ls.last().1.timestamp
            } else {
                None
            },
        }
    }
}

/// Whether `r` is the cached-values delta: nothing when no value is
/// replayed; else one delta for `vessels.self` with one update holding the
/// replayed values, the first source and timestamp found, and no source
/// object or metadata.
pub open spec fn cached_delta_is(r: Option<Delta>, keep: spec_fn(Seq<char>) -> bool, own: Seq<Seq<char>>, ls: Seq<(Seq<Seq<char>>, StoredView)>) -> bool {
    let vals = cached_values(keep, own, ls);
    match r {
        None => vals.len() == 0,
        Some(d) => {
            &&& vals.len() > 0
            &&& d@.context == Some("vessels.self"@)
            &&& d@.updates.len() == 1
            &&& d@.updates[0].values == vals
            &&& d@.updates[0].source_ref == first_cached_source(keep, own, ls)
            &&& d@.updates[0].timestamp == first_cached_timestamp(keep, own, ls)
            &&& d@.updates[0].source is None
            &&& d@.updates[0].meta is None
        },
    }
}

/// For each leaf of the store, in its order: the path relative to the own
/// vessel when the leaf lies below it.
pub fn cached_candidates(store: &MemoryStore) -> (r: Vec<Option<String>>)
    ensures
        r@.len() == store.leaf_seq().len(),
        forall|i: int|
            0 <= i < r@.len() ==> match #[trigger] r@[i] {
                Some(x) => below_own(split_dots(store@.self_urn), store.leaf_seq()[i].0) && x@ == relative_path(
                    split_dots(store@.self_urn),
                    store.leaf_seq()[i].0,
                ),
                None => !below_own(split_dots(store@.self_urn), store.leaf_seq()[i].0),
            },
{
    proof {
        reveal_strlit(".");
    }
    let own = split_path(store.self_urn());
    let leaves = store.leaves();
    let ghost ownv = strs_view(own@);
    let ghost ls = leaves_view(leaves@);
    let mut out: Vec<Option<String>> = Vec::new();
    let mut i: usize = 0;
    while i < leaves.len()
        invariant
            ownv == strs_view(own@),
            ownv == split_dots(store@.self_urn),
            ls == leaves_view(leaves@),
            ls == store.leaf_seq(),
            i <= leaves@.len(),
            out@.len() == i,
            forall|j: int|
                0 <= j < i ==> match #[trigger] out@[j] {
                    Some(x) => below_own(ownv, ls[j].0) && x@ == relative_path(ownv, ls[j].0),
                    None => !below_own(ownv, ls[j].0),
                },
        decreases leaves.len() - i,
    {
        proof {
            reveal_strlit(".");
        }
        let k = &leaves[i].path;
        assert(ls[i as int].0 == strs_view(k@));
        if k.len() > own.len() && is_segment_prefix(&own, k) {
            let rel = k.as_slice().split_at(own.len()).1;
            assert(rel@ =~= k@.subrange(own@.len() as int, k@.len() as int));
            assert(strs_view(rel@) =~= strs_view(k@).subrange(own@.len() as int, k@.len() as int));
            out.push(Some(join_text(rel, ".")));
        } else {
            out.push(None);
        }
        i = i + 1;
    }
    out
}

/// Builds the cached-values delta from the candidates that `mask` marks,
/// which are exactly those whose relative path `keep` accepts.
pub(crate) fn build_cached_delta(
    store: &MemoryStore,
    candidates: &Vec<Option<String>>,
    mask: &Vec<bool>,
    Ghost(keep): Ghost<spec_fn(Seq<char>) -> bool>,
) -> (r: Option<Delta>)
    requires
        candidates@.len() == store.leaf_seq().len(),
        mask@.len() == candidates@.len(),
        forall|i: int|
            0 <= i < candidates@.len() ==> match #[trigger] candidates@[i] {
                Some(x) => below_own(split_dots(store@.self_urn), store.leaf_seq()[i].0) && x@ == relative_path(
                    split_dots(store@.self_urn),
                    store.leaf_seq()[i].0,
                ),
                None => !below_own(split_dots(store@.self_urn), store.leaf_seq()[i].0),
            },
        forall|i: int| 0 <= i < mask@.len() ==> #[trigger] mask@[i] == (candidates@[i] matches Some(x) && keep(x@)),
    ensures
        cached_delta_is(r, keep, split_dots(store@.self_urn), store.leaf_seq()),
{
    let leaves = store.leaves();
    let ghost own = split_dots(store@.self_urn);
    let ghost ls = store.leaf_seq();
    let mut values: Vec<PathValue> = Vec::new();
    let mut source_ref: Option<String> = None;
    let mut timestamp: Option<String> = None;
    let mut i: usize = 0;
    assert(ls.take(0) =~= Seq::<(Seq<Seq<char>>, StoredView)>::empty());
    while i < leaves.len()
        invariant
            own == split_dots(store@.self_urn),
            ls == store.leaf_seq(),
            ls == leaves_view(leaves@),
            candidates@.len() == ls.len(),
            mask@.len() == ls.len(),
            forall|i: int|
                0 <= i < candidates@.len() ==> match #[trigger] candidates@[i] {
                    Some(x) => below_own(own, ls[i].0) && x@ == relative_path(own, ls[i].0),
                    None => !below_own(own, ls[i].0),
                },
            forall|i: int| 0 <= i < mask@.len() ==> #[trigger] mask@[i] == (candidates@[i] matches Some(x) && keep(x@)),
            i <= leaves@.len(),
            values@.map_values(|pv: PathValue| path_value_view(pv)) == cached_values(keep, own, ls.take(i as int)),
            opt_view(source_ref) == first_cached_source(keep, own, ls.take(i as int)),
            opt_view(timestamp) == first_cached_timestamp(keep, own, ls.take(i as int)),
        decreases leaves.len() - i,
    {
        let l = &leaves[i];
        assert(ls.take(i as int + 1).drop_last() =~= ls.take(i as int));
        assert(ls.take(i as int + 1).last() == leaf_view(*l));
        assert(ls[i as int] == leaf_view(*l));
        if mask[i] {
            match &candidates[i] {
                Some(rel_path) => {
                    let ghost before = values@;
                    values.push(PathValue { path: rel_path.clone(), value: l.stored.value.clone() });
                    assert(values@.map_values(|pv: PathValue| path_value_view(pv)) =~= before.map_values(
                        |pv: PathValue| path_value_view(pv),
                    ).push((relative_path(own, ls[i as int].0), l.stored.value)));
                    if source_ref.is_none() {
                        source_ref = copy_opt(&l.stored.source_ref);
                    }
                    if timestamp.is_none() {
                        timestamp = copy_opt(&l.stored.timestamp);
                    }
                },
                None => {},
            }
        }
        i = i + 1;
    }
    assert(ls.take(leaves@.len() as int) =~= ls);
    if values.len() == 0 {
        return None;
    }
    let mut updates: Vec<Update> = Vec::new();
    updates.push(Update { source_ref, source: None, timestamp, values, meta: None });
    proof {
        reveal_strlit("vessels.self");
    }
    Some(Delta { context: Some("vessels.self".to_owned()), updates })
}

} // verus!
