//! The fan-out broker: deltas are applied to the store one at a time, numbered
//! in that order, and queued for every open subscriber. A subscriber whose
//! queue is full loses its oldest queued delta and is counted as lagging.
use vstd::prelude::*;
use crate::model::{copy_meta, copy_opt, copy_source, opt_view, updates_view, update_full_view, path_value_view, Delta, DeltaView, PathValue, Update};
use crate::store::{apply_delta_spec, MemoryStore, StoreView};

verus! {

/// Copies a delta.
pub fn copy_delta(d: &Delta) -> (r: Delta)
    ensures
        r@ == d@,
        updates_view(r) == updates_view(*d),
{
    let mut updates: Vec<Update> = Vec::new();
    let mut u: usize = 0;
    while u < d.updates.len()
        invariant
            u <= d.updates@.len(),
            updates@.len() == u,
            forall|x: int| 0 <= x < u ==> update_full_view(#[trigger] updates@[x]) == update_full_view(d.updates@[x]),
            forall|x: int| 0 <= x < u ==> crate::model::update_view(#[trigger] updates@[x]) == crate::model::update_view(d.updates@[x]),
        decreases d.updates.len() - u,
    {
        let up = &d.updates[u];
        let mut values: Vec<PathValue> = Vec::new();
        let mut i: usize = 0;
        while i < up.values.len()
            invariant
                i <= up.values@.len(),
                values@.map_values(|pv: PathValue| path_value_view(pv)) == up.values@.map_values(|pv: PathValue| path_value_view(pv)).take(i as int),
            decreases up.values.len() - i,
        {
            let ghost before = values@;
            values.push(PathValue { path: up.values[i].path.clone(), value: up.values[i].value.clone() });
            assert(values@.map_values(|pv: PathValue| path_value_view(pv)) =~= before.map_values(|pv: PathValue| path_value_view(pv)).push(path_value_view(up.values@[i as int])));
            assert(up.values@.map_values(|pv: PathValue| path_value_view(pv)).take(i as int + 1) =~= up.values@.map_values(|pv: PathValue| path_value_view(pv)).take(i as int).push(path_value_view(up.values@[i as int])));
            i = i + 1;
        }
        assert(up.values@.map_values(|pv: PathValue| path_value_view(pv)).take(up.values@.len() as int) =~= up.values@.map_values(|pv: PathValue| path_value_view(pv)));
        let nu = Update {
            source_ref: copy_opt(&up.source_ref),
            source: match &up.source {
                Some(s) => Some(copy_source(s)),
                None => None,
            },
            timestamp: copy_opt(&up.timestamp),
            values,
            meta: match &up.meta {
                Some(m) => Some(copy_meta(m)),
                None => None,
            },
        };
        updates.push(nu);
        u = u + 1;
    }
    let r = Delta { context: copy_opt(&d.context), updates };
    assert(r@.updates =~= d@.updates);
    assert(updates_view(r) =~= updates_view(*d));
    r
}

/// A subscriber's queue as a mathematical value.
pub ghost struct QueueView {
    pub open: bool,
    pub queued: Seq<(u64, DeltaView)>,
    pub lagged: u64,
    pub last_delivered: Option<u64>,
}

/// The broker as a mathematical value.
pub ghost struct BrokerView {
    pub store: StoreView,
    pub next_seq: u64,
    pub capacity: nat,
    pub queues: Seq<QueueView>,
}

/// Whether a queue is in delivery order: its deltas' numbers increase, lie
/// below the next number to be given, and follow the last one delivered.
pub open spec fn queue_ordered(q: QueueView, next_seq: u64) -> bool {
    &&& forall|a: int, b: int| 0 <= a < b < q.queued.len() ==> q.queued[a].0 < q.queued[b].0
    &&& forall|a: int| 0 <= a < q.queued.len() ==> (#[trigger] q.queued[a]).0 < next_seq
    &&& match q.last_delivered {
        Some(l) => l < next_seq && forall|a: int| 0 <= a < q.queued.len() ==> l < (#[trigger] q.queued[a]).0,
        None => true,
    }
}

/// Every queue of the broker is in delivery order.
pub open spec fn broker_ordered(b: BrokerView) -> bool {
    forall|i: int| 0 <= i < b.queues.len() ==> queue_ordered(#[trigger] b.queues[i], b.next_seq)
}

/// One subscriber's queue.
#[derive(Debug)]
pub struct SubscriberQueue {
    open: bool,
    queued: Vec<(u64, Delta)>,
    lagged: u64,
    last_delivered: Option<u64>,
}

pub open spec fn queued_view(s: Seq<(u64, Delta)>) -> Seq<(u64, DeltaView)> {
    s.map_values(|e: (u64, Delta)| (e.0, e.1@))
}

impl View for SubscriberQueue {
    type V = QueueView;

    closed spec fn view(&self) -> QueueView {
        QueueView { open: self.open, queued: queued_view(self.queued@), lagged: self.lagged, last_delivered: self.last_delivered }
    }
}

/// The broker: the store, the next delta number and the subscribers' queues.
#[derive(Debug)]
pub struct FanoutBroker {
    store: MemoryStore,
    next_seq: u64,
    capacity: usize,
    queues: Vec<SubscriberQueue>,
}

pub open spec fn queues_view(s: Seq<SubscriberQueue>) -> Seq<QueueView> {
    s.map_values(|q: SubscriberQueue| q@)
}

impl View for FanoutBroker {
    type V = BrokerView;

    closed spec fn view(&self) -> BrokerView {
        BrokerView {
            store: self.store@,
            next_seq: self.next_seq,
            capacity: self.capacity as nat,
            queues: queues_view(self.queues@),
        }
    }
}

/// A queue after a delta numbered `seq` arrives: a closed queue stays as it
/// is; an open one that is full drops its oldest delta and counts the loss.
pub open spec fn enqueue(q: QueueView, capacity: nat, seq: u64, d: DeltaView) -> QueueView {
    if !q.open {
        q
    } else if q.queued.len() < capacity {
        QueueView { queued: q.queued.push((seq, d)), ..q }
    } else {
        QueueView { queued: q.queued.drop_first().push((seq, d)), lagged: q.lagged.wrapping_add(1), ..q }
    }
}

impl FanoutBroker {
    /// The queues are in delivery order and hold at least one delta.
    pub open spec fn wf(&self) -> bool {
        self@.capacity >= 1 && broker_ordered(self@)
    }

    /// A broker over `store` whose queues hold up to `capacity` deltas.
    pub fn new(store: MemoryStore, capacity: usize) -> (r: Self)
        requires
            capacity >= 1,
        ensures
            r@.store == store@,
            r@.next_seq == 0,
            r@.capacity == capacity,
            r@.queues == Seq::<QueueView>::empty(),
            r.wf(),
    {
        let r = FanoutBroker { store, next_seq: 0, capacity, queues: Vec::new() };
        assert(queues_view(r.queues@) =~= Seq::empty());
        r
    }

    /// The store, for reading.
    pub fn store(&self) -> (r: &MemoryStore)
        ensures
            r@ == self@.store,
    {
        &self.store
    }

    /// Gives up the broker and hands back its store.
    pub fn into_store(self) -> (r: MemoryStore)
        ensures
            r@ == self@.store,
    {
        self.store
    }

    /// The number the next delta will get.
    pub fn next_sequence(&self) -> (r: u64)
        ensures
            r == self@.next_seq,
    {
        self.next_seq
    }

    /// Adds a subscriber and returns its index.
    pub fn subscribe(&mut self) -> (r: usize)
        requires
            old(self).wf(),
        ensures
            final(self).wf(),
            r == old(self)@.queues.len(),
            final(self)@ == (BrokerView {
                queues: old(self)@.queues.push(QueueView { open: true, queued: Seq::empty(), lagged: 0, last_delivered: None }),
                ..old(self)@
            }),
    {
        let q = SubscriberQueue { open: true, queued: Vec::new(), lagged: 0, last_delivered: None };
        assert(queued_view(q.queued@) =~= Seq::empty());
        let ghost before = self.queues@;
        self.queues.push(q);
        assert(queues_view(self.queues@) =~= queues_view(before).push(q@));
        self.queues.len() - 1
    }

    /// Removes a subscriber whose channel has closed: its queue empties and
    /// receives nothing more.
    pub fn unsubscribe(&mut self, index: usize)
        requires
            old(self).wf(),
        ensures
            final(self).wf(),
            final(self)@ == (if index < old(self)@.queues.len() {
                BrokerView {
                    queues: old(self)@.queues.update(
                        index as int,
                        QueueView { open: false, queued: Seq::empty(), ..old(self)@.queues[index as int] },
                    ),
                    ..old(self)@
                }
            } else {
                old(self)@
            }),
    {
        if index < self.queues.len() {
            let ghost before = self.queues@;
            let mut q = self.queues.remove(index);
            q.open = false;
            q.queued = Vec::new();
            assert(queued_view(q.queued@) =~= Seq::empty());
            self.queues.insert(index, q);
            assert(queues_view(self.queues@) =~= queues_view(before).update(index as int, q@));
        }
    }

    /// Applies a delta to the store and, when it has updates, gives it the
    /// next number and queues it for every open subscriber.
    pub fn ingest(&mut self, delta: &Delta)
        requires
            old(self).wf(),
            old(self)@.next_seq < u64::MAX,
        ensures
            final(self).wf(),
            final(self)@.store == apply_delta_spec(old(self)@.store, opt_view(delta.context), updates_view(*delta)),
            final(self)@.capacity == old(self)@.capacity,
            delta.updates@.len() == 0 ==> final(self)@.queues == old(self)@.queues && final(self)@.next_seq == old(self)@.next_seq,
            delta.updates@.len() > 0 ==> final(self)@.next_seq == old(self)@.next_seq + 1,
            delta.updates@.len() > 0 ==> final(self)@.queues == old(self)@.queues.map_values(
                |q: QueueView| enqueue(q, old(self)@.capacity, old(self)@.next_seq, delta@),
            ),
            broker_ordered(final(self)@),
    {
        let ghost before_all = self@;
        self.store.apply_delta(delta);
        if delta.updates.len() == 0 {
            return;
        }
        let seq = self.next_seq;
        let ghost start = queues_view(self.queues@);
        let ghost cap = self.capacity as nat;
        let mut rest: Vec<SubscriberQueue> = Vec::new();
        core::mem::swap(&mut rest, &mut self.queues);
        assert(queues_view(rest@) == start);
        let mut out: Vec<SubscriberQueue> = Vec::new();
        let ghost n = rest@.len();
        assert forall|i: int| 0 <= i < start.len() implies queue_ordered(#[trigger] start[i], seq) by {
            assert(start[i] == before_all.queues[i]);
        }
        assert(start.subrange(0, n as int) =~= start);
        assert(start.take(0).map_values(|q: QueueView| enqueue(q, cap, seq, delta@)) =~= Seq::<QueueView>::empty());
        assert(queues_view(out@) =~= Seq::<QueueView>::empty());
        while rest.len() > 0
            invariant
                cap >= 1,
                seq < u64::MAX,
                rest@.len() <= n,
                n == start.len(),
                queues_view(rest@) == start.subrange(n - rest@.len(), n as int),
                queues_view(out@) == start.take(n - rest@.len()).map_values(|q: QueueView| enqueue(q, cap, seq, delta@)),
                forall|i: int| 0 <= i < start.len() ==> queue_ordered(#[trigger] start[i], seq),
                cap == self.capacity as nat,
            decreases rest@.len(),
        {
            let ghost k = n - rest@.len();
            let ghost old_rest = rest@;
            assert(queues_view(old_rest)[0] == old_rest[0]@);
            assert(start.subrange(n - old_rest.len(), n as int)[0] == start[k]);
            let mut q = rest.remove(0);
            assert(q@ == start[k]);
            assert(queues_view(rest@) =~= queues_view(old_rest).drop_first());
            let ghost old_q = q@;
            if q.open {
                if q.queued.len() >= self.capacity {
                    let ghost b = q.queued@;
                    q.queued.remove(0);
                    assert(queued_view(q.queued@) =~= queued_view(b).drop_first());
                    q.lagged = q.lagged.wrapping_add(1);
                }
                let ghost b2 = q.queued@;
                q.queued.push((seq, copy_delta(delta)));
                assert(queued_view(q.queued@) =~= queued_view(b2).push((seq, delta@)));
            }
            assert(q@ == enqueue(old_q, cap, seq, delta@));
            let ghost before = out@;
            out.push(q);
            assert(queues_view(out@) =~= queues_view(before).push(q@));
            assert(start.take(k + 1).map_values(|q: QueueView| enqueue(q, cap, seq, delta@)) =~= start.take(k).map_values(|q: QueueView| enqueue(q, cap, seq, delta@)).push(enqueue(start[k], cap, seq, delta@)));
            assert(queues_view(rest@) =~= start.subrange(n - rest@.len(), n as int));
        }
        assert(start.take(n as int) =~= start);
        self.queues = out;
        self.next_seq = seq + 1;
        proof {
            let after = queues_view(self.queues@);
            assert forall|i: int| 0 <= i < after.len() implies queue_ordered(#[trigger] after[i], (seq + 1) as u64) by {
                let q0 = start[i];
                assert(after[i] == enqueue(q0, cap, seq, delta@));
                assert(queue_ordered(q0, seq));
                if q0.open {
                    let qs = after[i].queued;
                    let base = if q0.queued.len() < cap { q0.queued } else { q0.queued.drop_first() };
                    assert(qs == base.push((seq, delta@)));
                    assert forall|a: int, b: int| 0 <= a < b < qs.len() implies qs[a].0 < qs[b].0 by {
                        if q0.queued.len() >= cap {
                            assert(base[a] == q0.queued[a + 1]);
                            if b < base.len() {
                                assert(base[b] == q0.queued[b + 1]);
                            }
                        }
                    }
                    assert forall|a: int| 0 <= a < qs.len() implies (#[trigger] qs[a]).0 < seq + 1 by {
                        if a < base.len() && q0.queued.len() >= cap {
                            assert(base[a] == q0.queued[a + 1]);
                        }
                    }
                    match q0.last_delivered {
                        Some(l) => {
                            assert forall|a: int| 0 <= a < qs.len() implies l < (#[trigger] qs[a]).0 by {
                                if a < base.len() && q0.queued.len() >= cap {
                                    assert(base[a] == q0.queued[a + 1]);
                                }
                            }
                        },
                        None => {},
                    }
                }
            }
        }
    }

    /// Takes the oldest queued delta of a subscriber, with its number. The
    /// numbers a subscriber receives increase: deltas arrive in the order
    /// they were applied.
    pub fn recv(&mut self, index: usize) -> (r: Option<(u64, Delta)>)
        requires
            old(self).wf(),
        ensures
            final(self).wf(),
            index >= old(self)@.queues.len() || old(self)@.queues[index as int].queued.len() == 0 ==> r is None && final(self)@ == old(self)@,
            index < old(self)@.queues.len() && old(self)@.queues[index as int].queued.len() > 0 ==> ({
                let q = old(self)@.queues[index as int];
                &&& r matches Some(e) && (e.0, e.1@) == q.queued[0]
                &&& (q.last_delivered matches Some(l) ==> l < q.queued[0].0)
                &&& final(self)@ == (BrokerView {
                    queues: old(self)@.queues.update(
                        index as int,
                        QueueView { queued: q.queued.drop_first(), last_delivered: Some(q.queued[0].0), ..q },
                    ),
                    ..old(self)@
                })
            }),
            broker_ordered(final(self)@),
    {
        if index >= self.queues.len() || self.queues[index].queued.len() == 0 {
            return None;
        }
        let ghost before = self.queues@;
        let ghost nq = self.next_seq;
        let mut q = self.queues.remove(index);
        assert(q@ == queues_view(before)[index as int]);
        let ghost qb = q.queued@;
        let (seq, d) = q.queued.remove(0);
        assert(queued_view(q.queued@) =~= queued_view(qb).drop_first());
        q.last_delivered = Some(seq);
        self.queues.insert(index, q);
        assert(queues_view(self.queues@) =~= queues_view(before).update(index as int, q@));
        proof {
            let after = queues_view(self.queues@);
            assert forall|i: int| 0 <= i < after.len() implies queue_ordered(#[trigger] after[i], nq) by {
                if i == index {
                    let q0 = queues_view(before)[i];
                    assert(queue_ordered(q0, nq));
                    assert forall|a: int, b: int| 0 <= a < b < after[i].queued.len() implies after[i].queued[a].0 < after[i].queued[b].0 by {
                        assert(after[i].queued[a] == q0.queued[a + 1]);
                        assert(after[i].queued[b] == q0.queued[b + 1]);
                    }
                    assert forall|a: int| 0 <= a < after[i].queued.len() implies seq < (#[trigger] after[i].queued[a]).0 by {
                        assert(after[i].queued[a] == q0.queued[a + 1]);
                    }
                } else {
                    assert(after[i] == queues_view(before)[i]);
                }
            }
        }
        Some((seq, d))
    }

    /// The number of deltas a subscriber has lost to a full queue.
    pub fn lagged(&self, index: usize) -> (r: u64)
        requires
            index < self@.queues.len(),
        ensures
            r == self@.queues[index as int].lagged,
    {
        proof {
            assert(self.queues@[index as int]@ == queues_view(self.queues@)[index as int]);
        }
        self.queues[index].lagged
    }
}

/// Deltas reach every subscriber in the order they were applied: in an
/// ordered broker, each queue holds its deltas in increasing number, all after
/// the last one delivered to it.
pub proof fn lemma_fanout_order(b: BrokerView, i: int, x: int, y: int)
    requires
        broker_ordered(b),
        0 <= i < b.queues.len(),
        0 <= x < y < b.queues[i].queued.len(),
    ensures
        b.queues[i].queued[x].0 < b.queues[i].queued[y].0,
        b.queues[i].last_delivered matches Some(l) ==> l < b.queues[i].queued[x].0,
{
    assert(queue_ordered(b.queues[i], b.next_seq));
}

} // verus!
