//! Delayed tasks: each is due at a time, and once it has come due it is kept
//! for a while for its connection to take it, then dropped.
//!
//! Times are counted in nanoseconds on a monotonic clock that the caller
//! reads; durations in nanoseconds as well.
use vstd::prelude::*;
use std::collections::BTreeMap;
use vstd::std_specs::iter::IteratorSpec;
use vstd::std_specs::cmp::OrdSpec;

verus! {

broadcast use {vstd::std_specs::btree::group_btree_axioms, vstd::laws_cmp::group_laws_cmp};

/// Nanoseconds in a second.
pub const NANOS_PER_SEC: u64 = 1_000_000_000;

/// How long a due task is kept, unless `with_timeout` says otherwise.
pub const DEFAULT_TASK_TIMEOUT: u64 = 60 * NANOS_PER_SEC;

/// `k` is the least key of `m`.
pub open spec fn is_first_key<V>(m: Map<u64, V>, k: u64) -> bool {
    &&& m.contains_key(k)
    &&& forall|k2: u64| m.contains_key(k2) ==> k <= k2
}

fn first_key<V>(m: &BTreeMap<u64, V>) -> (r: Option<u64>)
    ensures
        r is None <==> m@.dom().is_empty(),
        r matches Some(k) ==> is_first_key(m@, k),
{
    let ghost s0 = m.keys().remaining();
    proof {
        vstd::std_specs::btree::axiom_spec_keys_iter(m);
        vstd::std_specs::btree::axiom_increasing_seq_meaning(s0);
        assert(vstd::std_specs::btree::increasing_seq(s0));
        assert(vstd::laws_cmp::obeys_cmp::<&u64>());
    }
    let mut r: Option<u64> = None;
    for k in iter: m.keys()
        invariant_except_break
            r is None,
            iter.index() == 0,
        invariant
            iter.seq() == s0,
        ensures
            r is None ==> iter.seq().len() == 0,
            r matches Some(k0) ==> iter.seq().len() > 0 && k0 == *iter.seq()[0],
    {
        r = Some(*k);
        break;
    }
    proof {
        let s = s0.unref();
        assert(s.len() == s0.len());
        assert(s.to_set() == m@.dom());
        if r is None {
            assert(s.len() == 0);
            assert(m@.dom() =~= Set::<u64>::empty());
        } else {
            let k0 = r.unwrap();
            assert(s[0] == k0);
            assert(s.contains(k0));
            assert forall|k2: u64| m@.contains_key(k2) implies k0 <= k2 by {
                assert(s.to_set().contains(k2));
                let j = choose|j: int| 0 <= j < s.len() && s[j] == k2;
                if j != 0 {
                    assert(0 < j < s0.len());
                    assert(OrdSpec::cmp_spec(&s0[0], &s0[j]) is Less);
                }
            }
        }
    }
    r
}

/// Takes out the entry with the least key, if it is less than `now`.
fn pop_first_before<V>(m: &mut BTreeMap<u64, V>, now: u64) -> (r: Option<(u64, V)>)
    ensures
        match r {
            Some((k, v)) => {
                &&& is_first_key(old(m)@, k)
                &&& k < now
                &&& old(m)@[k] == v
                &&& final(m)@ == old(m)@.remove(k)
            },
            None => {
                &&& final(m)@ == old(m)@
                &&& forall|k: u64| #[trigger] is_first_key(old(m)@, k) ==> now <= k
            },
        },
{
    match first_key(m) {
        Some(k) => {
            if now > k {
                match m.remove(&k) {
                    Some(v) => Some((k, v)),
                    None => None,
                }
            } else {
                None
            }
        },
        None => None,
    }
}

/// Adding a task under a fresh id and then taking it gives the task back and
/// leaves the table as it was.
pub proof fn law_add_then_take<A, F>(tasks: Map<u64, (A, F)>, id: u64, addr: A, f: F)
    requires
        !tasks.contains_key(id),
    ensures
        tasks.insert(id, (addr, f)).contains_key(id),
        tasks.insert(id, (addr, f))[id].1 == f,
        tasks.insert(id, (addr, f)).remove(id) =~= tasks,
{
}

/// No id in the tables is greater than `last`.
pub open spec fn ids_within<A, F>(
    tasks: Map<u64, (A, F)>,
    pending: Map<u64, u64>,
    expiring: Map<u64, u64>,
    last: u64,
) -> bool {
    &&& forall|id: u64| #[trigger] tasks.contains_key(id) ==> id <= last
    &&& forall|t: u64| #[trigger] pending.contains_key(t) ==> pending[t] <= last
    &&& forall|t: u64| #[trigger] expiring.contains_key(t) ==> expiring[t] <= last
}

/// Ids stay within the last one handed out when the tables keep their old
/// entries or gain ones within it.
proof fn lemma_ids_within<A, F>(
    old_tasks: Map<u64, (A, F)>,
    tasks: Map<u64, (A, F)>,
    old_pending: Map<u64, u64>,
    pending: Map<u64, u64>,
    old_expiring: Map<u64, u64>,
    expiring: Map<u64, u64>,
    old_last: u64,
    last: u64,
)
    requires
        ids_within(old_tasks, old_pending, old_expiring, old_last),
        old_last <= last,
        forall|i: u64| #[trigger] tasks.contains_key(i) ==> old_tasks.contains_key(i) || i <= last,
        forall|t: u64|
            #[trigger] pending.contains_key(t) ==> (old_pending.contains_key(t) && pending[t]
                == old_pending[t]) || pending[t] <= last,
        forall|t: u64|
            #[trigger] expiring.contains_key(t) ==> (old_expiring.contains_key(t) && expiring[t]
                == old_expiring[t]) || expiring[t] <= last,
    ensures
        ids_within(tasks, pending, expiring, last),
{
}

/// A finite set of keys holding `t` has a least key, no greater than `t`.
proof fn lemma_least_key(s: Set<u64>, t: u64)
    requires
        s.finite(),
        s.contains(t),
    ensures
        exists|k: u64| s.contains(k) && k <= t && forall|k2: u64| s.contains(k2) ==> k <= k2,
    decreases s.len(),
{
    let rest = s.remove(t);
    if rest.is_empty() {
        assert forall|k2: u64| s.contains(k2) implies t <= k2 by {
            if k2 != t {
                assert(rest.contains(k2));
            }
        }
    } else {
        let x = rest.choose();
        lemma_least_key(rest, x);
        let k = choose|k: u64| rest.contains(k) && k <= x && forall|k2: u64| rest.contains(k2) ==> k <= k2;
        if k < t {
            assert forall|k2: u64| s.contains(k2) implies k <= k2 by {
                if k2 != t {
                    assert(rest.contains(k2));
                }
            }
        } else {
            assert forall|k2: u64| s.contains(k2) implies t <= k2 by {
                if k2 != t {
                    assert(rest.contains(k2));
                }
            }
        }
    }
}

/// A pending task due before `now` is not passed over: the earliest pending
/// task is due no later than it, so each call of `get_taskaddr_from_time`
/// at `now` takes out one pending task, and until the one due at `t` is
/// taken out it stays pending with one pending task fewer; it is taken out
/// within as many calls as there are pending tasks.
pub proof fn law_due_task_not_passed_over(pending: Map<u64, u64>, t: u64, now: u64)
    requires
        pending.dom().finite(),
        pending.contains_key(t),
        t < now,
    ensures
        exists|t0: u64| #[trigger] is_first_key(pending, t0) && t0 <= t,
        forall|t0: u64|
            #[trigger] is_first_key(pending, t0) ==> {
                &&& t0 < now
                &&& pending.remove(t0).dom().len() == pending.dom().len() - 1
                &&& t0 != t ==> pending.remove(t0).contains_key(t) && pending.remove(t0)[t]
                    == pending[t]
            },
{
    lemma_least_key(pending.dom(), t);
    let k = choose|k: u64|
        pending.dom().contains(k) && k <= t && forall|k2: u64| pending.dom().contains(k2) ==> k
            <= k2;
    assert(is_first_key(pending, k));
    assert forall|t0: u64| #[trigger] is_first_key(pending, t0) implies {
        &&& t0 < now
        &&& pending.remove(t0).dom().len() == pending.dom().len() - 1
        &&& t0 != t ==> pending.remove(t0).contains_key(t) && pending.remove(t0)[t] == pending[t]
    } by {
        assert(pending.remove(t0).dom() =~= pending.dom().remove(t0));
    }
}

/// Delayed tasks of connections: each task belongs to a connection address
/// `A` and is run as `F`.
pub struct AfterFn<A, F> {
    no: u64,
    task_time_id: BTreeMap<u64, u64>,
    task_id_fn: BTreeMap<u64, (A, F)>,
    task_wait_delete: BTreeMap<u64, u64>,
    timeout: u64,
}

impl<A: Copy, F> AfterFn<A, F> {
    /// The last id handed out.
    pub closed spec fn last_id(&self) -> u64 {
        self.no
    }

    /// Due time of each pending task, to its id.
    pub closed spec fn pending(&self) -> Map<u64, u64> {
        self.task_time_id@
    }

    /// Each task not yet taken or dropped, by id.
    pub closed spec fn tasks(&self) -> Map<u64, (A, F)> {
        self.task_id_fn@
    }

    /// Time at which each due task is dropped, to its id.
    pub closed spec fn expiring(&self) -> Map<u64, u64> {
        self.task_wait_delete@
    }

    /// How long a due task is kept.
    pub closed spec fn timeout(&self) -> u64 {
        self.timeout
    }

    /// No id in use is greater than the last one handed out, and finitely
    /// many tasks are pending.
    pub open spec fn wf(&self) -> bool {
        &&& ids_within(self.tasks(), self.pending(), self.expiring(), self.last_id())
        &&& self.pending().dom().finite()
    }

    /// Whether another id can be handed out.
    pub fn can_add(&self) -> (r: bool)
        ensures
            r == (self.last_id() < u64::MAX),
    {
        self.no < u64::MAX
    }

    /// How long a due task is kept.
    pub fn timeout_value(&self) -> (r: u64)
        ensures
            r == self.timeout(),
    {
        self.timeout
    }

    /// No tasks; due tasks are kept for 60 seconds.
    pub fn new() -> (r: AfterFn<A, F>)
        ensures
            r.wf(),
            r.last_id() == 0,
            r.pending() == Map::<u64, u64>::empty(),
            r.tasks() == Map::<u64, (A, F)>::empty(),
            r.expiring() == Map::<u64, u64>::empty(),
            r.timeout() == DEFAULT_TASK_TIMEOUT,
    {
        AfterFn {
            no: 0,
            task_time_id: BTreeMap::new(),
            task_id_fn: BTreeMap::new(),
            task_wait_delete: BTreeMap::new(),
            timeout: DEFAULT_TASK_TIMEOUT,
        }
    }

    /// Due tasks are kept for `timeout` nanoseconds.
    pub fn with_timeout(self, timeout: u64) -> (r: AfterFn<A, F>)
        ensures
            r.last_id() == self.last_id(),
            r.pending() == self.pending(),
            r.tasks() == self.tasks(),
            r.expiring() == self.expiring(),
            r.timeout() == timeout,
            self.wf() ==> r.wf(),
    {
        let mut s = self;
        s.timeout = timeout;
        s
    }

    /// Adds task `f` of connection `addr`, due `delay` after `now`, under the
    /// next id.
    pub fn add_fn(&mut self, addr: A, now: u64, delay: u64, f: F)
        requires
            old(self).wf(),
            old(self).last_id() < u64::MAX,
            now + delay <= u64::MAX,
        ensures
            final(self).wf(),
            final(self).last_id() == old(self).last_id() + 1,
            !old(self).tasks().contains_key(final(self).last_id()),
            final(self).pending() == old(self).pending().insert(
                (now + delay) as u64,
                final(self).last_id(),
            ),
            final(self).tasks() == old(self).tasks().insert(final(self).last_id(), (addr, f)),
            final(self).expiring() == old(self).expiring(),
            final(self).timeout() == old(self).timeout(),
    {
        self.no = self.no + 1;
        let id = self.no;
        self.task_time_id.insert(now + delay, id);
        self.task_id_fn.insert(id, (addr, f));
        proof {
            lemma_ids_within(
                old(self).tasks(),
                self.tasks(),
                old(self).pending(),
                self.pending(),
                old(self).expiring(),
                self.expiring(),
                old(self).last_id(),
                self.last_id(),
            );
        }
    }

    /// Once the earliest pending task is due before `now`, moves it to the due
    /// tasks, to be dropped `timeout` after `clock` (the time of the call),
    /// and gives its connection and id if it has not been taken yet.
    pub fn get_taskaddr_from_time(&mut self, now: u64, clock: u64) -> (r: Option<(A, u64)>)
        requires
            old(self).wf(),
            clock + old(self).timeout() <= u64::MAX,
        ensures
            final(self).wf(),
            final(self).last_id() == old(self).last_id(),
            final(self).tasks() == old(self).tasks(),
            final(self).timeout() == old(self).timeout(),
            (forall|t: u64| #[trigger] is_first_key(old(self).pending(), t) ==> now <= t) ==> {
                &&& r is None
                &&& final(self).pending() == old(self).pending()
                &&& final(self).expiring() == old(self).expiring()
            },
            forall|t: u64|
                #[trigger] is_first_key(old(self).pending(), t) && t < now ==> {
                    let id = old(self).pending()[t];
                    &&& final(self).pending() == old(self).pending().remove(t)
                    &&& final(self).expiring() == old(self).expiring().insert(
                        (clock + old(self).timeout()) as u64,
                        id,
                    )
                    &&& r == if old(self).tasks().contains_key(id) {
                        Some((old(self).tasks()[id].0, id))
                    } else {
                        None::<(A, u64)>
                    }
                },
    {
        let r = match pop_first_before(&mut self.task_time_id, now) {
            Some((t, id)) => {
                proof {
                    assert(old(self).pending().contains_key(t));
                    assert(id <= self.no);
                }
                self.task_wait_delete.insert(clock + self.timeout, id);
                match self.task_id_fn.get(&id) {
                    Some(entry) => Some((entry.0, id)),
                    None => None,
                }
            },
            None => None,
        };
        proof {
            lemma_ids_within(
                old(self).tasks(),
                self.tasks(),
                old(self).pending(),
                self.pending(),
                old(self).expiring(),
                self.expiring(),
                old(self).last_id(),
                self.last_id(),
            );
        }
        r
    }

    /// Once the earliest due task has been kept past its time before `now`,
    /// drops it.
    pub fn check_delete(&mut self, now: u64)
        requires
            old(self).wf(),
        ensures
            final(self).wf(),
            final(self).last_id() == old(self).last_id(),
            final(self).pending() == old(self).pending(),
            final(self).timeout() == old(self).timeout(),
            (forall|t: u64| #[trigger] is_first_key(old(self).expiring(), t) ==> now <= t) ==> {
                &&& final(self).expiring() == old(self).expiring()
                &&& final(self).tasks() == old(self).tasks()
            },
            forall|t: u64|
                #[trigger] is_first_key(old(self).expiring(), t) && t < now ==> {
                    &&& final(self).expiring() == old(self).expiring().remove(t)
                    &&& final(self).tasks() == old(self).tasks().remove(old(self).expiring()[t])
                },
    {
        match pop_first_before(&mut self.task_wait_delete, now) {
            Some((_t, id)) => {
                self.task_id_fn.remove(&id);
            },
            None => {},
        }
        proof {
            lemma_ids_within(
                old(self).tasks(),
                self.tasks(),
                old(self).pending(),
                self.pending(),
                old(self).expiring(),
                self.expiring(),
                old(self).last_id(),
                self.last_id(),
            );
        }
    }

    /// Takes the task with id `id`, if it is still there.
    pub fn remove_task(&mut self, id: u64) -> (r: Option<F>)
        requires
            old(self).wf(),
        ensures
            final(self).wf(),
            final(self).last_id() == old(self).last_id(),
            final(self).pending() == old(self).pending(),
            final(self).expiring() == old(self).expiring(),
            final(self).timeout() == old(self).timeout(),
            final(self).tasks() == old(self).tasks().remove(id),
            old(self).tasks().contains_key(id) ==> r == Some(old(self).tasks()[id].1),
            !old(self).tasks().contains_key(id) ==> r is None,
    {
        let r = match self.task_id_fn.remove(&id) {
            Some(entry) => Some(entry.1),
            None => None,
        };
        proof {
            lemma_ids_within(
                old(self).tasks(),
                self.tasks(),
                old(self).pending(),
                self.pending(),
                old(self).expiring(),
                self.expiring(),
                old(self).last_id(),
                self.last_id(),
            );
        }
        r
    }
}

} // verus!
