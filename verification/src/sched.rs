//! Timer schedule for sleeping tasks: a minimum-ordered structure keyed by
//! wake instant, drained by `poll` relative to the monotonic clock. A
//! cancelled task's record is retained in the ordered list but filtered on
//! pop via an alive set; when a popped record's task is no longer alive,
//! `poll` moves on to the next record.
//!
//! Instants are plain nanosecond counts of a monotonic clock.

use vstd::prelude::*;

verus! {

/// Progress of a task as the timer schedule sees it.
#[derive(Clone, Copy, Debug, PartialEq, Eq, Structural)]
pub enum Status {
    /// The task sleeps until the given instant.
    AsleepUntil(u64),
    /// The task has finished; it must not be scheduled again.
    Completed,
}

/// A sleeping task: an opaque identifier plus its status.
#[derive(Clone, Copy, Debug, PartialEq, Eq, Structural)]
pub struct Task {
    /// Opaque task identifier.
    pub id: u64,
    /// Current status.
    pub status: Status,
}

/// One entry of the wake queue: a wake instant and the task due then.
#[derive(Clone, Copy, Debug, PartialEq, Eq, Structural)]
pub struct Record {
    /// The instant the task should wake at.
    pub when: u64,
    /// The task due at that instant.
    pub tid: u64,
}

impl Record {
    /// Orders two records so that the *earlier* wake instant is the
    /// *greater*: a max-ordered container holding records in this order
    /// hands the earliest record out first.
    pub fn cmp(&self, other: &Record) -> (r: core::cmp::Ordering)
        ensures
            r is Equal <==> self.when == other.when,
            r is Greater <==> self.when < other.when,
            r is Less <==> self.when > other.when,
    {
        if self.when == other.when {
            core::cmp::Ordering::Equal
        } else if self.when < other.when {
            core::cmp::Ordering::Greater
        } else {
            core::cmp::Ordering::Less
        }
    }
}

/// What one `poll` does to a wake queue `recs` (sorted by `when`) and an
/// alive set, at instant `now`: due records of cancelled tasks are
/// discarded from the front; the earliest due record of a live task is
/// removed and its task returned. A task is due once its wake instant has
/// passed; while the head record is not yet due, nothing wakes.
pub open spec fn drain_spec(recs: Seq<Record>, alive: Set<u64>, now: u64) -> (Seq<
    Record,
>, Set<u64>, Option<u64>)
    decreases recs.len(),
{
    if recs.len() == 0 {
        (recs, alive, None)
    } else if recs[0].when > now {
        (recs, alive, None)
    } else if alive.contains(recs[0].tid) {
        (recs.drop_first(), alive.remove(recs[0].tid), Some(recs[0].tid))
    } else {
        drain_spec(recs.drop_first(), alive, now)
    }
}

/// Timer schedule: the wake queue, the alive set, and the last instant the
/// clock was advanced to.
pub struct Schedule {
    ids: Vec<u64>,
    queue: Vec<Record>,
    clock: Option<u64>,
}

impl Schedule {
    /// The wake queue, ordered by wake instant (stable for equal instants).
    pub closed spec fn records(self) -> Seq<Record> {
        self.queue@
    }

    /// Identifiers of the scheduled tasks that were not cancelled.
    pub closed spec fn alive(self) -> Set<u64> {
        self.ids@.to_set()
    }

    /// The monotonic clock's last seen instant.
    pub closed spec fn spec_clock(self) -> Option<u64> {
        self.clock
    }

    /// Structural soundness: the queue is sorted by wake instant and the
    /// alive set holds no duplicates.
    pub closed spec fn wf(self) -> bool {
        &&& forall|i: int, j: int|
            0 <= i < j < self.queue@.len() ==> (#[trigger] self.queue@[i]).when <= (
            #[trigger] self.queue@[j]).when
        &&& self.ids@.no_duplicates()
    }

    /// Creates an empty schedule with an unstarted clock.
    pub fn new() -> (r: Schedule)
        ensures
            r.wf(),
            r.records() == Seq::<Record>::empty(),
            r.alive() == Set::<u64>::empty(),
            r.spec_clock() is None,
    {
        let r = Schedule { ids: Vec::new(), queue: Vec::new(), clock: None };
        proof {
            assert(r.alive() =~= Set::<u64>::empty());
        }
        r
    }

    /// Enters a sleeping task into the schedule: its identifier joins the
    /// alive set and a record is placed into the wake queue behind every
    /// record due no later. A completed task must not be entered, so
    /// `requires` leaves it out.
    pub fn schedule(&mut self, t: &Task)
        requires
            old(self).wf(),
            t.status matches Status::AsleepUntil(_),
        ensures
            final(self).wf(),
            final(self).spec_clock() == old(self).spec_clock(),
            final(self).alive() == old(self).alive().insert(t.id),
            ({
                let when = t.status->AsleepUntil_0;
                let rec = Record { when, tid: t.id };
                exists|k: int|
                    {
                        &&& 0 <= k <= old(self).records().len()
                        &&& final(self).records() == old(self).records().take(k) + seq![rec]
                            + old(self).records().skip(k)
                        &&& forall|j: int|
                            0 <= j < k ==> (#[trigger] old(self).records()[j]).when <= when
                        &&& forall|j: int|
                            k <= j < old(self).records().len() ==> (
                            #[trigger] old(self).records()[j]).when > when
                    }
            }),
    {
        let when: u64 = match t.status {
            Status::AsleepUntil(w) => w,
            Status::Completed => { unreached() },
        };
        self.insert_id(t.id);
        let rec = Record { when, tid: t.id };
        let mut k: usize = 0;
        while k < self.queue.len() && self.queue[k].when <= when
            invariant
                k <= self.queue@.len(),
                forall|j: int| 0 <= j < k ==> (#[trigger] self.queue@[j]).when <= when,
            decreases self.queue@.len() - k,
        {
            k = k + 1;
        }
        proof {
            if k < self.queue@.len() {
                assert(self.queue@[k as int].when > when);
                assert forall|j: int| k <= j < self.queue@.len() implies (
                #[trigger] self.queue@[j]).when > when by {
                    assert(self.queue@[k as int].when <= self.queue@[j].when);
                }
            }
        }
        self.queue.insert(k, rec);
        proof {
            let ghost oldq = old(self).queue@;
            assert(self.queue@ =~= oldq.take(k as int) + seq![rec] + oldq.skip(k as int));
            assert forall|i: int, j: int| 0 <= i < j < self.queue@.len() implies (
            #[trigger] self.queue@[i]).when <= (#[trigger] self.queue@[j]).when by {
                if i < k && j > k {
                    assert(self.queue@[i] == oldq[i]);
                    assert(self.queue@[j] == oldq[j - 1]);
                }
            }
        }
    }

    /// Adds an identifier to the alive set, keeping it duplicate-free.
    fn insert_id(&mut self, id: u64)
        requires
            old(self).wf(),
        ensures
            final(self).wf(),
            final(self).alive() == old(self).alive().insert(id),
            final(self).records() == old(self).records(),
            final(self).spec_clock() == old(self).spec_clock(),
    {
        let mut i: usize = 0;
        while i < self.ids.len()
            invariant
                old(self).wf(),
                self == old(self),
                i <= self.ids@.len(),
                forall|j: int| 0 <= j < i ==> (#[trigger] self.ids@[j]) != id,
            decreases self.ids@.len() - i,
        {
            if self.ids[i] == id {
                proof {
                    assert(self.ids@.contains(id));
                    assert(self.alive().contains(id));
                    assert(final(self).alive() =~= old(self).alive().insert(id));
                }
                return ;
            }
            i = i + 1;
        }
        self.ids.push(id);
        proof {
            let ghost oldids = old(self).ids@;
            assert forall|x: u64| #[trigger] self.alive().contains(x) implies old(
                self,
            ).alive().insert(id).contains(x) by {
                let j = choose|j: int| 0 <= j < self.ids@.len() && self.ids@[j] == x;
                if j < oldids.len() {
                    assert(oldids[j] == x);
                    assert(oldids.contains(x));
                }
            }
            assert(self.ids@[self.ids@.len() - 1] == id);
            assert(self.ids@.contains(id));
            assert forall|x: u64| old(self).alive().insert(id).contains(x) implies (
            #[trigger] self.alive().contains(x)) by {
                if x == id {
                } else {
                    let j = choose|j: int| 0 <= j < oldids.len() && oldids[j] == x;
                    assert(self.ids@[j] == x);
                    assert(self.ids@.contains(x));
                }
            }
            assert(final(self).alive() =~= old(self).alive().insert(id));
            if oldids.contains(id) {
                let j = choose|j: int| 0 <= j < oldids.len() && oldids[j] == id;
                assert(false);
            }
        }
    }

    /// Cancels a scheduled task: its identifier leaves the alive set while
    /// its queue record stays behind, to be discarded when popped. Only a
    /// live identifier may be cancelled.
    pub fn cancel(&mut self, id: u64)
        requires
            old(self).wf(),
            old(self).alive().contains(id),
        ensures
            final(self).wf(),
            final(self).alive() == old(self).alive().remove(id),
            final(self).records() == old(self).records(),
            final(self).spec_clock() == old(self).spec_clock(),
    {
        let mut i: usize = 0;
        while i < self.ids.len()
            invariant
                old(self).wf(),
                old(self).alive().contains(id),
                self == old(self),
                i <= self.ids@.len(),
                forall|j: int| 0 <= j < i ==> (#[trigger] self.ids@[j]) != id,
            decreases self.ids@.len() - i,
        {
            if self.ids[i] == id {
                let ghost oldids = self.ids@;
                self.ids.remove(i);
                proof {
                    assert(self.ids@ =~= oldids.take(i as int) + oldids.skip(i as int + 1));
                    assert forall|x: u64| #[trigger] self.alive().contains(x) implies old(
                        self,
                    ).alive().remove(id).contains(x) by {
                        let j = choose|j: int| 0 <= j < self.ids@.len() && self.ids@[j] == x;
                        if j < i {
                            assert(oldids[j] == x);
                            assert(oldids.contains(x));
                            assert(x != id);
                        } else {
                            assert(oldids[j + 1] == x);
                            assert(oldids.contains(x));
                            assert(x != id);
                        }
                    }
                    assert forall|x: u64| old(self).alive().remove(id).contains(x) implies (
                    #[trigger] self.alive().contains(x)) by {
                        let j = choose|j: int| 0 <= j < oldids.len() && oldids[j] == x;
                        assert(j != i);
                        if j < i {
                            assert(self.ids@[j] == x);
                        } else {
                            assert(self.ids@[j - 1] == x);
                        }
                        assert(self.ids@.contains(x));
                    }
                    assert(final(self).alive() =~= old(self).alive().remove(id));
                }
                return ;
            }
            i = i + 1;
        }
        proof {
            let j = choose|j: int| 0 <= j < self.ids@.len() && self.ids@[j] == id;
            assert(false);
        }
    }

    /// Advances the monotonic clock. Time never runs backwards, so an
    /// instant before the clock's last one is left out by `requires`.
    pub fn advance_clock(&mut self, now: u64)
        requires
            old(self).wf(),
            old(self).spec_clock() matches Some(c) ==> c <= now,
        ensures
            final(self).wf(),
            final(self).spec_clock() == Some(now),
            final(self).records() == old(self).records(),
            final(self).alive() == old(self).alive(),
    {
        self.clock = Some(now);
    }

    /// Advances the clock, then pops the next due task: due records of
    /// cancelled tasks are discarded from the front of the queue; the
    /// earliest record whose instant has passed and whose task is alive
    /// leaves the queue and the alive set, and its task is returned.
    pub fn poll(&mut self, now: u64) -> (r: Option<u64>)
        requires
            old(self).wf(),
            old(self).spec_clock() matches Some(c) ==> c <= now,
        ensures
            final(self).wf(),
            final(self).spec_clock() == Some(now),
            ({
                let (recs, alive, res) = drain_spec(old(self).records(), old(self).alive(), now);
                final(self).records() == recs && final(self).alive() == alive && r == res
            }),
    {
        self.advance_clock(now);
        loop
            invariant
                self.wf(),
                self.spec_clock() == Some(now),
                drain_spec(self.records(), self.alive(), now) == drain_spec(
                    old(self).records(),
                    old(self).alive(),
                    now,
                ),
            decreases self.queue@.len(),
        {
            if self.queue.len() == 0 {
                return None;
            }
            let head = self.queue[0];
            if head.when > now {
                // The earliest record is not due yet.
                return None;
            }
            let alive_now = self.id_is_alive(head.tid);
            let ghost before = *self;
            self.queue.remove(0);
            proof {
                assert(self.queue@ =~= before.queue@.drop_first());
                assert forall|i: int, j: int| 0 <= i < j < self.queue@.len() implies (
                #[trigger] self.queue@[i]).when <= (#[trigger] self.queue@[j]).when by {
                    assert(self.queue@[i] == before.queue@[i + 1]);
                    assert(self.queue@[j] == before.queue@[j + 1]);
                }
            }
            if alive_now {
                self.cancel(head.tid);
                return Some(head.tid);
            }
        }
    }

    /// Linear scan of the alive set.
    fn id_is_alive(&self, id: u64) -> (r: bool)
        ensures
            r == self.alive().contains(id),
    {
        let mut i: usize = 0;
        while i < self.ids.len()
            invariant
                i <= self.ids@.len(),
                forall|j: int| 0 <= j < i ==> (#[trigger] self.ids@[j]) != id,
            decreases self.ids@.len() - i,
        {
            if self.ids[i] == id {
                assert(self.ids@.contains(id));
                return true;
            }
            i = i + 1;
        }
        proof {
            if self.alive().contains(id) {
                let j = choose|j: int| 0 <= j < self.ids@.len() && self.ids@[j] == id;
                assert(false);
            }
        }
        false
    }
}

} // verus!
