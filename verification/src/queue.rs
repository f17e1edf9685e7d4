//! The queue manager's state: the scheduled set, the on-hold set, and the
//! moves between them. A message is in one set at most, and leaves both
//! while a delivery attempt owns it; the surrounding loop (channels, timers,
//! task spawning) lives outside this crate.

use vstd::prelude::*;

use crate::host::Ip;
use crate::limiter::LimiterKey;
use crate::message::{Message, Schedule};

verus! {

/// A message parked until a limiter frees up or `next_due` passes.
#[derive(Clone, Debug)]
pub struct OnHold {
    pub message: Message,
    pub limiters: Vec<LimiterKey>,
    pub next_due: Option<u64>,
}

/// What the queue manager reacts to: a fresh message, a finished attempt,
/// a configuration reload, or shutdown.
#[derive(Debug)]
pub enum Event {
    Queue(Schedule<Message>),
    Done(WorkerResult),
    Reload,
    Stop,
}

/// How a delivery attempt returned its message.
#[derive(Debug)]
pub enum WorkerResult {
    Done,
    Retry(Schedule<Message>),
    OnHold(OnHold),
}

/// Whether the parked entry waits on a limiter whose key views as `kv`.
pub open spec fn holds_key(
    o: OnHold,
    kv: (int, Seq<char>, Seq<char>, Seq<char>, Option<Ip>, Option<Ip>),
) -> bool {
    exists|k: int| 0 <= k < o.limiters@.len() && (#[trigger] o.limiters@[k]).view() == kv
}

/// The parked entries that stay parked when the pool `kv` releases: those
/// not waiting on it, in their order.
pub open spec fn spec_kept(
    s: Seq<OnHold>,
    kv: (int, Seq<char>, Seq<char>, Seq<char>, Option<Ip>, Option<Ip>),
) -> Seq<OnHold>
    decreases s.len(),
{
    if s.len() == 0 {
        Seq::empty()
    } else if holds_key(s.last(), kv) {
        spec_kept(s.drop_last(), kv)
    } else {
        spec_kept(s.drop_last(), kv).push(s.last())
    }
}

/// The messages woken when the pool `kv` releases, rescheduled at `now`,
/// in their parked order.
pub open spec fn spec_released(
    s: Seq<OnHold>,
    kv: (int, Seq<char>, Seq<char>, Seq<char>, Option<Ip>, Option<Ip>),
    now: u64,
) -> Seq<Schedule<Message>>
    decreases s.len(),
{
    if s.len() == 0 {
        Seq::empty()
    } else if holds_key(s.last(), kv) {
        spec_released(s.drop_last(), kv, now).push(
            Schedule { due: now, inner: s.last().message },
        )
    } else {
        spec_released(s.drop_last(), kv, now)
    }
}

/// The earliest due time in the scheduled set.
pub open spec fn min_sched(s: Seq<Schedule<Message>>) -> Option<u64>
    decreases s.len(),
{
    if s.len() == 0 {
        None
    } else {
        match min_sched(s.drop_last()) {
            None => Some(s.last().due),
            Some(m) => if s.last().due < m {
                Some(s.last().due)
            } else {
                Some(m)
            },
        }
    }
}

/// The earliest wake time among the parked entries.
pub open spec fn min_hold(s: Seq<OnHold>) -> Option<u64>
    decreases s.len(),
{
    if s.len() == 0 {
        None
    } else {
        let head = min_hold(s.drop_last());
        match (head, s.last().next_due) {
            (None, nd) => nd,
            (Some(m), None) => Some(m),
            (Some(m), Some(nd)) => if nd < m {
                Some(nd)
            } else {
                Some(m)
            },
        }
    }
}

/// The smaller of two optional instants.
pub open spec fn min_opt(a: Option<u64>, b: Option<u64>) -> Option<u64> {
    match (a, b) {
        (None, x) => x,
        (x, None) => x,
        (Some(x), Some(y)) => if x < y {
            Some(x)
        } else {
            Some(y)
        },
    }
}

/// The queue manager's state: messages scheduled by due time, and messages
/// parked on exhausted limiters.
#[derive(Debug)]
pub struct Queue {
    pub main: Vec<Schedule<Message>>,
    pub on_hold: Vec<OnHold>,
}

impl Queue {
    pub fn new() -> (q: Queue)
        ensures
            q.main@.len() == 0,
            q.on_hold@.len() == 0,
    {
        Queue { main: Vec::new(), on_hold: Vec::new() }
    }

    /// Files a message to be attempted at its due time.
    pub fn schedule(&mut self, entry: Schedule<Message>)
        ensures
            final(self).main@ == old(self).main@.push(entry),
            final(self).on_hold@ == old(self).on_hold@,
    {
        self.main.push(entry);
    }

    /// Files the outcome of a finished attempt: a retry goes back on the
    /// schedule, a parked message joins the on-hold set, a finished one
    /// leaves the queue altogether.
    pub fn handle_result(&mut self, result: WorkerResult)
        ensures
            match result {
                WorkerResult::Done => final(self).main@ == old(self).main@ && final(self).on_hold@
                    == old(self).on_hold@,
                WorkerResult::Retry(entry) => final(self).main@ == old(self).main@.push(entry)
                    && final(self).on_hold@ == old(self).on_hold@,
                WorkerResult::OnHold(o) => final(self).main@ == old(self).main@
                    && final(self).on_hold@ == old(self).on_hold@.push(o),
            },
    {
        match result {
            WorkerResult::Done => {},
            WorkerResult::Retry(entry) => {
                self.main.push(entry);
            },
            WorkerResult::OnHold(o) => {
                self.on_hold.push(o);
            },
        }
    }

    /// The next instant anything in the queue wants attention: the earliest
    /// scheduled due time or parked wake time.
    pub fn next_wake(&self) -> (r: Option<u64>)
        ensures
            r == min_opt(min_sched(self.main@), min_hold(self.on_hold@)),
    {
        let mut acc: Option<u64> = None;
        let mut i: usize = 0;
        while i < self.main.len()
            invariant
                i <= self.main@.len(),
                acc == min_sched(self.main@.take(i as int)),
            decreases self.main@.len() - i,
        {
            let due = self.main[i].due;
            acc = match acc {
                None => Some(due),
                Some(m) => if due < m {
                    Some(due)
                } else {
                    Some(m)
                },
            };
            proof {
                assert(self.main@.take(i + 1 as int).drop_last() =~= self.main@.take(i as int));
                assert(self.main@.take(i + 1 as int).last() == self.main@[i as int]);
            }
            i = i + 1;
        }
        proof {
            assert(self.main@.take(self.main@.len() as int) =~= self.main@);
        }
        let mut hold_acc: Option<u64> = None;
        let mut j: usize = 0;
        while j < self.on_hold.len()
            invariant
                j <= self.on_hold@.len(),
                hold_acc == min_hold(self.on_hold@.take(j as int)),
            decreases self.on_hold@.len() - j,
        {
            let nd = self.on_hold[j].next_due;
            hold_acc = match (hold_acc, nd) {
                (None, x) => x,
                (Some(m), None) => Some(m),
                (Some(m), Some(x)) => if x < m {
                    Some(x)
                } else {
                    Some(m)
                },
            };
            proof {
                assert(self.on_hold@.take(j + 1 as int).drop_last() =~= self.on_hold@.take(
                    j as int,
                ));
                assert(self.on_hold@.take(j + 1 as int).last() == self.on_hold@[j as int]);
            }
            j = j + 1;
        }
        proof {
            assert(self.on_hold@.take(self.on_hold@.len() as int) =~= self.on_hold@);
        }
        match (acc, hold_acc) {
            (None, x) => x,
            (x, None) => x,
            (Some(x), Some(y)) => if x < y {
                Some(x)
            } else {
                Some(y)
            },
        }
    }

    /// Takes the message that is due next, if its time has come: the entry
    /// with the earliest due time, ties broken in favour of the earliest
    /// filed. The taken message is in neither set — its attempt owns it.
    pub fn pop_next(&mut self, now: u64) -> (r: Option<Schedule<Message>>)
        ensures
            final(self).on_hold@ == old(self).on_hold@,
            match r {
                Some(entry) => {
                    &&& entry.due <= now
                    &&& min_sched(old(self).main@) == Some(entry.due)
                    &&& exists|i: int|
                        0 <= i < old(self).main@.len() && old(self).main@[i] == entry
                            && final(self).main@ == old(self).main@.remove(i)
                },
                None => final(self).main@ == old(self).main@ && (min_sched(old(self).main@) is None
                    || min_sched(old(self).main@).unwrap() > now),
            },
    {
        if self.main.len() == 0 {
            return None;
        }
        let mut best: usize = 0;
        let mut i: usize = 1;
        proof {
            assert(min_sched(Seq::<Schedule<Message>>::empty()) is None);
            assert(self.main@.take(1).drop_last() =~= Seq::<Schedule<Message>>::empty());
            assert(self.main@.take(1).last() == self.main@[0]);
            assert(min_sched(self.main@.take(1)) == Some(self.main@[0].due));
        }
        while i < self.main.len()
            invariant
                self.main@.len() > 0,
                best < i <= self.main@.len(),
                min_sched(self.main@.take(i as int)) == Some(self.main@[best as int].due),
                forall|k: int|
                    0 <= k < i ==> (#[trigger] self.main@[k]).due >= self.main@[best as int].due,
                forall|k: int|
                    0 <= k < i && (#[trigger] self.main@[k]).due == self.main@[best as int].due
                        ==> best <= k,
            decreases self.main@.len() - i,
        {
            if self.main[i].due < self.main[best].due {
                best = i;
            }
            proof {
                assert(self.main@.take(i + 1 as int).drop_last() =~= self.main@.take(i as int));
                assert(self.main@.take(i + 1 as int).last() == self.main@[i as int]);
            }
            i = i + 1;
        }
        proof {
            assert(self.main@.take(self.main@.len() as int) =~= self.main@);
        }
        if self.main[best].due <= now {
            let entry = self.main.remove(best);
            Some(entry)
        } else {
            None
        }
    }

    /// Wakes every parked message that waits on the released pool: each goes
    /// back on the schedule, due at once; the rest stay parked in order.
    pub fn on_limiter_released(&mut self, key: &LimiterKey, now: u64)
        ensures
            final(self).on_hold@ == spec_kept(old(self).on_hold@, key.view()),
            final(self).main@ == old(self).main@ + spec_released(
                old(self).on_hold@,
                key.view(),
                now,
            ),
    {
        let mut stack: Vec<OnHold> = Vec::new();
        while self.on_hold.len() > 0
            invariant
                stack@.len() + self.on_hold@.len() == old(self).on_hold@.len(),
                forall|i: int|
                    0 <= i < self.on_hold@.len() ==> #[trigger] self.on_hold@[i] == old(
                        self,
                    ).on_hold@[i],
                forall|j: int|
                    0 <= j < stack@.len() ==> #[trigger] stack@[j] == old(self).on_hold@[
                        old(self).on_hold@.len() - 1 - j],
                self.main@ == old(self).main@,
            decreases self.on_hold@.len(),
        {
            let o = self.on_hold.pop().unwrap();
            stack.push(o);
        }
        let ghost all = old(self).on_hold@;
        let n = stack.len();
        let mut processed: usize = 0;
        while stack.len() > 0
            invariant
                n == all.len(),
                processed + stack@.len() == n,
                forall|j: int|
                    0 <= j < stack@.len() ==> #[trigger] stack@[j] == all[all.len() - 1 - j],
                self.on_hold@ == spec_kept(all.take(processed as int), key.view()),
                self.main@ == old(self).main@ + spec_released(
                    all.take(processed as int),
                    key.view(),
                    now,
                ),
            decreases stack@.len(),
        {
            let o = stack.pop().unwrap();
            proof {
                assert(o == all[processed as int]);
                assert(all.take(processed + 1 as int).drop_last() =~= all.take(processed as int));
                assert(all.take(processed + 1 as int).last() == all[processed as int]);
            }
            let mut matches_key = false;
            let mut k: usize = 0;
            while k < o.limiters.len()
                invariant
                    k <= o.limiters@.len(),
                    matches_key == exists|k2: int|
                        0 <= k2 < k && (#[trigger] o.limiters@[k2]).view() == key.view(),
                decreases o.limiters@.len() - k,
            {
                if o.limiters[k].same_key(key) {
                    matches_key = true;
                }
                k = k + 1;
            }
            proof {
                assert(matches_key == holds_key(o, key.view()));
            }
            if matches_key {
                self.main.push(Schedule { due: now, inner: o.message });
            } else {
                self.on_hold.push(o);
            }
            processed = processed + 1;
        }
        proof {
            assert(all.take(n as int) =~= all);
        }
    }
}

} // verus!
