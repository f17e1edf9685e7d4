//! The queued message: its routing domains, its recipients, the per-domain
//! retry state, and the events the queue manager schedules it by.
//!
//! Instants are milliseconds on a monotonic clock; durations are plain
//! millisecond counts.

use vstd::prelude::*;

use crate::status::{Error, Reply, Status};

verus! {

/// The REQUIRETLS envelope flag: delivery must not fall back to cleartext.
pub const MAIL_REQUIRETLS: u64 = 64;

/// A value paired with the instant it is due at. The queue orders these by
/// `due`, ascending, ties broken by insertion order.
#[derive(Clone, Debug)]
pub struct Schedule<T> {
    pub due: u64,
    pub inner: T,
}

/// The delivery status of one final recipient.
#[derive(Clone, Debug)]
pub enum RecipientStatus {
    Scheduled,
    Completed(Reply),
    TemporaryFailure(Reply),
    PermanentFailure(Reply),
}

impl RecipientStatus {
    pub open spec fn is_terminal(&self) -> bool {
        match self {
            RecipientStatus::Completed(_) => true,
            RecipientStatus::PermanentFailure(_) => true,
            _ => false,
        }
    }
}

/// One final recipient of a message. `domain_idx` names the routing domain
/// of `Message::domains` the recipient belongs to.
#[derive(Clone, Debug)]
pub struct Recipient {
    pub address: String,
    pub domain_idx: usize,
    pub status: RecipientStatus,
}

/// One routing target within a message. `retry.inner` counts the attempts
/// that ended in temporary failure; `retry.due` is the next attempt's time.
#[derive(Clone, Debug)]
pub struct Domain {
    pub domain: String,
    pub status: Status,
    pub retry: Schedule<u32>,
    pub expires_at: u64,
}

/// The retry state `Domain::retry` leaves behind: the due time moves to
/// `now` plus the schedule entry for the current attempt count (clamped to
/// the last entry), and the attempt count grows by one.
pub open spec fn spec_retry(d: Domain, schedule: Seq<u64>, now: u64) -> Domain
    recommends
        schedule.len() > 0,
{
    Domain {
        retry: Schedule {
            due: (now + schedule[retry_index(d.retry.inner as int, schedule.len() as int)]) as u64,
            inner: (d.retry.inner + 1) as u32,
        },
        ..d
    }
}

/// The schedule slot for attempt `k` of a schedule of `n` entries:
/// `min(k, n - 1)`.
pub open spec fn retry_index(k: int, n: int) -> int {
    if k < n - 1 {
        k
    } else {
        n - 1
    }
}

impl Domain {
    /// Reschedules the domain after a temporary failure, per the retry
    /// policy: wait `schedule[min(attempt, len - 1)]` and count the attempt.
    pub fn retry(&mut self, schedule: &[u64], now: u64)
        requires
            schedule@.len() > 0,
            old(self).retry.inner < u32::MAX,
            now + schedule@[retry_index(old(self).retry.inner as int, schedule@.len() as int)]
                <= u64::MAX,
        ensures
            *final(self) == spec_retry(*old(self), schedule@, now),
    {
        let attempt = self.retry.inner as usize;
        let idx = if attempt < schedule.len() - 1 {
            attempt
        } else {
            schedule.len() - 1
        };
        self.retry.due = now + schedule[idx];
        self.retry.inner = self.retry.inner + 1;
    }

    /// The domain after `set_status`: the status is replaced, and exactly
    /// when the new status is a temporary failure the retry state advances.
    pub open spec fn spec_set_status(d: Domain, status: Status, schedule: Seq<u64>, now: u64) -> Domain {
        let d2 = Domain { status, ..d };
        if status is TemporaryFailure {
            spec_retry(d2, schedule, now)
        } else {
            d2
        }
    }

    /// Records the outcome of an attempt against this domain. A temporary
    /// failure also advances the retry state; a terminal status freezes it.
    pub fn set_status(&mut self, status: Status, schedule: &[u64], now: u64)
        requires
            schedule@.len() > 0,
            old(self).retry.inner < u32::MAX,
            now + schedule@[retry_index(old(self).retry.inner as int, schedule@.len() as int)]
                <= u64::MAX,
        ensures
            *final(self) == Domain::spec_set_status(*old(self), status, schedule@, now),
    {
        let is_temporary = match &status {
            Status::TemporaryFailure(_) => true,
            _ => false,
        };
        self.status = status;
        if is_temporary {
            self.retry(schedule, now);
        }
    }
}

/// An accepted envelope with its content's bookkeeping. Mutated only by the
/// delivery attempt that currently owns it.
#[derive(Clone, Debug)]
pub struct Message {
    pub id: u64,
    pub created_at: u64,
    pub size: u64,
    pub flags: u64,
    pub return_path: String,
    pub domains: Vec<Domain>,
    pub recipients: Vec<Recipient>,
}

/// The minimum `retry.due` among non-terminal domains of a prefix of `doms`,
/// `None` when every domain of the prefix is terminal.
pub open spec fn min_due(doms: Seq<Domain>) -> Option<u64>
    decreases doms.len(),
{
    if doms.len() == 0 {
        None
    } else {
        let head = min_due(doms.drop_last());
        let last = doms.last();
        if last.status.is_terminal() {
            head
        } else {
            match head {
                None => Some(last.retry.due),
                Some(m) => if last.retry.due < m {
                    Some(last.retry.due)
                } else {
                    Some(m)
                },
            }
        }
    }
}

/// As `min_due`, but only counting domains whose due time is after `now`.
pub open spec fn min_due_after(doms: Seq<Domain>, now: u64) -> Option<u64>
    decreases doms.len(),
{
    if doms.len() == 0 {
        None
    } else {
        let head = min_due_after(doms.drop_last(), now);
        let last = doms.last();
        if last.status.is_terminal() || last.retry.due <= now {
            head
        } else {
            match head {
                None => Some(last.retry.due),
                Some(m) => if last.retry.due < m {
                    Some(last.retry.due)
                } else {
                    Some(m)
                },
            }
        }
    }
}

/// The wait a temporary failure schedules: after `k` prior attempts the
/// domain is due again exactly `schedule[min(k, N - 1)]` after `now`, and
/// the attempt counter advances by one.
pub proof fn lemma_retry_wait(d: Domain, schedule: Seq<u64>, now: u64)
    requires
        schedule.len() > 0,
        d.retry.inner < u32::MAX,
        now + schedule[retry_index(d.retry.inner as int, schedule.len() as int)] <= u64::MAX,
    ensures
        spec_retry(d, schedule, now).retry.due - now == schedule[retry_index(
            d.retry.inner as int,
            schedule.len() as int,
        )],
        spec_retry(d, schedule, now).retry.inner == d.retry.inner + 1,
        spec_retry(d, schedule, now).status == d.status,
{
}

/// What `min_due` answers is really the minimum: `None` exactly when every
/// domain is terminal, and otherwise the due time of some non-terminal
/// domain that no other non-terminal domain undercuts.
pub proof fn lemma_min_due_is_min(doms: Seq<Domain>)
    ensures
        match min_due(doms) {
            Some(m) => (exists|i: int|
                0 <= i < doms.len() && !(#[trigger] doms[i]).status.is_terminal()
                    && doms[i].retry.due == m) && forall|i: int|
                0 <= i < doms.len() && !(#[trigger] doms[i]).status.is_terminal() ==> m
                    <= doms[i].retry.due,
            None => forall|i: int|
                0 <= i < doms.len() ==> (#[trigger] doms[i]).status.is_terminal(),
        },
    decreases doms.len(),
{
    if doms.len() > 0 {
        lemma_min_due_is_min(doms.drop_last());
        let head = doms.drop_last();
        let last = doms.last();
        assert forall|i: int| 0 <= i < head.len() implies doms[i] == head[i] by {}
        match min_due(doms) {
            Some(m) => {
                if last.status.is_terminal() {
                    let j = choose|j: int|
                        0 <= j < head.len() && !(#[trigger] head[j]).status.is_terminal()
                            && head[j].retry.due == m;
                    assert(!doms[j].status.is_terminal() && doms[j].retry.due == m);
                } else {
                    match min_due(head) {
                        None => {
                            assert(doms[doms.len() - 1].retry.due == m);
                        },
                        Some(mh) => {
                            if last.retry.due < mh {
                                assert(doms[doms.len() - 1].retry.due == m);
                            } else {
                                let j = choose|j: int|
                                    0 <= j < head.len() && !(#[trigger] head[j]).status.is_terminal()
                                        && head[j].retry.due == mh;
                                assert(!doms[j].status.is_terminal() && doms[j].retry.due == m);
                            }
                        },
                    }
                }
            },
            None => {},
        }
    }
}

impl Message {
    /// Every recipient points into `domains`.
    pub open spec fn wf(&self) -> bool {
        forall|i: int|
            0 <= i < self.recipients@.len() ==> (#[trigger] self.recipients@[i]).domain_idx
                < self.domains@.len()
    }

    /// A message is terminal when every domain is: nothing remains to try.
    pub open spec fn is_terminal(&self) -> bool {
        forall|i: int|
            0 <= i < self.domains@.len() ==> (#[trigger] self.domains@[i]).status.is_terminal()
    }

    /// The next instant anything about this message is due: the minimum
    /// `retry.due` over its non-terminal domains.
    pub fn next_event(&self) -> (r: Option<u64>)
        ensures
            r == min_due(self.domains@),
    {
        let mut acc: Option<u64> = None;
        let mut i: usize = 0;
        while i < self.domains.len()
            invariant
                i <= self.domains@.len(),
                acc == min_due(self.domains@.take(i as int)),
            decreases self.domains@.len() - i,
        {
            let d = &self.domains[i];
            let terminal = match &d.status {
                Status::Completed => true,
                Status::PermanentFailure(_) => true,
                _ => false,
            };
            if !terminal {
                acc = match acc {
                    None => Some(d.retry.due),
                    Some(m) => if d.retry.due < m {
                        Some(d.retry.due)
                    } else {
                        Some(m)
                    },
                };
            }
            proof {
                assert(self.domains@.take(i + 1 as int).drop_last() =~= self.domains@.take(
                    i as int,
                ));
                assert(self.domains@.take(i + 1 as int).last() == self.domains@[i as int]);
            }
            i = i + 1;
        }
        proof {
            assert(self.domains@.take(self.domains@.len() as int) =~= self.domains@);
        }
        acc
    }

    /// Folds terminal domain outcomes onto recipients still waiting: once
    /// nothing remains to try, a recipient that never reached a terminal
    /// reply is failed permanently, keeping its last temporary reply where
    /// one was recorded.
    pub fn finalize(&mut self)
        requires
            old(self).is_terminal(),
        ensures
            final(self).domains@ == old(self).domains@,
            final(self).id == old(self).id,
            final(self).flags == old(self).flags,
            final(self).recipients@.len() == old(self).recipients@.len(),
            forall|i: int|
                0 <= i < old(self).recipients@.len() ==> {
                    let r = #[trigger] old(self).recipients@[i];
                    let r2 = final(self).recipients@[i];
                    &&& r2.address@ == r.address@
                    &&& r2.domain_idx == r.domain_idx
                    &&& r2.status.is_terminal()
                    &&& (r.status.is_terminal() ==> r2 == r)
                    &&& (r.status matches RecipientStatus::TemporaryFailure(rep)
                        ==> r2.status == RecipientStatus::PermanentFailure(rep))
                    &&& (r.status is Scheduled ==> (r2.status matches
                        RecipientStatus::PermanentFailure(rep) && rep.code == 0))
                },
    {
        let n = self.recipients.len();
        let mut i: usize = 0;
        while i < n
            invariant
                n == self.recipients@.len(),
                i <= n,
                self.domains@ == old(self).domains@,
                self.id == old(self).id,
                self.flags == old(self).flags,
                forall|j: int| i <= j < n ==> self.recipients@[j] == old(self).recipients@[j],
                forall|j: int|
                    0 <= j < i ==> {
                        let r = #[trigger] old(self).recipients@[j];
                        let r2 = self.recipients@[j];
                        &&& r2.address@ == r.address@
                        &&& r2.domain_idx == r.domain_idx
                        &&& r2.status.is_terminal()
                        &&& (r.status.is_terminal() ==> r2 == r)
                        &&& (r.status matches RecipientStatus::TemporaryFailure(rep)
                            ==> r2.status == RecipientStatus::PermanentFailure(rep))
                        &&& (r.status is Scheduled ==> (r2.status matches
                            RecipientStatus::PermanentFailure(rep) && rep.code == 0))
                    },
            decreases n - i,
        {
            let needs_update = match &self.recipients[i].status {
                RecipientStatus::Completed(_) => false,
                RecipientStatus::PermanentFailure(_) => false,
                _ => true,
            };
            if needs_update {
                let r = &self.recipients[i];
                let new_status = match &r.status {
                    RecipientStatus::TemporaryFailure(rep) => RecipientStatus::PermanentFailure(
                        rep.clone_reply(),
                    ),
                    _ => RecipientStatus::PermanentFailure(
                        Reply { code: 0, esc: [0, 0, 0], message: String::new() },
                    ),
                };
                let updated = Recipient {
                    address: r.address.clone(),
                    domain_idx: r.domain_idx,
                    status: new_status,
                };
                self.recipients.set(i, updated);
            }
            i = i + 1;
        }
    }

    /// The next instant after `now` anything about this message is due.
    pub fn next_event_after(&self, now: u64) -> (r: Option<u64>)
        ensures
            r == min_due_after(self.domains@, now),
    {
        let mut acc: Option<u64> = None;
        let mut i: usize = 0;
        while i < self.domains.len()
            invariant
                i <= self.domains@.len(),
                acc == min_due_after(self.domains@.take(i as int), now),
            decreases self.domains@.len() - i,
        {
            let d = &self.domains[i];
            let terminal = match &d.status {
                Status::Completed => true,
                Status::PermanentFailure(_) => true,
                _ => false,
            };
            if !terminal && d.retry.due > now {
                acc = match acc {
                    None => Some(d.retry.due),
                    Some(m) => if d.retry.due < m {
                        Some(d.retry.due)
                    } else {
                        Some(m)
                    },
                };
            }
            proof {
                assert(self.domains@.take(i + 1 as int).drop_last() =~= self.domains@.take(
                    i as int,
                ));
                assert(self.domains@.take(i + 1 as int).last() == self.domains@[i as int]);
            }
            i = i + 1;
        }
        proof {
            assert(self.domains@.take(self.domains@.len() as int) =~= self.domains@);
        }
        acc
    }
}

} // verus!
