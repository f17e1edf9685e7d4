//! Concurrency and rate token pools, keyed by a projection of the envelope
//! that each throttle rule selects.

use vstd::prelude::*;

use crate::host::Ip;

verus! {

/// Project the sender into the limiter key.
pub const KEY_SENDER: u8 = 1;

/// Project the recipient domain into the limiter key.
pub const KEY_RCPT_DOMAIN: u8 = 2;

/// Project the selected mail exchange into the limiter key.
pub const KEY_MX: u8 = 4;

/// Project the remote address into the limiter key.
pub const KEY_REMOTE_IP: u8 = 8;

/// Project the chosen source address into the limiter key.
pub const KEY_LOCAL_IP: u8 = 16;

/// A rate bound: at most `max` acquisitions within any window of `window`
/// milliseconds.
#[derive(Clone, Copy, Debug)]
pub struct RateSpec {
    pub max: u64,
    pub window: u64,
}

/// One configured throttle rule: which envelope fields key the pool, and the
/// bounds enforced on that key.
#[derive(Clone, Debug)]
pub struct ThrottleRule {
    pub keys: u8,
    pub concurrency: Option<u64>,
    pub rate: Option<RateSpec>,
}

/// The envelope projection policy rules are evaluated against.
#[derive(Clone, Debug)]
pub struct QueueEnvelope {
    pub sender: String,
    pub domain: String,
    pub mx: String,
    pub remote_ip: Option<Ip>,
    pub local_ip: Option<Ip>,
}

/// A composite limiter key: the rule it belongs to and the projected
/// envelope fields, empty where the rule does not select them.
#[derive(Clone, Debug)]
pub struct LimiterKey {
    pub rule_idx: usize,
    pub sender: String,
    pub domain: String,
    pub mx: String,
    pub remote_ip: Option<Ip>,
    pub local_ip: Option<Ip>,
}

impl LimiterKey {
    /// The key as a plain tuple of values; two keys name the same pool
    /// exactly when their views agree.
    pub open spec fn view(&self) -> (int, Seq<char>, Seq<char>, Seq<char>, Option<Ip>, Option<Ip>) {
        (self.rule_idx as int, self.sender@, self.domain@, self.mx@, self.remote_ip, self.local_ip)
    }

    /// A field-wise copy, equal to the original.
    pub fn duplicate(&self) -> (r: LimiterKey)
        ensures
            r == *self,
    {
        LimiterKey {
            rule_idx: self.rule_idx,
            sender: self.sender.clone(),
            domain: self.domain.clone(),
            mx: self.mx.clone(),
            remote_ip: self.remote_ip,
            local_ip: self.local_ip,
        }
    }

    pub fn same_key(&self, other: &LimiterKey) -> (r: bool)
        ensures
            r == (self.view() == other.view()),
    {
        let ips_equal = (match (self.remote_ip, other.remote_ip) {
            (Option::None, Option::None) => true,
            (Option::Some(a), Option::Some(b)) => a == b,
            _ => false,
        }) && (match (self.local_ip, other.local_ip) {
            (Option::None, Option::None) => true,
            (Option::Some(a), Option::Some(b)) => a == b,
            _ => false,
        });
        self.rule_idx == other.rule_idx && self.sender == other.sender && self.domain
            == other.domain && self.mx == other.mx && ips_equal
    }

    /// The key a rule derives from an envelope: each selected field is
    /// copied, the rest stay empty.
    pub open spec fn spec_of(rule_idx: int, keys: u8, env: QueueEnvelope) -> (
        int,
        Seq<char>,
        Seq<char>,
        Seq<char>,
        Option<Ip>,
        Option<Ip>,
    ) {
        (
            rule_idx,
            if keys & KEY_SENDER != 0 {
                env.sender@
            } else {
                Seq::empty()
            },
            if keys & KEY_RCPT_DOMAIN != 0 {
                env.domain@
            } else {
                Seq::empty()
            },
            if keys & KEY_MX != 0 {
                env.mx@
            } else {
                Seq::empty()
            },
            if keys & KEY_REMOTE_IP != 0 {
                env.remote_ip
            } else {
                Option::None
            },
            if keys & KEY_LOCAL_IP != 0 {
                env.local_ip
            } else {
                Option::None
            },
        )
    }

    pub fn of(rule_idx: usize, keys: u8, env: &QueueEnvelope) -> (k: LimiterKey)
        ensures
            k.view() == LimiterKey::spec_of(rule_idx as int, keys, *env),
    {
        LimiterKey {
            rule_idx,
            sender: if keys & KEY_SENDER != 0 {
                env.sender.clone()
            } else {
                String::new()
            },
            domain: if keys & KEY_RCPT_DOMAIN != 0 {
                env.domain.clone()
            } else {
                String::new()
            },
            mx: if keys & KEY_MX != 0 {
                env.mx.clone()
            } else {
                String::new()
            },
            remote_ip: if keys & KEY_REMOTE_IP != 0 {
                env.remote_ip
            } else {
                Option::None
            },
            local_ip: if keys & KEY_LOCAL_IP != 0 {
                env.local_ip
            } else {
                Option::None
            },
        }
    }
}

/// Why an acquisition failed: the concurrency pool is exhausted (the caller
/// should park the message until the named pool releases), or the rate bound
/// was hit (retry at the given instant).
#[derive(Clone, Debug)]
pub enum ThrottleError {
    Concurrency { limiter: LimiterKey },
    Rate { retry_at: u64 },
}

/// A held concurrency token; releasing it hands the slot back.
#[derive(Clone, Debug)]
pub struct InFlight {
    pub key: LimiterKey,
}

/// One concurrency pool: `in_use` live tokens out of `cap`.
#[derive(Clone, Debug)]
pub struct ConcurrencyState {
    pub key: LimiterKey,
    pub cap: u64,
    pub in_use: u64,
}

/// One rate bucket: `count` acquisitions since `window_start`.
#[derive(Clone, Debug)]
pub struct RateState {
    pub key: LimiterKey,
    pub max: u64,
    pub window: u64,
    pub count: u64,
    pub window_start: u64,
}

/// First index of `entries` whose key views as `kv`, if any.
pub open spec fn find_conc(
    entries: Seq<ConcurrencyState>,
    kv: (int, Seq<char>, Seq<char>, Seq<char>, Option<Ip>, Option<Ip>),
) -> Option<int>
    decreases entries.len(),
{
    if entries.len() == 0 {
        None
    } else if entries[0].key.view() == kv {
        Some(0)
    } else {
        match find_conc(entries.drop_first(), kv) {
            None => None,
            Some(i) => Some(i + 1),
        }
    }
}

/// First index of `entries` whose key views as `kv`, if any.
pub open spec fn find_rate(
    entries: Seq<RateState>,
    kv: (int, Seq<char>, Seq<char>, Seq<char>, Option<Ip>, Option<Ip>),
) -> Option<int>
    decreases entries.len(),
{
    if entries.len() == 0 {
        None
    } else if entries[0].key.view() == kv {
        Some(0)
    } else {
        match find_rate(entries.drop_first(), kv) {
            None => None,
            Some(i) => Some(i + 1),
        }
    }
}

/// All the token pools of the queue: the only shared mutable state of the
/// delivery engine.
#[derive(Clone, Debug)]
pub struct Limiters {
    pub concurrency: Vec<ConcurrencyState>,
    pub rate: Vec<RateState>,
}

impl Limiters {
    /// No pool ever holds more live tokens than its capacity, and no bucket
    /// more acquisitions than its bound.
    pub open spec fn wf(&self) -> bool {
        &&& forall|i: int|
            0 <= i < self.concurrency@.len() ==> (#[trigger] self.concurrency@[i]).in_use
                <= self.concurrency@[i].cap
        &&& forall|i: int|
            0 <= i < self.rate@.len() ==> (#[trigger] self.rate@[i]).count <= self.rate@[i].max
    }

    pub fn new() -> (r: Limiters)
        ensures
            r.wf(),
            r.concurrency@.len() == 0,
            r.rate@.len() == 0,
    {
        Limiters { concurrency: Vec::new(), rate: Vec::new() }
    }
}

/// `a + b`, clamped to the largest representable instant.
pub open spec fn sat_add(a: u64, b: u64) -> u64 {
    if a + b > u64::MAX {
        u64::MAX
    } else {
        (a + b) as u64
    }
}

/// `a + b`, clamped to the largest representable instant.
pub fn saturating_add(a: u64, b: u64) -> (r: u64)
    ensures
        r == sat_add(a, b),
{
    if a <= u64::MAX - b {
        a + b
    } else {
        u64::MAX
    }
}

proof fn lemma_find_conc_from(
    entries: Seq<ConcurrencyState>,
    kv: (int, Seq<char>, Seq<char>, Seq<char>, Option<Ip>, Option<Ip>),
    i: int,
)
    requires
        0 <= i <= entries.len(),
        forall|j: int| 0 <= j < i ==> (#[trigger] entries[j]).key.view() != kv,
    ensures
        i < entries.len() && entries[i].key.view() == kv ==> find_conc(entries, kv) == Some(i),
        i == entries.len() ==> find_conc(entries, kv) is None,
    decreases entries.len(),
{
    if entries.len() > 0 && i > 0 {
        lemma_find_conc_from(entries.drop_first(), kv, i - 1);
    }
}

proof fn lemma_find_rate_from(
    entries: Seq<RateState>,
    kv: (int, Seq<char>, Seq<char>, Seq<char>, Option<Ip>, Option<Ip>),
    i: int,
)
    requires
        0 <= i <= entries.len(),
        forall|j: int| 0 <= j < i ==> (#[trigger] entries[j]).key.view() != kv,
    ensures
        i < entries.len() && entries[i].key.view() == kv ==> find_rate(entries, kv) == Some(i),
        i == entries.len() ==> find_rate(entries, kv) is None,
    decreases entries.len(),
{
    if entries.len() > 0 && i > 0 {
        lemma_find_rate_from(entries.drop_first(), kv, i - 1);
    }
}

/// Whether a token for `kv` can be acquired: the pool, where one exists,
/// has a free slot; a fresh pool needs a positive capacity.
pub open spec fn spec_can_acquire(
    entries: Seq<ConcurrencyState>,
    kv: (int, Seq<char>, Seq<char>, Seq<char>, Option<Ip>, Option<Ip>),
    cap: u64,
) -> bool {
    match find_conc(entries, kv) {
        Some(i) => entries[i].in_use < entries[i].cap,
        None => cap > 0,
    }
}

/// The pools after acquiring a token for `kv`: the matching pool gains one
/// live token; absent one, a fresh pool opens with one.
pub open spec fn spec_acquire(
    entries: Seq<ConcurrencyState>,
    key: LimiterKey,
    cap: u64,
) -> Seq<ConcurrencyState> {
    match find_conc(entries, key.view()) {
        Some(i) => entries.update(
            i,
            ConcurrencyState { in_use: (entries[i].in_use + 1) as u64, ..entries[i] },
        ),
        None => entries.push(ConcurrencyState { key, cap, in_use: 1 }),
    }
}

/// The pools after releasing a token for `kv`: one live token fewer where a
/// pool with live tokens exists; releasing into an empty or unknown pool
/// changes nothing, so release is idempotent.
pub open spec fn spec_release(
    entries: Seq<ConcurrencyState>,
    kv: (int, Seq<char>, Seq<char>, Seq<char>, Option<Ip>, Option<Ip>),
) -> Seq<ConcurrencyState> {
    match find_conc(entries, kv) {
        Some(i) => if entries[i].in_use > 0 {
            entries.update(
                i,
                ConcurrencyState { in_use: (entries[i].in_use - 1) as u64, ..entries[i] },
            )
        } else {
            entries
        },
        None => entries,
    }
}

/// The rate buckets and the verdict after one acquisition attempt on `kv`:
/// an expired window resets; a bucket with room counts the acquisition; a
/// full bucket refuses and names the instant its window ends.
pub open spec fn spec_check_rate(
    entries: Seq<RateState>,
    key: LimiterKey,
    max: u64,
    window: u64,
    now: u64,
) -> (Seq<RateState>, Result<(), u64>) {
    match find_rate(entries, key.view()) {
        Some(i) => {
            let e = entries[i];
            if now >= sat_add(e.window_start, e.window) {
                if e.max > 0 {
                    (
                        entries.update(i, RateState { count: 1, window_start: now, ..e }),
                        Result::Ok(()),
                    )
                } else {
                    (
                        entries.update(i, RateState { count: 0, window_start: now, ..e }),
                        Result::Err(sat_add(now, e.window)),
                    )
                }
            } else if e.count < e.max {
                (entries.update(i, RateState { count: (e.count + 1) as u64, ..e }), Result::Ok(()))
            } else {
                (entries, Result::Err(sat_add(e.window_start, e.window)))
            }
        },
        None => {
            if max > 0 {
                (
                    entries.push(RateState { key, max, window, count: 1, window_start: now }),
                    Result::Ok(()),
                )
            } else {
                (
                    entries.push(RateState { key, max, window, count: 0, window_start: now }),
                    Result::Err(sat_add(now, window)),
                )
            }
        },
    }
}

impl Limiters {
    fn find_concurrency(&self, key: &LimiterKey) -> (r: Option<usize>)
        ensures
            match r {
                Some(i) => i < self.concurrency@.len() && find_conc(self.concurrency@, key.view())
                    == Some(i as int),
                None => find_conc(self.concurrency@, key.view()) is None,
            },
    {
        let mut i: usize = 0;
        while i < self.concurrency.len()
            invariant
                i <= self.concurrency@.len(),
                forall|j: int|
                    0 <= j < i ==> (#[trigger] self.concurrency@[j]).key.view() != key.view(),
            decreases self.concurrency@.len() - i,
        {
            if self.concurrency[i].key.same_key(key) {
                proof {
                    lemma_find_conc_from(self.concurrency@, key.view(), i as int);
                }
                return Some(i);
            }
            i = i + 1;
        }
        proof {
            lemma_find_conc_from(self.concurrency@, key.view(), i as int);
        }
        None
    }

    fn find_rate_bucket(&self, key: &LimiterKey) -> (r: Option<usize>)
        ensures
            match r {
                Some(i) => i < self.rate@.len() && find_rate(self.rate@, key.view()) == Some(
                    i as int,
                ),
                None => find_rate(self.rate@, key.view()) is None,
            },
    {
        let mut i: usize = 0;
        while i < self.rate.len()
            invariant
                i <= self.rate@.len(),
                forall|j: int| 0 <= j < i ==> (#[trigger] self.rate@[j]).key.view() != key.view(),
            decreases self.rate@.len() - i,
        {
            if self.rate[i].key.same_key(key) {
                proof {
                    lemma_find_rate_from(self.rate@, key.view(), i as int);
                }
                return Some(i);
            }
            i = i + 1;
        }
        proof {
            lemma_find_rate_from(self.rate@, key.view(), i as int);
        }
        None
    }

    /// Whether a concurrency token for `key` is free right now.
    pub fn can_acquire_concurrency(&self, key: &LimiterKey, cap: u64) -> (r: bool)
        ensures
            r == spec_can_acquire(self.concurrency@, key.view(), cap),
    {
        match self.find_concurrency(key) {
            Some(i) => self.concurrency[i].in_use < self.concurrency[i].cap,
            None => cap > 0,
        }
    }

    /// Takes one concurrency token for `key`; the caller must have checked
    /// that one is free.
    fn acquire_concurrency(&mut self, key: LimiterKey, cap: u64)
        requires
            old(self).wf(),
            spec_can_acquire(old(self).concurrency@, key.view(), cap),
        ensures
            final(self).wf(),
            final(self).concurrency@ == spec_acquire(old(self).concurrency@, key, cap),
            final(self).rate@ == old(self).rate@,
    {
        match self.find_concurrency(&key) {
            Some(i) => {
                let e = &self.concurrency[i];
                let updated = ConcurrencyState { key: e.key.duplicate(), cap: e.cap, in_use: e.in_use + 1 };
                self.concurrency.set(i, updated);
            },
            None => {
                self.concurrency.push(ConcurrencyState { key, cap, in_use: 1 });
            },
        }
    }

    /// Hands a concurrency token for `kv` back. Releasing a token twice, or
    /// one never taken, changes nothing.
    pub fn release_concurrency(&mut self, key: &LimiterKey)
        requires
            old(self).wf(),
        ensures
            final(self).wf(),
            final(self).concurrency@ == spec_release(old(self).concurrency@, key.view()),
            final(self).rate@ == old(self).rate@,
    {
        match self.find_concurrency(key) {
            Some(i) => {
                let e = &self.concurrency[i];
                if e.in_use > 0 {
                    let updated = ConcurrencyState {
                        key: e.key.duplicate(),
                        cap: e.cap,
                        in_use: e.in_use - 1,
                    };
                    self.concurrency.set(i, updated);
                }
            },
            None => {},
        }
    }

    /// One acquisition against the rate bucket of `key`.
    fn check_rate(&mut self, key: LimiterKey, max: u64, window: u64, now: u64) -> (r: Result<
        (),
        u64,
    >)
        requires
            old(self).wf(),
        ensures
            final(self).wf(),
            (final(self).rate@, r) == spec_check_rate(old(self).rate@, key, max, window, now),
            final(self).concurrency@ == old(self).concurrency@,
    {
        match self.find_rate_bucket(&key) {
            Some(i) => {
                let e = &self.rate[i];
                let window_end = saturating_add(e.window_start, e.window);
                if now >= window_end {
                    let fresh_count: u64 = if e.max > 0 {
                        1
                    } else {
                        0
                    };
                    let refused = e.max == 0;
                    let retry_at = saturating_add(now, e.window);
                    let updated = RateState {
                        key: e.key.duplicate(),
                        max: e.max,
                        window: e.window,
                        count: fresh_count,
                        window_start: now,
                    };
                    self.rate.set(i, updated);
                    if refused {
                        Err(retry_at)
                    } else {
                        Ok(())
                    }
                } else if e.count < e.max {
                    let updated = RateState {
                        key: e.key.duplicate(),
                        max: e.max,
                        window: e.window,
                        count: e.count + 1,
                        window_start: e.window_start,
                    };
                    self.rate.set(i, updated);
                    Ok(())
                } else {
                    Err(window_end)
                }
            },
            None => {
                let fresh_count: u64 = if max > 0 {
                    1
                } else {
                    0
                };
                self.rate.push(
                    RateState { key, max, window, count: fresh_count, window_start: now },
                );
                if max > 0 {
                    Ok(())
                } else {
                    Err(saturating_add(now, window))
                }
            },
        }
    }

    /// Evaluates one throttle rule against an envelope. On success every
    /// token the rule demands is held and the concurrency token, if any, is
    /// pushed onto `in_flight`; on failure no acquisition remains.
    pub fn is_allowed(
        &mut self,
        rule: &ThrottleRule,
        rule_idx: usize,
        env: &QueueEnvelope,
        in_flight: &mut Vec<InFlight>,
        now: u64,
    ) -> (r: Result<(), ThrottleError>)
        requires
            old(self).wf(),
        ensures
            final(self).wf(),
            match r {
                Result::Ok(()) => {
                    &&& match rule.concurrency {
                        Some(cap) => {
                            &&& spec_can_acquire(
                                old(self).concurrency@,
                                LimiterKey::spec_of(rule_idx as int, rule.keys, *env),
                                cap,
                            )
                            &&& exists|k: LimiterKey|
                                k.view() == LimiterKey::spec_of(rule_idx as int, rule.keys, *env)
                                    && final(self).concurrency@ == spec_acquire(
                                    old(self).concurrency@,
                                    k,
                                    cap,
                                ) && final(in_flight)@ == old(in_flight)@.push(InFlight { key: k })
                        },
                        None => final(self).concurrency@ == old(self).concurrency@
                            && final(in_flight)@ == old(in_flight)@,
                    }
                    &&& match rule.rate {
                        Some(spec) => exists|k: LimiterKey|
                            k.view() == LimiterKey::spec_of(rule_idx as int, rule.keys, *env) && (
                            final(self).rate@,
                            Result::<(), u64>::Ok(()),
                            ) == spec_check_rate(old(self).rate@, k, spec.max, spec.window, now),
                        None => final(self).rate@ == old(self).rate@,
                    }
                },
                Result::Err(ThrottleError::Concurrency { limiter }) => {
                    &&& limiter.view() == LimiterKey::spec_of(rule_idx as int, rule.keys, *env)
                    &&& rule.concurrency matches Some(cap) && !spec_can_acquire(
                        old(self).concurrency@,
                        limiter.view(),
                        cap,
                    )
                    &&& final(self).concurrency@ == old(self).concurrency@
                    &&& final(self).rate@ == old(self).rate@
                    &&& final(in_flight)@ == old(in_flight)@
                },
                Result::Err(ThrottleError::Rate { retry_at }) => {
                    &&& rule.rate matches Some(spec) && exists|k: LimiterKey|
                        k.view() == LimiterKey::spec_of(rule_idx as int, rule.keys, *env) && (
                        final(self).rate@,
                        Result::<(), u64>::Err(retry_at),
                        ) == spec_check_rate(old(self).rate@, k, spec.max, spec.window, now)
                    &&& final(self).concurrency@ == old(self).concurrency@
                    &&& final(in_flight)@ == old(in_flight)@
                },
            },
    {
        let key = LimiterKey::of(rule_idx, rule.keys, env);

        if let Some(cap) = rule.concurrency {
            if !self.can_acquire_concurrency(&key, cap) {
                return Err(ThrottleError::Concurrency { limiter: key });
            }
        }

        if let Some(spec) = rule.rate {
            let rate_key = key.duplicate();
            if let Err(retry_at) = self.check_rate(rate_key, spec.max, spec.window, now) {
                return Err(ThrottleError::Rate { retry_at });
            }
        }

        if let Some(cap) = rule.concurrency {
            let conc_key = key.duplicate();
            self.acquire_concurrency(conc_key.duplicate(), cap);
            in_flight.push(InFlight { key: conc_key });
        }

        Ok(())
    }

    /// Hands back every token in `tokens`, first to last: what a finished
    /// attempt must do with the tokens it holds, whatever its outcome. Each
    /// token's pool loses exactly one live token per release, and a pool
    /// already empty stays empty.
    pub fn release_all(&mut self, tokens: &Vec<InFlight>)
        requires
            old(self).wf(),
        ensures
            final(self).wf(),
            final(self).concurrency@ == spec_release_all(old(self).concurrency@, tokens@),
            final(self).rate@ == old(self).rate@,
    {
        let mut i: usize = 0;
        proof {
            assert(tokens@.skip(0) =~= tokens@);
        }
        while i < tokens.len()
            invariant
                self.wf(),
                self.rate@ == old(self).rate@,
                i <= tokens@.len(),
                spec_release_all(self.concurrency@, tokens@.skip(i as int)) == spec_release_all(
                    old(self).concurrency@,
                    tokens@,
                ),
            decreases tokens@.len() - i,
        {
            proof {
                assert(tokens@.skip(i as int)[0] == tokens@[i as int]);
                assert(tokens@.skip(i as int).drop_first() =~= tokens@.skip(i + 1 as int));
            }
            self.release_concurrency(&tokens[i].key);
            i = i + 1;
        }
        proof {
            assert(tokens@.skip(tokens@.len() as int) =~= Seq::<InFlight>::empty());
        }
    }
}

/// The pools after handing back the tokens of `tokens`, first to last.
pub open spec fn spec_release_all(
    entries: Seq<ConcurrencyState>,
    tokens: Seq<InFlight>,
) -> Seq<ConcurrencyState>
    decreases tokens.len(),
{
    if tokens.len() == 0 {
        entries
    } else {
        spec_release_all(spec_release(entries, tokens[0].key.view()), tokens.drop_first())
    }
}

/// Every concurrency pool holds at most its capacity of live tokens: however
/// attempts interleave their acquisitions and releases, the number of
/// concurrent in-flight connections per limiter key never exceeds the
/// configured cap.
pub proof fn lemma_concurrency_bounded(l: Limiters)
    requires
        l.wf(),
    ensures
        forall|i: int|
            0 <= i < l.concurrency@.len() ==> (#[trigger] l.concurrency@[i]).in_use
                <= l.concurrency@[i].cap,
{
}

} // verus!
