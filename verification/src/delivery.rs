//! The delivery attempt: a state machine that owns one message for the
//! duration of one attempt, walks its due domains, throttles, plans hosts,
//! drives the SMTP dialogue and folds the results back into the message.
//!
//! Everything that touches the outside world — DNS, sockets, TLS, the wire —
//! is an event fed into `step`, which answers with the next action to
//! perform. Throttling runs inside the machine against the verified limiter.

use vstd::prelude::*;
use vstd::string::StringExecFns;

use crate::host::{Ip, RelayHost, RemoteHost};
use crate::limiter::{InFlight, LimiterKey, Limiters, QueueEnvelope, ThrottleError, ThrottleRule};
use crate::message::{Domain, Message, Recipient, RecipientStatus, MAIL_REQUIRETLS, min_due, min_due_after};
use crate::planner::{plan_remote_hosts, resolve_host, MxRecord};
use crate::status::{is_client_error_status, spec_severity, ClientError, DnsFailure, Error, Reply, Severity, Status};

verus! {

/// How outbound TLS is to be used.
#[derive(Clone, Copy, Debug, PartialEq, Eq, Structural)]
pub enum TlsStrategy {
    Disable,
    Opportunistic,
    Required,
    Dane,
}

impl TlsStrategy {
    pub open spec fn spec_is_dane(&self) -> bool {
        *self is Dane
    }

    pub fn is_dane(&self) -> (r: bool)
        ensures
            r == self.spec_is_dane(),
    {
        match self {
            TlsStrategy::Dane => true,
            _ => false,
        }
    }

    pub open spec fn spec_is_tls_required(&self) -> bool {
        *self is Required || *self is Dane
    }

    pub fn is_tls_required(&self) -> (r: bool)
        ensures
            r == self.spec_is_tls_required(),
    {
        match self {
            TlsStrategy::Required => true,
            TlsStrategy::Dane => true,
            _ => false,
        }
    }
}

/// The network timeouts an attempt hands to its caller with each action,
/// in milliseconds.
#[derive(Clone, Copy, Debug)]
pub struct QueueTimeouts {
    pub connect: u64,
    pub greeting: u64,
    pub tls: u64,
    pub ehlo: u64,
    pub mail: u64,
    pub rcpt: u64,
    pub data: u64,
}

/// The queue's delivery policy, as typed values.
#[derive(Clone, Debug)]
pub struct QueueConfig {
    pub throttle_sender: Vec<ThrottleRule>,
    pub throttle_rcpt: Vec<ThrottleRule>,
    pub throttle_host: Vec<ThrottleRule>,
    pub retry: Vec<u64>,
    pub next_hop: Option<RelayHost>,
    pub max_mx: usize,
    pub max_multihomed: usize,
    pub source_ipv4: Vec<Ip>,
    pub source_ipv6: Vec<Ip>,
    pub encryption: TlsStrategy,
    pub ehlo_hostname: String,
    pub timeouts: QueueTimeouts,
}

impl QueueConfig {
    /// A usable policy has at least one retry interval, and each source
    /// pool holds only addresses of its own family.
    pub open spec fn wf(&self) -> bool {
        &&& self.retry@.len() > 0
        &&& forall|i: int|
            0 <= i < self.source_ipv4@.len() ==> (#[trigger] self.source_ipv4@[i]) is V4
        &&& forall|i: int|
            0 <= i < self.source_ipv6@.len() ==> (#[trigger] self.source_ipv6@[i]) is V6
    }
}

/// What one read of the wire produced: a parsed reply, or a transport
/// failure.
#[derive(Clone, Debug)]
pub enum SmtpResult {
    Reply(Reply),
    Failed(ClientError),
}

/// The EHLO answer: the reply and whether STARTTLS was advertised.
#[derive(Clone, Debug)]
pub struct EhloReply {
    pub reply: Reply,
    pub starttls: bool,
}

/// What the outside world answers back into the machine.
#[derive(Debug)]
pub enum AttemptEvent {
    /// No outside work was needed; drive the next internal move.
    Tick,
    Mx(Result<Vec<MxRecord>, DnsFailure>),
    Ips(Result<Vec<Ip>, DnsFailure>),
    Connected(Result<(), ClientError>),
    TlsDone(Result<(), ClientError>),
    Greeting(SmtpResult),
    Ehlo(Result<EhloReply, ClientError>),
    StartTls(SmtpResult),
    MailFrom(SmtpResult),
    Rcpt(SmtpResult),
    Data(SmtpResult),
    DataFinal(SmtpResult),
}

/// What the machine asks its caller to do next.
#[derive(Clone, Debug)]
pub enum AttemptAction {
    /// Call `step` again with `AttemptEvent::Tick`.
    Continue,
    LookupMx { domain: String },
    LookupIps { host: String },
    Connect { source: Option<Ip>, remote: Ip, port: u16, timeout: u64 },
    ReadGreeting { timeout: u64 },
    SendEhlo { hostname: String, timeout: u64 },
    SendStartTls { timeout: u64 },
    UpgradeTls { hostname: String, allow_invalid_certs: bool, timeout: u64 },
    SendMailFrom { sender: String, timeout: u64 },
    SendRcpt { address: String, timeout: u64 },
    SendDataInit { timeout: u64 },
    SendDataFinal { timeout: u64 },
    Finished(AttemptOutcome),
}

/// How the attempt ended, handed back to the queue manager together with
/// the message.
#[derive(Clone, Debug)]
pub enum AttemptOutcome {
    /// Every domain is terminal; the message is finished.
    Done,
    /// Something remains to try; wake the message at `due`.
    Retry { due: u64 },
    /// A concurrency pool was exhausted; park the message until one of the
    /// named limiters releases or `next_due` elapses.
    OnHold { limiters: Vec<LimiterKey>, next_due: Option<u64> },
}

/// Where the machine stands between two events.
#[derive(Clone, Copy, Debug, PartialEq, Eq, Structural)]
pub enum Phase {
    /// Sender-level throttles not yet passed.
    SenderThrottle,
    /// About to consider the domain at `domain_idx`.
    DomainStart,
    /// Waiting for the MX answer of the current domain.
    MxWait,
    /// About to consider the host at `host_idx`.
    HostStart,
    /// Waiting for the address answer of the current host.
    IpsWait,
    /// About to consider the address at `ip_idx`.
    IpStart,
    /// Waiting for the connect outcome.
    ConnectWait,
    /// Waiting for the server greeting.
    GreetingWait,
    /// Waiting for the EHLO reply; `probe_starttls` when it is the
    /// cleartext probe that decides on STARTTLS.
    EhloWait { probe_starttls: bool },
    /// Waiting for the reply to STARTTLS.
    StartTlsWait,
    /// Waiting for the TLS handshake; `implicit` when TLS wraps the whole
    /// session from the first byte.
    TlsWait { implicit: bool },
    /// Waiting for the MAIL FROM reply.
    MailWait,
    /// Waiting for the RCPT TO reply of the recipient at `rcpt_cursor`.
    RcptWait,
    /// Waiting for the reply to DATA.
    DataInitWait,
    /// Waiting for the final reply after the message content.
    DataFinalWait,
    /// The attempt is over; the outcome has been handed out.
    Done,
}

/// The event each phase waits for.
pub open spec fn event_fits(phase: Phase, event: AttemptEvent) -> bool {
    match phase {
        Phase::SenderThrottle => event is Tick,
        Phase::DomainStart => event is Tick,
        Phase::MxWait => event is Mx,
        Phase::HostStart => event is Tick,
        Phase::IpsWait => event is Ips,
        Phase::IpStart => event is Tick,
        Phase::ConnectWait => event is Connected,
        Phase::GreetingWait => event is Greeting,
        Phase::EhloWait { .. } => event is Ehlo,
        Phase::StartTlsWait => event is StartTls,
        Phase::TlsWait { .. } => event is TlsDone,
        Phase::MailWait => event is MailFrom,
        Phase::RcptWait => event is Rcpt,
        Phase::DataInitWait => event is Data,
        Phase::DataFinalWait => event is DataFinal,
        Phase::Done => false,
    }
}

/// Whether the phase works on a particular domain.
pub open spec fn phase_in_domain(phase: Phase) -> bool {
    !(phase is SenderThrottle || phase is DomainStart || phase is Done)
}

/// Whether the phase works on a particular host.
pub open spec fn phase_in_host(phase: Phase) -> bool {
    phase_in_domain(phase) && !(phase is MxWait || phase is HostStart)
}

/// Whether the phase works on a live connection.
pub open spec fn phase_in_connection(phase: Phase) -> bool {
    phase_in_host(phase) && !(phase is IpsWait || phase is IpStart)
}

/// Whether the phase is inside the envelope dialogue of one connection.
pub open spec fn phase_in_session(phase: Phase) -> bool {
    phase is RcptWait || phase is DataInitWait || phase is DataFinalWait
}

/// The entries of `s` grow strictly left to right.
pub open spec fn strictly_increasing(s: Seq<usize>) -> bool {
    forall|k1: int, k2: int| 0 <= k1 < k2 < s.len() ==> #[trigger] s[k1] < #[trigger] s[k2]
}

/// Whether `i` occurs in `acc`.
pub open spec fn idx_in(acc: Seq<usize>, i: int) -> bool {
    exists|k: int| 0 <= k < acc.len() && acc[k] == i
}

/// One delivery attempt: the exclusively owned message plus the walking
/// state of the machine.
#[derive(Clone, Debug)]
pub struct DeliveryAttempt {
    pub message: Message,
    pub phase: Phase,
    /// The domain being worked, an index into `message.domains`.
    pub domain_idx: usize,
    /// The host list planned for the current domain.
    pub hosts: Vec<RemoteHost>,
    pub host_idx: usize,
    /// The addresses resolved for the current host.
    pub remote_ips: Vec<Ip>,
    pub ip_idx: usize,
    pub source_ip: Option<Ip>,
    /// The most recent host-level failure, recorded against the domain when
    /// every host is exhausted.
    pub last_status: Status,
    /// The recipients of the current domain still worth attempting, as
    /// indices into `message.recipients`.
    pub rcpt_idxs: Vec<usize>,
    pub rcpt_cursor: usize,
    /// The recipients the server accepted at RCPT time.
    pub accepted: Vec<usize>,
    /// Whether every recipient refusal so far was permanent.
    pub rcpt_all_permanent: bool,
    pub last_rcpt_reply: Option<Reply>,
    /// The limiter keys whose concurrency pools were exhausted.
    pub on_hold: Vec<LimiterKey>,
    /// Sender-level tokens, held for the whole attempt.
    pub in_flight: Vec<InFlight>,
    /// Recipient-domain tokens, held while the current domain is worked.
    pub domain_tokens: Vec<InFlight>,
    /// Remote-host tokens, held while the current address is worked.
    pub host_tokens: Vec<InFlight>,
    /// Whether the connection has been upgraded to TLS.
    pub tls_active: bool,
}

impl DeliveryAttempt {
    /// The bounds that hold of the machine whatever its phase.
    pub open spec fn base_wf(&self) -> bool {
        &&& self.message.wf()
        &&& self.domain_idx <= self.message.domains@.len()
        &&& self.host_idx <= self.hosts@.len()
        &&& self.ip_idx <= self.remote_ips@.len()
        &&& self.rcpt_cursor <= self.rcpt_idxs@.len()
        &&& forall|k: int|
            0 <= k < self.rcpt_idxs@.len() ==> (#[trigger] self.rcpt_idxs@[k])
                < self.message.recipients@.len()
        &&& forall|k: int|
            0 <= k < self.accepted@.len() ==> (#[trigger] self.accepted@[k])
                < self.message.recipients@.len()
        &&& forall|j: int|
            self.domain_idx <= j < self.message.domains@.len()
                ==> (#[trigger] self.message.domains@[j]).retry.inner < u32::MAX
        &&& strictly_increasing(self.rcpt_idxs@)
    }

    /// The machine's own well-formedness, beyond the message's: the basic
    /// bounds plus what the current phase presumes of the walking state.
    pub open spec fn wf(&self) -> bool {
        &&& self.base_wf()
        &&& (phase_in_domain(self.phase) ==> self.domain_idx < self.message.domains@.len())
        &&& (phase_in_domain(self.phase)
            ==> self.message.domains@[self.domain_idx as int].status.is_attemptable())
        &&& (phase_in_host(self.phase) ==> self.host_idx < self.hosts@.len())
        &&& (phase_in_connection(self.phase) ==> self.ip_idx < self.remote_ips@.len())
        &&& (self.phase is RcptWait ==> self.rcpt_cursor < self.rcpt_idxs@.len())
        &&& (self.phase is RcptWait ==> forall|k: int|
            self.rcpt_cursor <= k < self.rcpt_idxs@.len()
                ==> !self.message.recipients@[(#[trigger] self.rcpt_idxs@[k]) as int].status.is_terminal())
        &&& (phase_in_session(self.phase) ==> forall|k: int|
            0 <= k < self.accepted@.len()
                ==> !self.message.recipients@[(#[trigger] self.accepted@[k]) as int].status.is_terminal())
        &&& (self.phase is RcptWait ==> forall|k: int|
            0 <= k < self.accepted@.len() ==> (#[trigger] self.accepted@[k])
                < self.rcpt_idxs@[self.rcpt_cursor as int])
    }

    /// A fresh attempt over an exclusively owned message.
    pub fn new(message: Message) -> (r: DeliveryAttempt)
        requires
            message.wf(),
            forall|j: int|
                0 <= j < message.domains@.len() ==> (#[trigger] message.domains@[j]).retry.inner
                    < u32::MAX,
        ensures
            r.wf(),
            r.message == message,
            r.phase is SenderThrottle,
            r.on_hold@.len() == 0,
            r.in_flight@.len() == 0,
            r.domain_tokens@.len() == 0,
            r.host_tokens@.len() == 0,
    {
        DeliveryAttempt {
            message,
            phase: Phase::SenderThrottle,
            domain_idx: 0,
            hosts: Vec::new(),
            host_idx: 0,
            remote_ips: Vec::new(),
            ip_idx: 0,
            source_ip: None,
            last_status: Status::Scheduled,
            rcpt_idxs: Vec::new(),
            rcpt_cursor: 0,
            accepted: Vec::new(),
            rcpt_all_permanent: true,
            last_rcpt_reply: None,
            on_hold: Vec::new(),
            in_flight: Vec::new(),
            domain_tokens: Vec::new(),
            host_tokens: Vec::new(),
            tls_active: false,
        }
    }
}

/// Copies of the keys in `keys`, equal element by element.
fn dup_keys(keys: &Vec<LimiterKey>) -> (r: Vec<LimiterKey>)
    ensures
        r@ == keys@,
{
    let mut r: Vec<LimiterKey> = Vec::new();
    let mut i: usize = 0;
    while i < keys.len()
        invariant
            i <= keys@.len(),
            r@ =~= keys@.take(i as int),
        decreases keys@.len() - i,
    {
        r.push(keys[i].duplicate());
        proof {
            assert(r@ =~= keys@.take(i + 1 as int));
        }
        i = i + 1;
    }
    proof {
        assert(r@ =~= keys@);
    }
    r
}

/// Runs the rules of one throttle scope in order, stopping at the first
/// failure; tokens taken by earlier rules stay in `tokens`.
fn run_throttles(
    limiters: &mut Limiters,
    rules: &Vec<ThrottleRule>,
    base_idx: usize,
    env: &QueueEnvelope,
    tokens: &mut Vec<InFlight>,
    now: u64,
) -> (r: Result<(), ThrottleError>)
    requires
        old(limiters).wf(),
        base_idx + rules@.len() <= usize::MAX,
    ensures
        final(limiters).wf(),
        r is Err ==> rules@.len() > 0,
{
    let mut i: usize = 0;
    while i < rules.len()
        invariant
            limiters.wf(),
            i <= rules@.len(),
            base_idx + rules@.len() <= usize::MAX,
        decreases rules@.len() - i,
    {
        if let Err(e) = limiters.is_allowed(&rules[i], base_idx + i, env, tokens, now) {
            return Err(e);
        }
        i = i + 1;
    }
    Ok(())
}

impl DeliveryAttempt {
    /// Hands every held token back and forgets it: what every way out of
    /// the attempt must do.
    fn release_tokens(&mut self, limiters: &mut Limiters)
        requires
            old(limiters).wf(),
        ensures
            final(limiters).wf(),
            final(self).in_flight@.len() == 0,
            final(self).domain_tokens@.len() == 0,
            final(self).host_tokens@.len() == 0,
            final(self).message == old(self).message,
            final(self).phase == old(self).phase,
            final(self).domain_idx == old(self).domain_idx,
            final(self).hosts == old(self).hosts,
            final(self).host_idx == old(self).host_idx,
            final(self).remote_ips == old(self).remote_ips,
            final(self).ip_idx == old(self).ip_idx,
            final(self).rcpt_idxs == old(self).rcpt_idxs,
            final(self).rcpt_cursor == old(self).rcpt_cursor,
            final(self).accepted == old(self).accepted,
            final(self).on_hold == old(self).on_hold,
            final(self).last_status == old(self).last_status,
            final(self).source_ip == old(self).source_ip,
            final(self).tls_active == old(self).tls_active,
    {
        limiters.release_all(&self.in_flight);
        limiters.release_all(&self.domain_tokens);
        limiters.release_all(&self.host_tokens);
        self.in_flight = Vec::new();
        self.domain_tokens = Vec::new();
        self.host_tokens = Vec::new();
    }

    /// Hands back the tokens held for the current domain and address.
    fn release_domain_tokens(&mut self, limiters: &mut Limiters)
        requires
            old(limiters).wf(),
        ensures
            final(limiters).wf(),
            final(self).domain_tokens@.len() == 0,
            final(self).host_tokens@.len() == 0,
            final(self).in_flight == old(self).in_flight,
            final(self).message == old(self).message,
            final(self).phase == old(self).phase,
            final(self).domain_idx == old(self).domain_idx,
            final(self).hosts == old(self).hosts,
            final(self).host_idx == old(self).host_idx,
            final(self).remote_ips == old(self).remote_ips,
            final(self).ip_idx == old(self).ip_idx,
            final(self).rcpt_idxs == old(self).rcpt_idxs,
            final(self).rcpt_cursor == old(self).rcpt_cursor,
            final(self).accepted == old(self).accepted,
            final(self).on_hold == old(self).on_hold,
            final(self).last_status == old(self).last_status,
            final(self).source_ip == old(self).source_ip,
            final(self).tls_active == old(self).tls_active,
    {
        limiters.release_all(&self.domain_tokens);
        limiters.release_all(&self.host_tokens);
        self.domain_tokens = Vec::new();
        self.host_tokens = Vec::new();
    }

    /// Hands back the tokens held for the current address only.
    fn release_host_tokens(&mut self, limiters: &mut Limiters)
        requires
            old(limiters).wf(),
        ensures
            final(limiters).wf(),
            final(self).host_tokens@.len() == 0,
            final(self).in_flight == old(self).in_flight,
            final(self).domain_tokens == old(self).domain_tokens,
            final(self).message == old(self).message,
            final(self).phase == old(self).phase,
            final(self).domain_idx == old(self).domain_idx,
            final(self).hosts == old(self).hosts,
            final(self).host_idx == old(self).host_idx,
            final(self).remote_ips == old(self).remote_ips,
            final(self).ip_idx == old(self).ip_idx,
            final(self).rcpt_idxs == old(self).rcpt_idxs,
            final(self).rcpt_cursor == old(self).rcpt_cursor,
            final(self).accepted == old(self).accepted,
            final(self).on_hold == old(self).on_hold,
            final(self).last_status == old(self).last_status,
            final(self).source_ip == old(self).source_ip,
            final(self).tls_active == old(self).tls_active,
    {
        limiters.release_all(&self.host_tokens);
        self.host_tokens = Vec::new();
    }

    /// Records `status` against the current domain per `set_status` and
    /// moves to the next domain, releasing the domain's tokens.
    fn conclude_domain(&mut self, cfg: &QueueConfig, limiters: &mut Limiters, now: u64, status: Status)
        requires
            old(self).base_wf(),
            old(limiters).wf(),
            cfg.wf(),
            old(self).domain_idx < old(self).message.domains@.len(),
            forall|k: int|
                0 <= k < cfg.retry@.len() ==> now + #[trigger] cfg.retry@[k] <= u64::MAX,
        ensures
            final(self).wf(),
            final(limiters).wf(),
            final(self).message.domains@ == old(self).message.domains@.update(
                old(self).domain_idx as int,
                Domain::spec_set_status(
                    old(self).message.domains@[old(self).domain_idx as int],
                    status,
                    cfg.retry@,
                    now,
                ),
            ),
            forall|j: int|
                0 <= j < old(self).message.domains@.len()
                    ==> (#[trigger] final(self).message.domains@[j]).domain@
                    == old(self).message.domains@[j].domain@
                    && final(self).message.domains@[j].expires_at
                    == old(self).message.domains@[j].expires_at,
            final(self).message.recipients == old(self).message.recipients,
            final(self).message.id == old(self).message.id,
            final(self).message.flags == old(self).message.flags,
            final(self).message.return_path == old(self).message.return_path,
            final(self).phase is DomainStart,
            final(self).domain_idx == old(self).domain_idx + 1,
            final(self).on_hold == old(self).on_hold,
            final(self).in_flight == old(self).in_flight,
            final(self).rcpt_idxs == old(self).rcpt_idxs,
            final(self).rcpt_cursor == old(self).rcpt_cursor,
            final(self).accepted == old(self).accepted,
            final(self).hosts == old(self).hosts,
            final(self).domain_tokens@.len() == 0,
            final(self).host_tokens@.len() == 0,
    {
        let idx = self.domain_idx;
        let n = self.message.domains.len();
        proof {
            assert(idx < n);
        }
        let d = self.message.domains.remove(idx);
        let d2 = apply_set_status(d, status, self.retry_slice(cfg), now);
        self.message.domains.insert(idx, d2);
        proof {
            assert(self.message.domains@ =~= old(self).message.domains@.update(
                idx as int,
                Domain::spec_set_status(
                    old(self).message.domains@[idx as int],
                    status,
                    cfg.retry@,
                    now,
                ),
            ));
        }
        self.release_domain_tokens(limiters);
        self.phase = Phase::DomainStart;
        self.domain_idx = idx + 1;
    }

    /// Moves the current domain's next try to `retry_at` without counting
    /// an attempt — a rate-limited domain was not tried at all — and moves
    /// to the next domain.
    fn reschedule_domain(&mut self, limiters: &mut Limiters, retry_at: u64)
        requires
            old(self).base_wf(),
            old(limiters).wf(),
            old(self).domain_idx < old(self).message.domains@.len(),
        ensures
            final(self).wf(),
            final(limiters).wf(),
            final(self).message.domains@ == old(self).message.domains@.update(
                old(self).domain_idx as int,
                Domain {
                    retry: crate::message::Schedule {
                        due: retry_at,
                        inner: old(self).message.domains@[old(self).domain_idx as int].retry.inner,
                    },
                    ..old(self).message.domains@[old(self).domain_idx as int]
                },
            ),
            forall|j: int|
                0 <= j < old(self).message.domains@.len()
                    ==> (#[trigger] final(self).message.domains@[j]).domain@
                    == old(self).message.domains@[j].domain@
                    && final(self).message.domains@[j].expires_at
                    == old(self).message.domains@[j].expires_at,
            final(self).message.recipients == old(self).message.recipients,
            final(self).message.id == old(self).message.id,
            final(self).message.flags == old(self).message.flags,
            final(self).message.return_path == old(self).message.return_path,
            final(self).phase is DomainStart,
            final(self).domain_idx == old(self).domain_idx + 1,
            final(self).on_hold == old(self).on_hold,
            final(self).in_flight == old(self).in_flight,
            final(self).rcpt_idxs == old(self).rcpt_idxs,
            final(self).rcpt_cursor == old(self).rcpt_cursor,
            final(self).accepted == old(self).accepted,
            final(self).hosts == old(self).hosts,
    {
        let idx = self.domain_idx;
        let n = self.message.domains.len();
        proof {
            assert(idx < n);
        }
        let mut d = self.message.domains.remove(idx);
        d.retry.due = retry_at;
        self.message.domains.insert(idx, d);
        proof {
            assert(self.message.domains@ =~= old(self).message.domains@.update(
                idx as int,
                Domain {
                    retry: crate::message::Schedule {
                        due: retry_at,
                        inner: old(self).message.domains@[idx as int].retry.inner,
                    },
                    ..old(self).message.domains@[idx as int]
                },
            ));
        }
        self.release_domain_tokens(limiters);
        self.phase = Phase::DomainStart;
        self.domain_idx = idx + 1;
    }

    /// Remembers a host-level failure and moves to the next host.
    fn next_host(&mut self, limiters: &mut Limiters, status: Status)
        requires
            old(self).wf(),
            old(limiters).wf(),
            phase_in_host(old(self).phase),
        ensures
            final(self).wf(),
            final(limiters).wf(),
            final(self).message == old(self).message,
            final(self).phase is HostStart,
            final(self).domain_idx == old(self).domain_idx,
            final(self).hosts == old(self).hosts,
            final(self).host_idx == old(self).host_idx + 1,
            final(self).last_status == status,
            final(self).on_hold == old(self).on_hold,
            final(self).in_flight == old(self).in_flight,
            final(self).domain_tokens == old(self).domain_tokens,
    {
        let n = self.hosts.len();
        proof {
            assert(self.host_idx < n);
        }
        self.release_host_tokens(limiters);
        self.last_status = status;
        self.host_idx = self.host_idx + 1;
        self.phase = Phase::HostStart;
    }

    /// Remembers a connect failure and moves to the host's next address.
    fn next_ip(&mut self, limiters: &mut Limiters, status: Status)
        requires
            old(self).wf(),
            old(limiters).wf(),
            phase_in_connection(old(self).phase),
        ensures
            final(self).wf(),
            final(limiters).wf(),
            final(self).message == old(self).message,
            final(self).phase is IpStart,
            final(self).domain_idx == old(self).domain_idx,
            final(self).hosts == old(self).hosts,
            final(self).host_idx == old(self).host_idx,
            final(self).remote_ips == old(self).remote_ips,
            final(self).source_ip == old(self).source_ip,
            final(self).ip_idx == old(self).ip_idx + 1,
            final(self).last_status == status,
            final(self).on_hold == old(self).on_hold,
            final(self).in_flight == old(self).in_flight,
            final(self).domain_tokens == old(self).domain_tokens,
    {
        let n = self.remote_ips.len();
        proof {
            assert(self.ip_idx < n);
        }
        self.release_host_tokens(limiters);
        self.last_status = status;
        self.ip_idx = self.ip_idx + 1;
        self.phase = Phase::IpStart;
    }

    /// The retry schedule as a slice.
    fn retry_slice<'a>(&self, cfg: &'a QueueConfig) -> (r: &'a [u64])
        ensures
            r@ == cfg.retry@,
    {
        cfg.retry.as_slice()
    }

    /// Ends the attempt: hands every token back and names the outcome —
    /// exhausted concurrency pools park the message, remaining non-terminal
    /// domains schedule a retry at the earliest due time, and a message
    /// with only terminal domains is done.
    fn fold_finish(&mut self, limiters: &mut Limiters, now: u64) -> (o: AttemptOutcome)
        requires
            old(self).wf(),
            old(limiters).wf(),
        ensures
            final(self).wf(),
            final(limiters).wf(),
            final(self).message == old(self).message,
            final(self).phase is Done,
            final(self).on_hold == old(self).on_hold,
            final(self).in_flight@.len() == 0,
            final(self).domain_tokens@.len() == 0,
            final(self).host_tokens@.len() == 0,
            match o {
                AttemptOutcome::Done => old(self).on_hold@.len() == 0 && min_due(
                    old(self).message.domains@,
                ) is None,
                AttemptOutcome::Retry { due } => old(self).on_hold@.len() == 0 && min_due(
                    old(self).message.domains@,
                ) == Some(due),
                AttemptOutcome::OnHold { limiters: keys, next_due } => old(self).on_hold@.len() > 0
                    && keys@ == old(self).on_hold@ && next_due == min_due_after(
                    old(self).message.domains@,
                    now,
                ),
            },
    {
        self.release_tokens(limiters);
        self.phase = Phase::Done;
        if self.on_hold.len() > 0 {
            let keys = dup_keys(&self.on_hold);
            let next_due = self.message.next_event_after(now);
            AttemptOutcome::OnHold { limiters: keys, next_due }
        } else {
            match self.message.next_event() {
                Some(due) => AttemptOutcome::Retry { due },
                None => AttemptOutcome::Done,
            }
        }
    }
}

/// The recipients of domain `d` still worth a try, as increasing indices
/// into `msg.recipients`: those pointing at `d` whose status is not yet
/// terminal.
fn collect_rcpts(msg: &Message, d: usize) -> (r: Vec<usize>)
    ensures
        strictly_increasing(r@),
        forall|k: int|
            0 <= k < r@.len() ==> (#[trigger] r@[k]) < msg.recipients@.len()
                && msg.recipients@[r@[k] as int].domain_idx == d
                && !msg.recipients@[r@[k] as int].status.is_terminal(),
        forall|i: int|
            0 <= i < msg.recipients@.len() && (#[trigger] msg.recipients@[i]).domain_idx == d
                && !msg.recipients@[i].status.is_terminal() ==> idx_in(r@, i),
{
    let mut r: Vec<usize> = Vec::new();
    let mut i: usize = 0;
    while i < msg.recipients.len()
        invariant
            i <= msg.recipients@.len(),
            strictly_increasing(r@),
            forall|k: int|
                0 <= k < r@.len() ==> (#[trigger] r@[k]) < i
                    && msg.recipients@[r@[k] as int].domain_idx == d
                    && !msg.recipients@[r@[k] as int].status.is_terminal(),
            forall|j: int|
                0 <= j < i && (#[trigger] msg.recipients@[j]).domain_idx == d
                    && !msg.recipients@[j].status.is_terminal() ==> idx_in(r@, j),
        decreases msg.recipients@.len() - i,
    {
        let rec = &msg.recipients[i];
        let terminal = match &rec.status {
            RecipientStatus::Completed(_) => true,
            RecipientStatus::PermanentFailure(_) => true,
            _ => false,
        };
        if rec.domain_idx == d && !terminal {
            let ghost before = r@;
            r.push(i);
            proof {
                assert(r@[r@.len() - 1] == i);
                assert forall|j: int|
                    0 <= j < i + 1 && (#[trigger] msg.recipients@[j]).domain_idx == d
                        && !msg.recipients@[j].status.is_terminal() implies idx_in(r@, j) by {
                    if j < i {
                        assert(idx_in(before, j));
                        let k = choose|k: int| 0 <= k < before.len() && #[trigger] before[k] == j;
                        assert(r@[k] == j);
                    } else {
                        assert(r@[r@.len() - 1] == j);
                    }
                }
            }
        }
        i = i + 1;
    }
    r
}

impl DeliveryAttempt {
    /// Replaces the status of the recipient at `idx`, keeping the rest.
    fn mark_rcpt(&mut self, idx: usize, status: RecipientStatus)
        requires
            idx < old(self).message.recipients@.len(),
        ensures
            final(self).message.recipients@ == old(self).message.recipients@.update(
                idx as int,
                Recipient { status, ..old(self).message.recipients@[idx as int] },
            ),
            final(self).message.domains == old(self).message.domains,
            final(self).message.id == old(self).message.id,
            final(self).message.flags == old(self).message.flags,
            final(self).message.return_path == old(self).message.return_path,
            final(self).phase == old(self).phase,
            final(self).domain_idx == old(self).domain_idx,
            final(self).hosts == old(self).hosts,
            final(self).host_idx == old(self).host_idx,
            final(self).remote_ips == old(self).remote_ips,
            final(self).ip_idx == old(self).ip_idx,
            final(self).rcpt_idxs == old(self).rcpt_idxs,
            final(self).rcpt_cursor == old(self).rcpt_cursor,
            final(self).accepted == old(self).accepted,
            final(self).on_hold == old(self).on_hold,
            final(self).in_flight == old(self).in_flight,
            final(self).domain_tokens == old(self).domain_tokens,
            final(self).host_tokens == old(self).host_tokens,
            final(self).last_status == old(self).last_status,
    {
        let rec = &self.message.recipients[idx];
        let updated = Recipient {
            address: rec.address.clone(),
            domain_idx: rec.domain_idx,
            status,
        };
        self.message.recipients.set(idx, updated);
        proof {
            assert(self.message.recipients@ =~= old(self).message.recipients@.update(
                idx as int,
                Recipient { status, ..old(self).message.recipients@[idx as int] },
            ));
        }
    }

    /// Marks every accepted recipient completed with the final reply.
    fn complete_accepted(&mut self, reply: &Reply)
        requires
            forall|k: int|
                0 <= k < old(self).accepted@.len() ==> (#[trigger] old(self).accepted@[k])
                    < old(self).message.recipients@.len(),
        ensures
            final(self).message.recipients@.len() == old(self).message.recipients@.len(),
            forall|i: int|
                0 <= i < old(self).message.recipients@.len() ==> final(self).message.recipients@[i]
                    == (if idx_in(old(self).accepted@, i) {
                    Recipient {
                        status: RecipientStatus::Completed(*reply),
                        ..old(self).message.recipients@[i]
                    }
                } else {
                    old(self).message.recipients@[i]
                }),
            final(self).message.domains == old(self).message.domains,
            final(self).message.id == old(self).message.id,
            final(self).message.flags == old(self).message.flags,
            final(self).message.return_path == old(self).message.return_path,
            final(self).phase == old(self).phase,
            final(self).domain_idx == old(self).domain_idx,
            final(self).on_hold == old(self).on_hold,
            final(self).in_flight == old(self).in_flight,
            final(self).domain_tokens == old(self).domain_tokens,
            final(self).host_tokens == old(self).host_tokens,
            final(self).accepted == old(self).accepted,
            final(self).rcpt_idxs == old(self).rcpt_idxs,
            final(self).rcpt_cursor == old(self).rcpt_cursor,
            final(self).hosts == old(self).hosts,
            final(self).host_idx == old(self).host_idx,
            final(self).remote_ips == old(self).remote_ips,
            final(self).ip_idx == old(self).ip_idx,
            final(self).last_status == old(self).last_status,
    {
        let n = self.accepted.len();
        let mut k: usize = 0;
        while k < n
            invariant
                n == self.accepted@.len(),
                k <= n,
                self.accepted == old(self).accepted,
                self.message.recipients@.len() == old(self).message.recipients@.len(),
                forall|k2: int|
                    0 <= k2 < n ==> (#[trigger] self.accepted@[k2])
                        < old(self).message.recipients@.len(),
                forall|i: int|
                    0 <= i < old(self).message.recipients@.len()
                        ==> #[trigger] self.message.recipients@[i] == (if idx_in(
                        old(self).accepted@.take(k as int),
                        i,
                    ) {
                        Recipient {
                            status: RecipientStatus::Completed(*reply),
                            ..old(self).message.recipients@[i]
                        }
                    } else {
                        old(self).message.recipients@[i]
                    }),
                self.message.domains == old(self).message.domains,
                self.message.id == old(self).message.id,
                self.message.flags == old(self).message.flags,
                self.message.return_path == old(self).message.return_path,
                self.phase == old(self).phase,
                self.domain_idx == old(self).domain_idx,
                self.on_hold == old(self).on_hold,
                self.in_flight == old(self).in_flight,
                self.domain_tokens == old(self).domain_tokens,
                self.host_tokens == old(self).host_tokens,
                self.rcpt_idxs == old(self).rcpt_idxs,
                self.rcpt_cursor == old(self).rcpt_cursor,
                self.hosts == old(self).hosts,
                self.host_idx == old(self).host_idx,
                self.remote_ips == old(self).remote_ips,
                self.ip_idx == old(self).ip_idx,
                self.last_status == old(self).last_status,
            decreases n - k,
        {
            let idx = self.accepted[k];
            let rec = &self.message.recipients[idx];
            let updated = Recipient {
                address: rec.address.clone(),
                domain_idx: rec.domain_idx,
                status: RecipientStatus::Completed(reply.clone_reply()),
            };
            self.message.recipients.set(idx, updated);
            proof {
                let acc = old(self).accepted@;
                assert(acc.take(k + 1 as int).last() == acc[k as int]);
                assert forall|i: int| 0 <= i < old(self).message.recipients@.len() implies
                    self.message.recipients@[i] == (if idx_in(acc.take(k + 1 as int), i) {
                        Recipient {
                            status: RecipientStatus::Completed(*reply),
                            ..old(self).message.recipients@[i]
                        }
                    } else {
                        old(self).message.recipients@[i]
                    }) by {
                    if idx_in(acc.take(k + 1 as int), i) {
                        let k2 = choose|k2: int|
                            0 <= k2 < acc.take(k + 1 as int).len() && #[trigger] acc.take(
                                k + 1 as int,
                            )[k2] == i;
                        if k2 < k {
                            assert(idx_in(acc.take(k as int), i));
                        }
                    } else {
                        assert(!idx_in(acc.take(k as int), i)) by {
                            if idx_in(acc.take(k as int), i) {
                                let k3 = choose|k3: int|
                                    0 <= k3 < acc.take(k as int).len() && #[trigger] acc.take(
                                        k as int,
                                    )[k3] == i;
                                assert(acc.take(k + 1 as int)[k3] == i);
                            }
                        }
                        assert(i != acc[k as int]) by {
                            if i == acc[k as int] {
                                assert(acc.take(k + 1 as int)[k as int] == i);
                            }
                        }
                    }
                }
            }
            k = k + 1;
        }
        proof {
            assert(old(self).accepted@.take(n as int) =~= old(self).accepted@);
        }
    }
}

/// What every move of the machine preserves: the shape of the message,
/// terminal domains, terminal recipient results, and the forward march of
/// retry counters.
pub open spec fn step_invariants(pre: DeliveryAttempt, post: DeliveryAttempt) -> bool {
    &&& post.message.domains@.len() == pre.message.domains@.len()
    &&& post.message.recipients@.len() == pre.message.recipients@.len()
    &&& forall|j: int|
        0 <= j < pre.message.domains@.len() && (#[trigger] pre.message.domains@[j]).status.is_terminal()
            ==> post.message.domains@[j] == pre.message.domains@[j]
    &&& forall|j: int|
        0 <= j < pre.message.domains@.len() ==> (#[trigger] post.message.domains@[j]).retry.inner
            >= pre.message.domains@[j].retry.inner
    &&& forall|k: int|
        0 <= k < pre.message.recipients@.len() && (#[trigger] pre.message.recipients@[k]).status.is_terminal()
            ==> post.message.recipients@[k] == pre.message.recipients@[k]
    &&& forall|j: int|
        0 <= j < pre.message.domains@.len() ==> (#[trigger] post.message.domains@[j]).domain@
            == pre.message.domains@[j].domain@ && post.message.domains@[j].expires_at
            == pre.message.domains@[j].expires_at
    &&& forall|k: int|
        0 <= k < pre.message.recipients@.len() ==> (#[trigger] post.message.recipients@[k]).address@
            == pre.message.recipients@[k].address@ && post.message.recipients@[k].domain_idx
            == pre.message.recipients@[k].domain_idx
    &&& post.message.id == pre.message.id
    &&& post.message.flags == pre.message.flags
    &&& post.message.return_path@ == pre.message.return_path@
}

/// What a named outcome must say of the finished attempt: no token stays
/// held, a retry due time is exactly the earliest due time over the
/// remaining non-terminal domains (unless the whole attempt was rate-limited
/// before it began), and a parked message names the exhausted limiters.
pub open spec fn step_outcome_ok(
    pre: DeliveryAttempt,
    post: DeliveryAttempt,
    r: AttemptAction,
    now: u64,
) -> bool {
    &&& (r is Finished <==> post.phase is Done)
    &&& match r {
        AttemptAction::Finished(o) => {
            &&& post.in_flight@.len() == 0
            &&& post.domain_tokens@.len() == 0
            &&& post.host_tokens@.len() == 0
            &&& match o {
                AttemptOutcome::Done => post.on_hold@.len() == 0 && min_due(post.message.domains@) is None,
                AttemptOutcome::Retry { due } => pre.phase is SenderThrottle || (post.on_hold@.len()
                    == 0 && min_due(post.message.domains@) == Some(due)),
                AttemptOutcome::OnHold { limiters: keys, next_due } => post.on_hold@.len() > 0
                    && keys@ == post.on_hold@ && next_due == min_due_after(
                    post.message.domains@,
                    now,
                ),
            }
        },
        _ => true,
    }
}


/// The name of the host under work.
pub open spec fn cur_mx(pre: DeliveryAttempt) -> Seq<char> {
    pre.hosts@[pre.host_idx as int].spec_hostname()
}

/// The domain under work.
pub open spec fn cur_domain(pre: DeliveryAttempt) -> Domain {
    pre.message.domains@[pre.domain_idx as int]
}

/// The attempt concluded the domain under work with `st` and moved on:
/// `set_status` applied at the working index, everything else untouched.
pub open spec fn concluded_with(
    pre: DeliveryAttempt,
    post: DeliveryAttempt,
    cfg: QueueConfig,
    now: u64,
    st: Status,
) -> bool {
    &&& post.message.domains@ == pre.message.domains@.update(
        pre.domain_idx as int,
        Domain::spec_set_status(cur_domain(pre), st, cfg.retry@, now),
    )
    &&& post.message.recipients@ == pre.message.recipients@
    &&& post.domain_idx == pre.domain_idx + 1
    &&& post.phase is DomainStart
    &&& post.on_hold@ == pre.on_hold@
}

/// The domain under work was concluded with the classification of `err`
/// against the host under work, under the given note context.
pub open spec fn classified_conclusion(
    pre: DeliveryAttempt,
    post: DeliveryAttempt,
    cfg: QueueConfig,
    now: u64,
    context: Seq<char>,
    err: ClientError,
) -> bool {
    exists|st: Status|
        #![auto]
        is_client_error_status(st, context, cur_mx(pre), err) && concluded_with(
            pre,
            post,
            cfg,
            now,
            st,
        )
}

/// The domain under work was pushed to `retry_at` without counting an
/// attempt — a throttled domain was not tried — and the attempt moved on.
pub open spec fn rescheduled_domain(
    pre: DeliveryAttempt,
    post: DeliveryAttempt,
    retry_at: u64,
) -> bool {
    &&& post.message.domains@ == pre.message.domains@.update(
        pre.domain_idx as int,
        Domain {
            retry: crate::message::Schedule { due: retry_at, inner: cur_domain(pre).retry.inner },
            ..cur_domain(pre)
        },
    )
    &&& post.message.recipients@ == pre.message.recipients@
    &&& post.domain_idx == pre.domain_idx + 1
    &&& post.phase is DomainStart
    &&& post.on_hold@ == pre.on_hold@
}

/// A concurrency pool was exhausted: the message is untouched, exactly one
/// limiter key was recorded, and the attempt moved to the next domain.
pub open spec fn parked_next_domain(pre: DeliveryAttempt, post: DeliveryAttempt) -> bool {
    &&& post.message == pre.message
    &&& exists|k: LimiterKey| post.on_hold@ == pre.on_hold@.push(k)
    &&& post.domain_idx == pre.domain_idx + 1
    &&& post.phase is DomainStart
}

/// The attempt gave up on the host under work and moved to the next one,
/// leaving the message untouched.
pub open spec fn advanced_host(pre: DeliveryAttempt, post: DeliveryAttempt) -> bool {
    &&& post.message == pre.message
    &&& post.domain_idx == pre.domain_idx
    &&& post.hosts == pre.hosts
    &&& post.host_idx == pre.host_idx + 1
    &&& post.phase is HostStart
    &&& post.on_hold@ == pre.on_hold@
}

/// The attempt gave up on the address under work and moved to the next one,
/// leaving the message untouched.
pub open spec fn advanced_ip(pre: DeliveryAttempt, post: DeliveryAttempt) -> bool {
    &&& post.message == pre.message
    &&& post.domain_idx == pre.domain_idx
    &&& post.hosts == pre.hosts
    &&& post.host_idx == pre.host_idx
    &&& post.remote_ips == pre.remote_ips
    &&& post.source_ip == pre.source_ip
    &&& post.ip_idx == pre.ip_idx + 1
    &&& post.phase is IpStart
    &&& post.on_hold@ == pre.on_hold@
}

/// The attempt stays on the same connection: only the dialogue advances.
pub open spec fn same_connection(pre: DeliveryAttempt, post: DeliveryAttempt) -> bool {
    &&& post.message == pre.message
    &&& post.domain_idx == pre.domain_idx
    &&& post.hosts == pre.hosts
    &&& post.host_idx == pre.host_idx
    &&& post.remote_ips == pre.remote_ips
    &&& post.ip_idx == pre.ip_idx
    &&& post.on_hold@ == pre.on_hold@
    &&& post.last_status == pre.last_status
}

/// `idxs` lists exactly the recipients of domain `d` still worth a try, in
/// increasing order.
pub open spec fn rcpts_listed(idxs: Seq<usize>, msg: Message, d: int) -> bool {
    &&& strictly_increasing(idxs)
    &&& forall|k: int|
        0 <= k < idxs.len() ==> (#[trigger] idxs[k]) < msg.recipients@.len()
            && msg.recipients@[idxs[k] as int].domain_idx == d
            && !msg.recipients@[idxs[k] as int].status.is_terminal()
    &&& forall|i: int|
        0 <= i < msg.recipients@.len() && (#[trigger] msg.recipients@[i]).domain_idx == d
            && !msg.recipients@[i].status.is_terminal() ==> idx_in(idxs, i)
}

/// Whether the policy forbids falling back to cleartext for this message.
pub open spec fn tls_mandatory(pre: DeliveryAttempt, cfg: QueueConfig) -> bool {
    cfg.encryption.spec_is_tls_required() || pre.message.flags & MAIL_REQUIRETLS != 0
}

/// What the machine did on the sender-throttle move: the rules passed and
/// the domain walk begins, or a rate refusal reschedules the whole message,
/// or an exhausted pool parks it with its key recorded — the message itself
/// untouched either way.
pub open spec fn trans_sender(
    pre: DeliveryAttempt,
    post: DeliveryAttempt,
    cfg: QueueConfig,
    r: AttemptAction,
) -> bool {
    match r {
        AttemptAction::Continue => post.phase is DomainStart && post.message == pre.message
            && post.on_hold@ == pre.on_hold@ && post.domain_idx == pre.domain_idx,
        AttemptAction::Finished(o) => cfg.throttle_sender@.len() > 0 && post.message == pre.message
            && (match o {
            AttemptOutcome::Retry { .. } => post.on_hold@ == pre.on_hold@,
            AttemptOutcome::OnHold { .. } => exists|k: LimiterKey|
                post.on_hold@ == pre.on_hold@.push(k),
            AttemptOutcome::Done => false,
        }),
        _ => false,
    }
}

/// What the machine did on a domain-start move: finish when every domain
/// was visited; skip a domain not due or not attemptable, unchanged; fail an
/// expired one permanently; otherwise throttle and route it.
pub open spec fn trans_domain_start(
    pre: DeliveryAttempt,
    post: DeliveryAttempt,
    cfg: QueueConfig,
    now: u64,
    r: AttemptAction,
) -> bool {
    if pre.domain_idx >= pre.message.domains@.len() {
        r is Finished && post.message == pre.message && post.on_hold@ == pre.on_hold@
    } else {
        let d = cur_domain(pre);
        if !(d.status.is_attemptable() && d.retry.due <= now) {
            &&& r is Continue
            &&& post.message == pre.message
            &&& post.domain_idx == pre.domain_idx + 1
            &&& post.phase is DomainStart
            &&& post.on_hold@ == pre.on_hold@
        } else if d.expires_at <= now {
            r is Continue && concluded_with(
                pre,
                post,
                cfg,
                now,
                Status::PermanentFailure(Error::Expired),
            )
        } else {
            ||| (cfg.throttle_rcpt@.len() > 0 && r is Continue && exists|retry_at: u64|
                rescheduled_domain(pre, post, retry_at))
            ||| (cfg.throttle_rcpt@.len() > 0 && r is Continue && parked_next_domain(pre, post))
            ||| (post.message == pre.message && post.on_hold@ == pre.on_hold@ && post.domain_idx
                == pre.domain_idx && (match cfg.next_hop {
                Some(relay) => post.hosts@.len() == 1 && post.hosts@[0] == RemoteHost::Relay(relay)
                    && post.host_idx == 0 && post.phase is HostStart && r is Continue,
                None => post.phase is MxWait && (r matches AttemptAction::LookupMx { domain }
                    && domain@ == d.domain@),
            }))
        }
    }
}

/// What the machine did with the MX answer: a resolver failure concludes
/// the domain by classification; an answer plans the host list.
pub open spec fn trans_mx(
    pre: DeliveryAttempt,
    post: DeliveryAttempt,
    cfg: QueueConfig,
    now: u64,
    res: Result<Vec<MxRecord>, DnsFailure>,
    r: AttemptAction,
) -> bool {
    match res {
        Err(f) => r is Continue && concluded_with(
            pre,
            post,
            cfg,
            now,
            Status::spec_from_dns_failure(f),
        ),
        Ok(mx_list) => {
            &&& post.message == pre.message
            &&& post.on_hold@ == pre.on_hold@
            &&& post.domain_idx == pre.domain_idx
            &&& crate::planner::hosts_planned(
                post.hosts@,
                cur_domain(pre).domain@,
                mx_list@,
                cfg.max_mx as int,
            )
            &&& post.host_idx == 0
            &&& post.phase is HostStart
            &&& r is Continue
        },
    }
}

/// What the machine did on a host-start move: out of hosts, the last
/// failure is recorded against the domain; otherwise the host's name goes
/// to the resolver.
pub open spec fn trans_host_start(
    pre: DeliveryAttempt,
    post: DeliveryAttempt,
    cfg: QueueConfig,
    now: u64,
    r: AttemptAction,
) -> bool {
    if pre.host_idx >= pre.hosts@.len() {
        r is Continue && concluded_with(pre, post, cfg, now, pre.last_status)
    } else {
        &&& post.message == pre.message
        &&& post.domain_idx == pre.domain_idx
        &&& post.hosts == pre.hosts
        &&& post.host_idx == pre.host_idx
        &&& post.on_hold@ == pre.on_hold@
        &&& post.phase is IpsWait
        &&& (r matches AttemptAction::LookupIps { host } && host@ == pre.hosts@[
            pre.host_idx as int].spec_fqdn_hostname())
    }
}

/// What the machine did with the address answer: failures and empty
/// answers move to the next host with the failure remembered; addresses are
/// kept in resolver order, cut to the configured bound, with a source drawn
/// from the matching pool.
pub open spec fn trans_ips(
    pre: DeliveryAttempt,
    post: DeliveryAttempt,
    cfg: QueueConfig,
    res: Result<Vec<Ip>, DnsFailure>,
    r: AttemptAction,
) -> bool {
    match res {
        Err(f) => r is Continue && advanced_host(pre, post) && post.last_status
            == Status::spec_from_dns_failure(f),
        Ok(ips) => {
            if ips@.len() == 0 || cfg.max_multihomed == 0 {
                &&& r is Continue
                &&& advanced_host(pre, post)
                &&& (post.last_status matches Status::TemporaryFailure(Error::DnsError(m)) && m@
                    == crate::planner::spec_no_ip_note(cur_mx(pre)))
            } else {
                &&& r is Continue
                &&& post.message == pre.message
                &&& post.domain_idx == pre.domain_idx
                &&& post.hosts == pre.hosts
                &&& post.host_idx == pre.host_idx
                &&& post.on_hold@ == pre.on_hold@
                &&& post.remote_ips@ == ips@.take(
                    crate::planner::min_size(cfg.max_multihomed as int, ips@.len() as int),
                )
                &&& crate::planner::source_chosen(
                    post.source_ip,
                    ips@,
                    cfg.source_ipv4@,
                    cfg.source_ipv6@,
                )
                &&& post.ip_idx == 0
                &&& post.phase is IpStart
            }
        },
    }
}

/// What the machine did on an address-start move: out of addresses, the
/// next host is tried; otherwise the host throttles run and a connection to
/// exactly this address and the host's port is requested.
pub open spec fn trans_ip_start(
    pre: DeliveryAttempt,
    post: DeliveryAttempt,
    cfg: QueueConfig,
    r: AttemptAction,
) -> bool {
    if pre.ip_idx >= pre.remote_ips@.len() {
        &&& r is Continue
        &&& post.message == pre.message
        &&& post.domain_idx == pre.domain_idx
        &&& post.hosts == pre.hosts
        &&& post.host_idx == pre.host_idx + 1
        &&& post.last_status == pre.last_status
        &&& post.on_hold@ == pre.on_hold@
        &&& post.phase is HostStart
    } else {
        ||| (cfg.throttle_host@.len() > 0 && r is Continue && exists|retry_at: u64|
            rescheduled_domain(pre, post, retry_at))
        ||| (cfg.throttle_host@.len() > 0 && r is Continue && parked_next_domain(pre, post))
        ||| {
            &&& post.message == pre.message
            &&& post.domain_idx == pre.domain_idx
            &&& post.hosts == pre.hosts
            &&& post.host_idx == pre.host_idx
            &&& post.remote_ips == pre.remote_ips
            &&& post.ip_idx == pre.ip_idx
            &&& post.on_hold@ == pre.on_hold@
            &&& post.phase is ConnectWait
            &&& (r matches AttemptAction::Connect { source, remote, port, timeout } && source
                == pre.source_ip && remote == pre.remote_ips@[pre.ip_idx as int] && port
                == pre.hosts@[pre.host_idx as int].spec_port() && timeout == cfg.timeouts.connect)
        }
    }
}

/// What the machine did with the connect outcome: a failure moves to the
/// next address without touching the domain; a connection opens with
/// implicit TLS, a cleartext greeting, or — under a strategy this engine
/// does not support — a permanent configuration failure.
pub open spec fn trans_connected(
    pre: DeliveryAttempt,
    post: DeliveryAttempt,
    cfg: QueueConfig,
    now: u64,
    res: Result<(), ClientError>,
    r: AttemptAction,
) -> bool {
    match res {
        Err(e) => r is Continue && advanced_ip(pre, post) && is_client_error_status(
            post.last_status,
            "Failed to connect to"@,
            cur_mx(pre),
            e,
        ),
        Ok(_) => {
            if cfg.encryption is Dane {
                r is Continue && exists|st: Status|
                    #![auto]
                    (st matches Status::PermanentFailure(Error::ConfigError(m)) && m@
                        == "DANE is not supported"@) && concluded_with(pre, post, cfg, now, st)
            } else if pre.hosts@[pre.host_idx as int].spec_implicit_tls() {
                &&& same_connection(pre, post)
                &&& post.phase == (Phase::TlsWait { implicit: true })
                &&& (r matches AttemptAction::UpgradeTls { hostname, allow_invalid_certs, timeout }
                    && hostname@ == cur_mx(pre) && allow_invalid_certs == pre.hosts@[
                    pre.host_idx as int].spec_allow_invalid_certs() && timeout == cfg.timeouts.tls)
            } else {
                &&& same_connection(pre, post)
                &&& post.phase is GreetingWait
                &&& (r matches AttemptAction::ReadGreeting { timeout } && timeout
                    == cfg.timeouts.greeting)
            }
        },
    }
}

/// What the machine did with the TLS outcome: a failed handshake moves to
/// the next host; after an implicit upgrade the greeting is read, after
/// STARTTLS the session restarts with EHLO.
pub open spec fn trans_tls_done(
    pre: DeliveryAttempt,
    post: DeliveryAttempt,
    cfg: QueueConfig,
    implicit: bool,
    res: Result<(), ClientError>,
    r: AttemptAction,
) -> bool {
    match res {
        Err(e) => r is Continue && advanced_host(pre, post) && is_client_error_status(
            post.last_status,
            "TLS handshake failed with"@,
            cur_mx(pre),
            e,
        ),
        Ok(_) => {
            &&& same_connection(pre, post)
            &&& post.tls_active
            &&& if implicit {
                post.phase is GreetingWait && (r matches AttemptAction::ReadGreeting { timeout }
                    && timeout == cfg.timeouts.greeting)
            } else {
                post.phase == (Phase::EhloWait { probe_starttls: false }) && (r matches
                AttemptAction::SendEhlo { hostname, timeout } && hostname@ == cfg.ehlo_hostname@
                    && timeout == cfg.timeouts.ehlo)
            }
        },
    }
}

/// What the machine did with the greeting: anything but 220 gives up on the
/// host; 220 starts EHLO, probing for STARTTLS only on a cleartext
/// connection whose strategy allows TLS at all.
pub open spec fn trans_greeting(
    pre: DeliveryAttempt,
    post: DeliveryAttempt,
    cfg: QueueConfig,
    res: SmtpResult,
    r: AttemptAction,
) -> bool {
    match res {
        SmtpResult::Failed(e) => r is Continue && advanced_host(pre, post)
            && is_client_error_status(
            post.last_status,
            "Failed to read greeting from"@,
            cur_mx(pre),
            e,
        ),
        SmtpResult::Reply(rep) => {
            if rep.code != 220 {
                r is Continue && advanced_host(pre, post) && is_client_error_status(
                    post.last_status,
                    "Invalid greeting from"@,
                    cur_mx(pre),
                    ClientError::UnexpectedReply(rep),
                )
            } else {
                &&& same_connection(pre, post)
                &&& post.phase == (Phase::EhloWait {
                    probe_starttls: !pre.tls_active && !(cfg.encryption is Disable),
                })
                &&& (r matches AttemptAction::SendEhlo { hostname, timeout } && hostname@
                    == cfg.ehlo_hostname@ && timeout == cfg.timeouts.ehlo)
            }
        },
    }
}

/// The dialogue moved to MAIL FROM.
pub open spec fn entered_mail(
    pre: DeliveryAttempt,
    post: DeliveryAttempt,
    cfg: QueueConfig,
    r: AttemptAction,
) -> bool {
    &&& same_connection(pre, post)
    &&& post.phase is MailWait
    &&& (r matches AttemptAction::SendMailFrom { sender, timeout } && sender@
        == pre.message.return_path@ && timeout == cfg.timeouts.mail)
}

/// What the machine did with the EHLO answer. On the cleartext probe:
/// STARTTLS advertised starts the upgrade; missing STARTTLS defers the host
/// when policy mandates TLS and otherwise continues in cleartext. After TLS
/// (or with TLS disabled) a good reply moves to MAIL FROM. A probe failure
/// gives up on the host; a session failure concludes the domain.
pub open spec fn trans_ehlo(
    pre: DeliveryAttempt,
    post: DeliveryAttempt,
    cfg: QueueConfig,
    now: u64,
    probe: bool,
    res: Result<EhloReply, ClientError>,
    r: AttemptAction,
) -> bool {
    match res {
        Err(e) => r is Continue && if probe {
            advanced_host(pre, post) && is_client_error_status(
                post.last_status,
                "Failed to say EHLO to"@,
                cur_mx(pre),
                e,
            )
        } else {
            classified_conclusion(pre, post, cfg, now, "Failed to say EHLO to"@, e)
        },
        Ok(er) => {
            if er.reply.code < 200 || er.reply.code >= 300 {
                r is Continue && if probe {
                    advanced_host(pre, post) && is_client_error_status(
                        post.last_status,
                        "Unexpected EHLO reply from"@,
                        cur_mx(pre),
                        ClientError::UnexpectedReply(er.reply),
                    )
                } else {
                    classified_conclusion(
                        pre,
                        post,
                        cfg,
                        now,
                        "Unexpected EHLO reply from"@,
                        ClientError::UnexpectedReply(er.reply),
                    )
                }
            } else if probe && er.starttls {
                &&& same_connection(pre, post)
                &&& post.phase is StartTlsWait
                &&& (r matches AttemptAction::SendStartTls { timeout } && timeout
                    == cfg.timeouts.tls)
            } else if probe && !er.starttls && tls_mandatory(pre, cfg) {
                r is Continue && advanced_host(pre, post) && post.last_status
                    == Status::TemporaryFailure(Error::TlsRequiredUnavailable(er.reply))
            } else {
                entered_mail(pre, post, cfg, r)
            }
        },
    }
}

/// What the machine did with the STARTTLS reply: 220 upgrades; a refusal
/// defers the host when policy mandates TLS and otherwise continues in
/// cleartext; a transport failure gives up on the host.
pub open spec fn trans_starttls(
    pre: DeliveryAttempt,
    post: DeliveryAttempt,
    cfg: QueueConfig,
    res: SmtpResult,
    r: AttemptAction,
) -> bool {
    match res {
        SmtpResult::Failed(e) => r is Continue && advanced_host(pre, post)
            && is_client_error_status(
            post.last_status,
            "Failed STARTTLS with"@,
            cur_mx(pre),
            e,
        ),
        SmtpResult::Reply(rep) => {
            if rep.code == 220 {
                &&& same_connection(pre, post)
                &&& post.phase == (Phase::TlsWait { implicit: false })
                &&& (r matches AttemptAction::UpgradeTls { hostname, allow_invalid_certs, timeout }
                    && hostname@ == cur_mx(pre) && allow_invalid_certs == pre.hosts@[
                    pre.host_idx as int].spec_allow_invalid_certs() && timeout == cfg.timeouts.tls)
            } else if tls_mandatory(pre, cfg) {
                r is Continue && advanced_host(pre, post) && post.last_status
                    == Status::TemporaryFailure(Error::TlsRequiredUnavailable(rep))
            } else {
                entered_mail(pre, post, cfg, r)
            }
        },
    }
}

/// What the machine did with the MAIL FROM reply: acceptance starts the
/// recipient round over exactly the domain's still-pending recipients; a
/// domain with none left completes at once; anything else concludes the
/// domain by classification.
pub open spec fn trans_mail(
    pre: DeliveryAttempt,
    post: DeliveryAttempt,
    cfg: QueueConfig,
    now: u64,
    res: SmtpResult,
    r: AttemptAction,
) -> bool {
    match res {
        SmtpResult::Failed(e) => r is Continue && classified_conclusion(
            pre,
            post,
            cfg,
            now,
            "Failed MAIL FROM with"@,
            e,
        ),
        SmtpResult::Reply(rep) => {
            if rep.code < 200 || rep.code >= 300 {
                r is Continue && classified_conclusion(
                    pre,
                    post,
                    cfg,
                    now,
                    "Unexpected MAIL FROM reply from"@,
                    ClientError::UnexpectedReply(rep),
                )
            } else if !(exists|i: int|
                0 <= i < pre.message.recipients@.len() && (#[trigger] pre.message.recipients@[
                i]).domain_idx == pre.domain_idx && !pre.message.recipients@[
                i].status.is_terminal()) {
                r is Continue && concluded_with(pre, post, cfg, now, Status::Completed)
            } else {
                &&& same_connection(pre, post)
                &&& post.phase is RcptWait
                &&& rcpts_listed(post.rcpt_idxs@, pre.message, pre.domain_idx as int)
                &&& post.rcpt_idxs@.len() > 0
                &&& post.rcpt_cursor == 0
                &&& post.accepted@.len() == 0
                &&& (r matches AttemptAction::SendRcpt { address, timeout } && address@
                    == pre.message.recipients@[post.rcpt_idxs@[0] as int].address@ && timeout
                    == cfg.timeouts.rcpt)
            }
        },
    }
}

/// What the machine did with one RCPT TO reply: acceptance keeps the
/// recipient for DATA; a permanent refusal fails it permanently and any
/// other refusal temporarily, each carrying the reply; then the next
/// recipient is asked for, or DATA begins, or — with every recipient
/// refused — the domain concludes with a refusal response of its own.
pub open spec fn trans_rcpt(
    pre: DeliveryAttempt,
    post: DeliveryAttempt,
    cfg: QueueConfig,
    now: u64,
    res: SmtpResult,
    r: AttemptAction,
) -> bool {
    match res {
        SmtpResult::Failed(e) => r is Continue && classified_conclusion(
            pre,
            post,
            cfg,
            now,
            "Failed RCPT TO with"@,
            e,
        ),
        SmtpResult::Reply(rep) => {
            let idx = pre.rcpt_idxs@[pre.rcpt_cursor as int] as int;
            let accepted = spec_severity(rep.code) == Severity::PositiveCompletion;
            let rcpts = if accepted {
                pre.message.recipients@
            } else if spec_severity(rep.code) == Severity::PermanentNegativeCompletion {
                pre.message.recipients@.update(
                    idx,
                    Recipient {
                        status: RecipientStatus::PermanentFailure(rep),
                        ..pre.message.recipients@[idx]
                    },
                )
            } else {
                pre.message.recipients@.update(
                    idx,
                    Recipient {
                        status: RecipientStatus::TemporaryFailure(rep),
                        ..pre.message.recipients@[idx]
                    },
                )
            };
            let accepted_after = if accepted {
                pre.accepted@.push(pre.rcpt_idxs@[pre.rcpt_cursor as int])
            } else {
                pre.accepted@
            };
            &&& post.accepted@ == accepted_after
            &&& post.rcpt_idxs == pre.rcpt_idxs
            &&& post.on_hold@ == pre.on_hold@
            &&& if pre.rcpt_cursor + 1 < pre.rcpt_idxs@.len() {
                &&& post.message.recipients@ == rcpts
                &&& post.message.domains@ == pre.message.domains@
                &&& post.rcpt_cursor == pre.rcpt_cursor + 1
                &&& post.phase is RcptWait
                &&& (r matches AttemptAction::SendRcpt { address, timeout } && address@
                    == pre.message.recipients@[pre.rcpt_idxs@[pre.rcpt_cursor + 1] as int].address@
                    && timeout == cfg.timeouts.rcpt)
            } else if accepted_after.len() > 0 {
                &&& post.message.recipients@ == rcpts
                &&& post.message.domains@ == pre.message.domains@
                &&& post.phase is DataInitWait
                &&& (r matches AttemptAction::SendDataInit { timeout } && timeout
                    == cfg.timeouts.data)
            } else {
                &&& post.message.recipients@ == rcpts
                &&& post.message.domains@ == pre.message.domains@.update(
                    pre.domain_idx as int,
                    Domain::spec_set_status(
                        cur_domain(pre),
                        post.message.domains@[pre.domain_idx as int].status,
                        cfg.retry@,
                        now,
                    ),
                )
                &&& (post.message.domains@[pre.domain_idx as int].status matches
                Status::PermanentFailure(Error::UnexpectedResponse { .. })
                    || post.message.domains@[pre.domain_idx as int].status matches
                Status::TemporaryFailure(Error::UnexpectedResponse { .. }))
                &&& post.domain_idx == pre.domain_idx + 1
                &&& post.phase is DomainStart
                &&& r is Continue
            }
        },
    }
}

/// What the machine did with the DATA reply: 354 sends the content;
/// anything else concludes the domain by classification.
pub open spec fn trans_data_init(
    pre: DeliveryAttempt,
    post: DeliveryAttempt,
    cfg: QueueConfig,
    now: u64,
    res: SmtpResult,
    r: AttemptAction,
) -> bool {
    match res {
        SmtpResult::Failed(e) => r is Continue && classified_conclusion(
            pre,
            post,
            cfg,
            now,
            "Failed DATA with"@,
            e,
        ),
        SmtpResult::Reply(rep) => {
            if rep.code == 354 {
                &&& same_connection(pre, post)
                &&& post.accepted == pre.accepted
                &&& post.phase is DataFinalWait
                &&& (r matches AttemptAction::SendDataFinal { timeout } && timeout
                    == cfg.timeouts.data)
            } else {
                r is Continue && classified_conclusion(
                    pre,
                    post,
                    cfg,
                    now,
                    "Unexpected DATA reply from"@,
                    ClientError::UnexpectedReply(rep),
                )
            }
        },
    }
}

/// What the machine did with the final reply after the content: acceptance
/// completes the domain and every accepted recipient with that reply;
/// anything else concludes the domain by classification, leaving the
/// recipients as the RCPT round recorded them.
pub open spec fn trans_data_final(
    pre: DeliveryAttempt,
    post: DeliveryAttempt,
    cfg: QueueConfig,
    now: u64,
    res: SmtpResult,
    r: AttemptAction,
) -> bool {
    match res {
        SmtpResult::Failed(e) => r is Continue && classified_conclusion(
            pre,
            post,
            cfg,
            now,
            "Failed message transfer to"@,
            e,
        ),
        SmtpResult::Reply(rep) => {
            if spec_severity(rep.code) == Severity::PositiveCompletion {
                &&& post.message.domains@ == pre.message.domains@.update(
                    pre.domain_idx as int,
                    Domain::spec_set_status(cur_domain(pre), Status::Completed, cfg.retry@, now),
                )
                &&& post.message.recipients@.len() == pre.message.recipients@.len()
                &&& forall|i: int|
                    0 <= i < pre.message.recipients@.len() ==> post.message.recipients@[i] == (
                    if idx_in(pre.accepted@, i) {
                        Recipient {
                            status: RecipientStatus::Completed(rep),
                            ..pre.message.recipients@[i]
                        }
                    } else {
                        pre.message.recipients@[i]
                    })
                &&& post.domain_idx == pre.domain_idx + 1
                &&& post.phase is DomainStart
                &&& post.on_hold@ == pre.on_hold@
                &&& r is Continue
            } else {
                r is Continue && classified_conclusion(
                    pre,
                    post,
                    cfg,
                    now,
                    "Unexpected reply after message transfer to"@,
                    ClientError::UnexpectedReply(rep),
                )
            }
        },
    }
}

/// What one move of the machine did, phase by phase, for each event value:
/// the transition relation of the attempt.
pub open spec fn step_transition(
    pre: DeliveryAttempt,
    post: DeliveryAttempt,
    cfg: QueueConfig,
    now: u64,
    event: AttemptEvent,
    r: AttemptAction,
) -> bool {
    match pre.phase {
        Phase::SenderThrottle => trans_sender(pre, post, cfg, r),
        Phase::DomainStart => trans_domain_start(pre, post, cfg, now, r),
        Phase::MxWait => event matches AttemptEvent::Mx(res) && trans_mx(
            pre,
            post,
            cfg,
            now,
            res,
            r,
        ),
        Phase::HostStart => trans_host_start(pre, post, cfg, now, r),
        Phase::IpsWait => event matches AttemptEvent::Ips(res) && trans_ips(pre, post, cfg, res, r),
        Phase::IpStart => trans_ip_start(pre, post, cfg, r),
        Phase::ConnectWait => event matches AttemptEvent::Connected(res) && trans_connected(
            pre,
            post,
            cfg,
            now,
            res,
            r,
        ),
        Phase::TlsWait { implicit } => event matches AttemptEvent::TlsDone(res) && trans_tls_done(
            pre,
            post,
            cfg,
            implicit,
            res,
            r,
        ),
        Phase::GreetingWait => event matches AttemptEvent::Greeting(res) && trans_greeting(
            pre,
            post,
            cfg,
            res,
            r,
        ),
        Phase::EhloWait { probe_starttls } => event matches AttemptEvent::Ehlo(res) && trans_ehlo(
            pre,
            post,
            cfg,
            now,
            probe_starttls,
            res,
            r,
        ),
        Phase::StartTlsWait => event matches AttemptEvent::StartTls(res) && trans_starttls(
            pre,
            post,
            cfg,
            res,
            r,
        ),
        Phase::MailWait => event matches AttemptEvent::MailFrom(res) && trans_mail(
            pre,
            post,
            cfg,
            now,
            res,
            r,
        ),
        Phase::RcptWait => event matches AttemptEvent::Rcpt(res) && trans_rcpt(
            pre,
            post,
            cfg,
            now,
            res,
            r,
        ),
        Phase::DataInitWait => event matches AttemptEvent::Data(res) && trans_data_init(
            pre,
            post,
            cfg,
            now,
            res,
            r,
        ),
        Phase::DataFinalWait => event matches AttemptEvent::DataFinal(res) && trans_data_final(
            pre,
            post,
            cfg,
            now,
            res,
            r,
        ),
        Phase::Done => false,
    }
}

impl DeliveryAttempt {
    /// The envelope as seen before any domain is chosen.
    fn sender_envelope(&self) -> (e: QueueEnvelope)
        ensures
            e.sender@ == self.message.return_path@,
            e.domain@.len() == 0,
            e.mx@.len() == 0,
            e.remote_ip is None,
            e.local_ip is None,
    {
        QueueEnvelope {
            sender: self.message.return_path.clone(),
            domain: String::new(),
            mx: String::new(),
            remote_ip: None,
            local_ip: None,
        }
    }

    /// The envelope once a domain is chosen.
    fn domain_envelope(&self) -> (e: QueueEnvelope)
        requires
            self.domain_idx < self.message.domains@.len(),
        ensures
            e.sender@ == self.message.return_path@,
            e.domain@ == self.message.domains@[self.domain_idx as int].domain@,
            e.mx@.len() == 0,
            e.remote_ip is None,
            e.local_ip is None,
    {
        QueueEnvelope {
            sender: self.message.return_path.clone(),
            domain: self.message.domains[self.domain_idx].domain.clone(),
            mx: String::new(),
            remote_ip: None,
            local_ip: None,
        }
    }

    /// The envelope once a host and an address pair are chosen.
    fn host_envelope(&self) -> (e: QueueEnvelope)
        requires
            self.domain_idx < self.message.domains@.len(),
            self.host_idx < self.hosts@.len(),
            self.ip_idx < self.remote_ips@.len(),
        ensures
            e.sender@ == self.message.return_path@,
            e.domain@ == self.message.domains@[self.domain_idx as int].domain@,
            e.mx@ == self.hosts@[self.host_idx as int].spec_hostname(),
            e.remote_ip == Some(self.remote_ips@[self.ip_idx as int]),
            e.local_ip == self.source_ip,
    {
        QueueEnvelope {
            sender: self.message.return_path.clone(),
            domain: self.message.domains[self.domain_idx].domain.clone(),
            mx: self.hosts[self.host_idx].hostname().to_owned(),
            remote_ip: Some(self.remote_ips[self.ip_idx]),
            local_ip: self.source_ip,
        }
    }

    /// Drives the attempt one move: consumes the answer to the previous
    /// action and names the next one. `now` is the caller's clock reading
    /// for this move.
    ///
    /// Terminal domains and recipients that already hold a terminal result
    /// are never touched again; retry counters never go backwards; every
    /// held token has been handed back by the time the outcome is named;
    /// and a named `Retry` due time is exactly the earliest due time over
    /// the message's non-terminal domains.
    pub fn step(
        &mut self,
        cfg: &QueueConfig,
        limiters: &mut Limiters,
        now: u64,
        event: AttemptEvent,
    ) -> (r: AttemptAction)
        requires
            old(self).wf(),
            old(limiters).wf(),
            cfg.wf(),
            event_fits(old(self).phase, event),
            cfg.throttle_sender@.len() + cfg.throttle_rcpt@.len() + cfg.throttle_host@.len()
                <= usize::MAX,
            forall|k: int|
                0 <= k < cfg.retry@.len() ==> now + #[trigger] cfg.retry@[k] <= u64::MAX,
        ensures
            final(self).wf(),
            final(limiters).wf(),
            step_invariants(*old(self), *final(self)),
            step_outcome_ok(*old(self), *final(self), r, now),
            step_transition(*old(self), *final(self), *cfg, now, event, r),
    {
        match self.phase {
            Phase::SenderThrottle | Phase::DomainStart | Phase::HostStart | Phase::IpStart => self
                .step_walk(cfg, limiters, now, event),
            Phase::MxWait | Phase::IpsWait => self.step_resolve(cfg, limiters, now, event),
            Phase::ConnectWait | Phase::TlsWait { .. } | Phase::GreetingWait => self.step_connect(
                cfg,
                limiters,
                now,
                event,
            ),
            Phase::EhloWait { .. } | Phase::StartTlsWait | Phase::MailWait => self.step_envelope(
                cfg,
                limiters,
                now,
                event,
            ),
            Phase::RcptWait | Phase::DataInitWait | Phase::DataFinalWait => self.step_data(
                cfg,
                limiters,
                now,
                event,
            ),
            Phase::Done => {
                proof {
                    assert(false);
                }
                AttemptAction::Continue
            },
        }
    }

    #[verifier::rlimit(100)]
    fn step_walk(
        &mut self,
        cfg: &QueueConfig,
        limiters: &mut Limiters,
        now: u64,
        event: AttemptEvent,
    ) -> (r: AttemptAction)
        requires
            old(self).phase is SenderThrottle || old(self).phase is DomainStart || old(self).phase is HostStart || old(self).phase is IpStart,
            old(self).wf(),
            old(limiters).wf(),
            cfg.wf(),
            event_fits(old(self).phase, event),
            cfg.throttle_sender@.len() + cfg.throttle_rcpt@.len() + cfg.throttle_host@.len()
                <= usize::MAX,
            forall|k: int|
                0 <= k < cfg.retry@.len() ==> now + #[trigger] cfg.retry@[k] <= u64::MAX,
        ensures
            final(self).wf(),
            final(limiters).wf(),
            step_invariants(*old(self), *final(self)),
            step_outcome_ok(*old(self), *final(self), r, now),
            step_transition(*old(self), *final(self), *cfg, now, event, r),
    {
        match self.phase {
            Phase::SenderThrottle => {
                let env = self.sender_envelope();
                let outcome = run_throttles(
                    limiters,
                    &cfg.throttle_sender,
                    0,
                    &env,
                    &mut self.in_flight,
                    now,
                );
                match outcome {
                    Ok(()) => {
                        self.phase = Phase::DomainStart;
                        AttemptAction::Continue
                    },
                    Err(ThrottleError::Rate { retry_at }) => {
                        self.release_tokens(limiters);
                        self.phase = Phase::Done;
                        AttemptAction::Finished(AttemptOutcome::Retry { due: retry_at })
                    },
                    Err(ThrottleError::Concurrency { limiter }) => {
                        self.on_hold.push(limiter);
                        let o = self.fold_finish(limiters, now);
                        AttemptAction::Finished(o)
                    },
                }
            },
            Phase::DomainStart => {
                let n = self.message.domains.len();
                if self.domain_idx >= n {
                    let o = self.fold_finish(limiters, now);
                    return AttemptAction::Finished(o);
                }
                let d = &self.message.domains[self.domain_idx];
                let attemptable = match &d.status {
                    Status::Scheduled => true,
                    Status::TemporaryFailure(_) => true,
                    _ => false,
                };
                if !attemptable || d.retry.due > now {
                    self.domain_idx = self.domain_idx + 1;
                    return AttemptAction::Continue;
                }
                if d.expires_at <= now {
                    self.conclude_domain(
                        cfg,
                        limiters,
                        now,
                        Status::PermanentFailure(Error::Expired),
                    );
                    return AttemptAction::Continue;
                }
                let env = self.domain_envelope();
                let outcome = run_throttles(
                    limiters,
                    &cfg.throttle_rcpt,
                    cfg.throttle_sender.len(),
                    &env,
                    &mut self.domain_tokens,
                    now,
                );
                match outcome {
                    Err(ThrottleError::Rate { retry_at }) => {
                        self.reschedule_domain(limiters, retry_at);
                        proof {
                            assert(rescheduled_domain(*old(self), *self, retry_at));
                        }
                        return AttemptAction::Continue;
                    },
                    Err(ThrottleError::Concurrency { limiter }) => {
                        let ghost key = limiter;
                        self.on_hold.push(limiter);
                        self.release_domain_tokens(limiters);
                        self.domain_idx = self.domain_idx + 1;
                        self.phase = Phase::DomainStart;
                        proof {
                            assert(self.on_hold@ == old(self).on_hold@.push(key));
                            assert(parked_next_domain(*old(self), *self));
                        }
                        return AttemptAction::Continue;
                    },
                    Ok(()) => {},
                }
                self.tls_active = false;
                self.last_status = Status::Scheduled;
                self.host_idx = 0;
                match &cfg.next_hop {
                    Some(relay) => {
                        let mut hosts: Vec<RemoteHost> = Vec::new();
                        hosts.push(RemoteHost::Relay(relay.duplicate()));
                        self.hosts = hosts;
                        self.phase = Phase::HostStart;
                        AttemptAction::Continue
                    },
                    None => {
                        self.phase = Phase::MxWait;
                        AttemptAction::LookupMx {
                            domain: self.message.domains[self.domain_idx].domain.clone(),
                        }
                    },
                }
            },
            Phase::HostStart => {
                let n = self.hosts.len();
                if self.host_idx >= n {
                    let status = self.last_status.duplicate();
                    self.conclude_domain(cfg, limiters, now, status);
                    return AttemptAction::Continue;
                }
                self.phase = Phase::IpsWait;
                AttemptAction::LookupIps { host: self.hosts[self.host_idx].fqdn_hostname() }
            },
            Phase::IpStart => {
                let n = self.remote_ips.len();
                let hn = self.hosts.len();
                proof {
                    assert(self.host_idx < hn);
                }
                if self.ip_idx >= n {
                    self.host_idx = self.host_idx + 1;
                    self.phase = Phase::HostStart;
                    return AttemptAction::Continue;
                }
                let env = self.host_envelope();
                let base = cfg.throttle_sender.len() + cfg.throttle_rcpt.len();
                let outcome = run_throttles(
                    limiters,
                    &cfg.throttle_host,
                    base,
                    &env,
                    &mut self.host_tokens,
                    now,
                );
                match outcome {
                    Err(ThrottleError::Rate { retry_at }) => {
                        self.reschedule_domain(limiters, retry_at);
                        proof {
                            assert(rescheduled_domain(*old(self), *self, retry_at));
                        }
                        AttemptAction::Continue
                    },
                    Err(ThrottleError::Concurrency { limiter }) => {
                        let dn = self.message.domains.len();
                        proof {
                            assert(self.domain_idx < dn);
                        }
                        let ghost key = limiter;
                        self.on_hold.push(limiter);
                        self.release_domain_tokens(limiters);
                        self.domain_idx = self.domain_idx + 1;
                        self.phase = Phase::DomainStart;
                        proof {
                            assert(self.on_hold@ == old(self).on_hold@.push(key));
                            assert(parked_next_domain(*old(self), *self));
                        }
                        AttemptAction::Continue
                    },
                    Ok(()) => {
                        self.phase = Phase::ConnectWait;
                        AttemptAction::Connect {
                            source: self.source_ip,
                            remote: self.remote_ips[self.ip_idx],
                            port: self.hosts[self.host_idx].port(),
                            timeout: cfg.timeouts.connect,
                        }
                    },
                }
            },
            _ => {
                proof {
                    assert(false);
                }
                AttemptAction::Continue
            },
        }
    }

    #[verifier::rlimit(100)]
    fn step_resolve(
        &mut self,
        cfg: &QueueConfig,
        limiters: &mut Limiters,
        now: u64,
        event: AttemptEvent,
    ) -> (r: AttemptAction)
        requires
            old(self).phase is MxWait || old(self).phase is IpsWait,
            old(self).wf(),
            old(limiters).wf(),
            cfg.wf(),
            event_fits(old(self).phase, event),
            cfg.throttle_sender@.len() + cfg.throttle_rcpt@.len() + cfg.throttle_host@.len()
                <= usize::MAX,
            forall|k: int|
                0 <= k < cfg.retry@.len() ==> now + #[trigger] cfg.retry@[k] <= u64::MAX,
        ensures
            final(self).wf(),
            final(limiters).wf(),
            step_invariants(*old(self), *final(self)),
            step_outcome_ok(*old(self), *final(self), r, now),
            step_transition(*old(self), *final(self), *cfg, now, event, r),
    {
        match self.phase {
            Phase::MxWait => match event {
                AttemptEvent::Mx(result) => match result {
                    Err(f) => {
                        let ghost fg = f;
                        let status = Status::from_dns_failure(f);
                        self.conclude_domain(cfg, limiters, now, status);
                        proof {
                            assert(concluded_with(
                                *old(self),
                                *self,
                                *cfg,
                                now,
                                Status::spec_from_dns_failure(fg),
                            ));
                        }
                        AttemptAction::Continue
                    },
                    Ok(mx_list) => {
                        let hosts = plan_remote_hosts(
                            self.message.domains[self.domain_idx].domain.as_str(),
                            &mx_list,
                            cfg.max_mx,
                        );
                        self.hosts = hosts;
                        self.host_idx = 0;
                        self.phase = Phase::HostStart;
                        proof {
                            assert(crate::planner::hosts_planned(
                                self.hosts@,
                                cur_domain(*old(self)).domain@,
                                mx_list@,
                                cfg.max_mx as int,
                            ));
                        }
                        AttemptAction::Continue
                    },
                },
                _ => {
                    proof {
                        assert(false);
                    }
                    AttemptAction::Continue
                },
            },
            Phase::IpsWait => match event {
                AttemptEvent::Ips(result) => match result {
                    Err(f) => {
                        let ghost fg = f;
                        let status = Status::from_dns_failure(f);
                        self.next_host(limiters, status);
                        proof {
                            assert(advanced_host(*old(self), *self));
                            assert(self.last_status == Status::spec_from_dns_failure(fg));
                        }
                        AttemptAction::Continue
                    },
                    Ok(ips) => {
                        let resolved = resolve_host(
                            self.hosts[self.host_idx].hostname(),
                            &ips,
                            &cfg.source_ipv4,
                            &cfg.source_ipv6,
                            cfg.max_multihomed,
                        );
                        match resolved {
                            Err(status) => {
                                let ghost stg = status;
                                self.next_host(limiters, status);
                                proof {
                                    assert(advanced_host(*old(self), *self));
                                    assert(self.last_status == stg);
                                    assert(stg matches Status::TemporaryFailure(Error::DnsError(m))
                                        && m@ == crate::planner::spec_no_ip_note(
                                        cur_mx(*old(self)),
                                    ));
                                }
                                AttemptAction::Continue
                            },
                            Ok((source, remote)) => {
                                self.source_ip = source;
                                self.remote_ips = remote;
                                self.ip_idx = 0;
                                self.phase = Phase::IpStart;
                                proof {
                                    assert(crate::planner::source_chosen(
                                        self.source_ip,
                                        ips@,
                                        cfg.source_ipv4@,
                                        cfg.source_ipv6@,
                                    ));
                                }
                                AttemptAction::Continue
                            },
                        }
                    },
                },
                _ => {
                    proof {
                        assert(false);
                    }
                    AttemptAction::Continue
                },
            },
            _ => {
                proof {
                    assert(false);
                }
                AttemptAction::Continue
            },
        }
    }

    #[verifier::rlimit(100)]
    fn step_connect(
        &mut self,
        cfg: &QueueConfig,
        limiters: &mut Limiters,
        now: u64,
        event: AttemptEvent,
    ) -> (r: AttemptAction)
        requires
            old(self).phase is ConnectWait || old(self).phase is TlsWait || old(self).phase is GreetingWait,
            old(self).wf(),
            old(limiters).wf(),
            cfg.wf(),
            event_fits(old(self).phase, event),
            cfg.throttle_sender@.len() + cfg.throttle_rcpt@.len() + cfg.throttle_host@.len()
                <= usize::MAX,
            forall|k: int|
                0 <= k < cfg.retry@.len() ==> now + #[trigger] cfg.retry@[k] <= u64::MAX,
        ensures
            final(self).wf(),
            final(limiters).wf(),
            step_invariants(*old(self), *final(self)),
            step_outcome_ok(*old(self), *final(self), r, now),
            step_transition(*old(self), *final(self), *cfg, now, event, r),
    {
        match self.phase {
            Phase::ConnectWait => match event {
                AttemptEvent::Connected(result) => match result {
                    Err(e) => {
                        let ghost eg = e;
                        let status = Status::from_client_error(
                            "Failed to connect to",
                            self.hosts[self.host_idx].hostname(),
                            e,
                        );
                        let ghost stg = status;
                        self.next_ip(limiters, status);
                        proof {
                            assert(advanced_ip(*old(self), *self));
                            assert(is_client_error_status(
                                stg,
                                "Failed to connect to"@,
                                cur_mx(*old(self)),
                                eg,
                            ));
                        }
                        AttemptAction::Continue
                    },
                    Ok(()) => {
                        if cfg.encryption.is_dane() {
                            let mut note = String::new();
                            note.append("DANE is not supported");
                            let status = Status::PermanentFailure(Error::ConfigError(note));
                            let ghost stg = status;
                            self.conclude_domain(cfg, limiters, now, status);
                            proof {
                                assert(stg matches Status::PermanentFailure(Error::ConfigError(m))
                                    && m@ == "DANE is not supported"@);
                                assert(concluded_with(*old(self), *self, *cfg, now, stg));
                            }
                            return AttemptAction::Continue;
                        }
                        if self.hosts[self.host_idx].implicit_tls() {
                            self.phase = Phase::TlsWait { implicit: true };
                            AttemptAction::UpgradeTls {
                                hostname: self.hosts[self.host_idx].hostname().to_owned(),
                                allow_invalid_certs: self.hosts[
                                    self.host_idx
                                ].allow_invalid_certs(),
                                timeout: cfg.timeouts.tls,
                            }
                        } else {
                            self.phase = Phase::GreetingWait;
                            AttemptAction::ReadGreeting { timeout: cfg.timeouts.greeting }
                        }
                    },
                },
                _ => {
                    proof {
                        assert(false);
                    }
                    AttemptAction::Continue
                },
            },
            Phase::TlsWait { implicit } => match event {
                AttemptEvent::TlsDone(result) => match result {
                    Err(e) => {
                        let ghost eg = e;
                        let status = Status::from_client_error(
                            "TLS handshake failed with",
                            self.hosts[self.host_idx].hostname(),
                            e,
                        );
                        let ghost stg = status;
                        self.next_host(limiters, status);
                        proof {
                            assert(advanced_host(*old(self), *self));
                            assert(is_client_error_status(
                                stg,
                                "TLS handshake failed with"@,
                                cur_mx(*old(self)),
                                eg,
                            ));
                        }
                        AttemptAction::Continue
                    },
                    Ok(()) => {
                        self.tls_active = true;
                        if implicit {
                            self.phase = Phase::GreetingWait;
                            AttemptAction::ReadGreeting { timeout: cfg.timeouts.greeting }
                        } else {
                            self.phase = Phase::EhloWait { probe_starttls: false };
                            AttemptAction::SendEhlo {
                                hostname: cfg.ehlo_hostname.clone(),
                                timeout: cfg.timeouts.ehlo,
                            }
                        }
                    },
                },
                _ => {
                    proof {
                        assert(false);
                    }
                    AttemptAction::Continue
                },
            },
            Phase::GreetingWait => match event {
                AttemptEvent::Greeting(result) => match result {
                    SmtpResult::Failed(e) => {
                        let ghost eg = e;
                        let status = Status::from_client_error(
                            "Failed to read greeting from",
                            self.hosts[self.host_idx].hostname(),
                            e,
                        );
                        let ghost stg = status;
                        self.next_host(limiters, status);
                        proof {
                            assert(advanced_host(*old(self), *self));
                            assert(is_client_error_status(
                                stg,
                                "Failed to read greeting from"@,
                                cur_mx(*old(self)),
                                eg,
                            ));
                        }
                        AttemptAction::Continue
                    },
                    SmtpResult::Reply(rep) => {
                        if rep.code != 220 {
                            let ghost repg = rep;
                            let status = Status::from_client_error(
                                "Invalid greeting from",
                                self.hosts[self.host_idx].hostname(),
                                ClientError::UnexpectedReply(rep),
                            );
                            let ghost stg = status;
                            self.next_host(limiters, status);
                            proof {
                                assert(advanced_host(*old(self), *self));
                                assert(is_client_error_status(
                                    stg,
                                    "Invalid greeting from"@,
                                    cur_mx(*old(self)),
                                    ClientError::UnexpectedReply(repg),
                                ));
                            }
                            AttemptAction::Continue
                        } else {
                            let probe = !self.tls_active && !matches!(
                                cfg.encryption,
                                TlsStrategy::Disable,
                            );
                            self.phase = Phase::EhloWait { probe_starttls: probe };
                            AttemptAction::SendEhlo {
                                hostname: cfg.ehlo_hostname.clone(),
                                timeout: cfg.timeouts.ehlo,
                            }
                        }
                    },
                },
                _ => {
                    proof {
                        assert(false);
                    }
                    AttemptAction::Continue
                },
            },
            _ => {
                proof {
                    assert(false);
                }
                AttemptAction::Continue
            },
        }
    }

    #[verifier::rlimit(100)]
    fn step_envelope(
        &mut self,
        cfg: &QueueConfig,
        limiters: &mut Limiters,
        now: u64,
        event: AttemptEvent,
    ) -> (r: AttemptAction)
        requires
            old(self).phase is EhloWait || old(self).phase is StartTlsWait || old(self).phase is MailWait,
            old(self).wf(),
            old(limiters).wf(),
            cfg.wf(),
            event_fits(old(self).phase, event),
            cfg.throttle_sender@.len() + cfg.throttle_rcpt@.len() + cfg.throttle_host@.len()
                <= usize::MAX,
            forall|k: int|
                0 <= k < cfg.retry@.len() ==> now + #[trigger] cfg.retry@[k] <= u64::MAX,
        ensures
            final(self).wf(),
            final(limiters).wf(),
            step_invariants(*old(self), *final(self)),
            step_outcome_ok(*old(self), *final(self), r, now),
            step_transition(*old(self), *final(self), *cfg, now, event, r),
    {
        match self.phase {
            Phase::EhloWait { probe_starttls } => match event {
                AttemptEvent::Ehlo(result) => match result {
                    Err(e) => {
                        let ghost eg = e;
                        let status = Status::from_client_error(
                            "Failed to say EHLO to",
                            self.hosts[self.host_idx].hostname(),
                            e,
                        );
                        let ghost stg = status;
                        proof {
                            assert(is_client_error_status(
                                stg,
                                "Failed to say EHLO to"@,
                                cur_mx(*old(self)),
                                eg,
                            ));
                        }
                        if probe_starttls {
                            self.next_host(limiters, status);
                            proof {
                                assert(advanced_host(*old(self), *self));
                            }
                        } else {
                            self.conclude_domain(cfg, limiters, now, status);
                            proof {
                                assert(concluded_with(*old(self), *self, *cfg, now, stg));
                            }
                        }
                        AttemptAction::Continue
                    },
                    Ok(er) => {
                        if er.reply.code < 200 || er.reply.code >= 300 {
                            let ghost repg = er.reply;
                            let status = Status::from_client_error(
                                "Unexpected EHLO reply from",
                                self.hosts[self.host_idx].hostname(),
                                ClientError::UnexpectedReply(er.reply),
                            );
                            let ghost stg = status;
                            proof {
                                assert(is_client_error_status(
                                    stg,
                                    "Unexpected EHLO reply from"@,
                                    cur_mx(*old(self)),
                                    ClientError::UnexpectedReply(repg),
                                ));
                            }
                            if probe_starttls {
                                self.next_host(limiters, status);
                                proof {
                                    assert(advanced_host(*old(self), *self));
                                }
                            } else {
                                self.conclude_domain(cfg, limiters, now, status);
                                proof {
                                    assert(concluded_with(*old(self), *self, *cfg, now, stg));
                                }
                            }
                            AttemptAction::Continue
                        } else if probe_starttls {
                            if er.starttls {
                                self.phase = Phase::StartTlsWait;
                                AttemptAction::SendStartTls { timeout: cfg.timeouts.tls }
                            } else if cfg.encryption.is_tls_required() || (self.message.flags
                                & MAIL_REQUIRETLS) != 0 {
                                let ghost repg = er.reply;
                                self.next_host(
                                    limiters,
                                    Status::TemporaryFailure(
                                        Error::TlsRequiredUnavailable(er.reply),
                                    ),
                                );
                                proof {
                                    assert(advanced_host(*old(self), *self));
                                    assert(self.last_status == Status::TemporaryFailure(
                                        Error::TlsRequiredUnavailable(repg),
                                    ));
                                }
                                AttemptAction::Continue
                            } else {
                                self.phase = Phase::MailWait;
                                AttemptAction::SendMailFrom {
                                    sender: self.message.return_path.clone(),
                                    timeout: cfg.timeouts.mail,
                                }
                            }
                        } else {
                            self.phase = Phase::MailWait;
                            AttemptAction::SendMailFrom {
                                sender: self.message.return_path.clone(),
                                timeout: cfg.timeouts.mail,
                            }
                        }
                    },
                },
                _ => {
                    proof {
                        assert(false);
                    }
                    AttemptAction::Continue
                },
            },
            Phase::StartTlsWait => match event {
                AttemptEvent::StartTls(result) => match result {
                    SmtpResult::Failed(e) => {
                        let ghost eg = e;
                        let status = Status::from_client_error(
                            "Failed STARTTLS with",
                            self.hosts[self.host_idx].hostname(),
                            e,
                        );
                        let ghost stg = status;
                        self.next_host(limiters, status);
                        proof {
                            assert(advanced_host(*old(self), *self));
                            assert(is_client_error_status(
                                stg,
                                "Failed STARTTLS with"@,
                                cur_mx(*old(self)),
                                eg,
                            ));
                        }
                        AttemptAction::Continue
                    },
                    SmtpResult::Reply(rep) => {
                        if rep.code == 220 {
                            self.phase = Phase::TlsWait { implicit: false };
                            AttemptAction::UpgradeTls {
                                hostname: self.hosts[self.host_idx].hostname().to_owned(),
                                allow_invalid_certs: self.hosts[
                                    self.host_idx
                                ].allow_invalid_certs(),
                                timeout: cfg.timeouts.tls,
                            }
                        } else if cfg.encryption.is_tls_required() || (self.message.flags
                            & MAIL_REQUIRETLS) != 0 {
                            let ghost repg = rep;
                            self.next_host(
                                limiters,
                                Status::TemporaryFailure(Error::TlsRequiredUnavailable(rep)),
                            );
                            proof {
                                assert(advanced_host(*old(self), *self));
                                assert(self.last_status == Status::TemporaryFailure(
                                    Error::TlsRequiredUnavailable(repg),
                                ));
                            }
                            AttemptAction::Continue
                        } else {
                            self.phase = Phase::MailWait;
                            AttemptAction::SendMailFrom {
                                sender: self.message.return_path.clone(),
                                timeout: cfg.timeouts.mail,
                            }
                        }
                    },
                },
                _ => {
                    proof {
                        assert(false);
                    }
                    AttemptAction::Continue
                },
            },
            Phase::MailWait => match event {
                AttemptEvent::MailFrom(result) => match result {
                    SmtpResult::Failed(e) => {
                        let ghost eg = e;
                        let status = Status::from_client_error(
                            "Failed MAIL FROM with",
                            self.hosts[self.host_idx].hostname(),
                            e,
                        );
                        let ghost stg = status;
                        self.conclude_domain(cfg, limiters, now, status);
                        proof {
                            assert(is_client_error_status(
                                stg,
                                "Failed MAIL FROM with"@,
                                cur_mx(*old(self)),
                                eg,
                            ));
                            assert(concluded_with(*old(self), *self, *cfg, now, stg));
                        }
                        AttemptAction::Continue
                    },
                    SmtpResult::Reply(rep) => {
                        if rep.code < 200 || rep.code >= 300 {
                            let ghost repg = rep;
                            let status = Status::from_client_error(
                                "Unexpected MAIL FROM reply from",
                                self.hosts[self.host_idx].hostname(),
                                ClientError::UnexpectedReply(rep),
                            );
                            let ghost stg = status;
                            self.conclude_domain(cfg, limiters, now, status);
                            proof {
                                assert(is_client_error_status(
                                    stg,
                                    "Unexpected MAIL FROM reply from"@,
                                    cur_mx(*old(self)),
                                    ClientError::UnexpectedReply(repg),
                                ));
                                assert(concluded_with(*old(self), *self, *cfg, now, stg));
                            }
                            return AttemptAction::Continue;
                        }
                        let idxs = collect_rcpts(&self.message, self.domain_idx);
                        if idxs.len() == 0 {
                            proof {
                                assert(!(exists|i: int|
                                    0 <= i < self.message.recipients@.len() && (
                                    #[trigger] self.message.recipients@[i]).domain_idx
                                        == self.domain_idx
                                        && !self.message.recipients@[i].status.is_terminal()))
                                    by {
                                    if exists|i: int|
                                        0 <= i < self.message.recipients@.len() && (
                                        #[trigger] self.message.recipients@[i]).domain_idx
                                            == self.domain_idx && !self.message.recipients@[
                                        i].status.is_terminal() {
                                        let i = choose|i: int|
                                            0 <= i < self.message.recipients@.len() && (
                                            #[trigger] self.message.recipients@[i]).domain_idx
                                                == self.domain_idx && !self.message.recipients@[
                                            i].status.is_terminal();
                                        assert(idx_in(idxs@, i));
                                        let k = choose|k: int|
                                            0 <= k < idxs@.len() && #[trigger] idxs@[k] == i;
                                    }
                                }
                            }
                            self.conclude_domain(cfg, limiters, now, Status::Completed);
                            return AttemptAction::Continue;
                        }
                        self.rcpt_idxs = idxs;
                        self.rcpt_cursor = 0;
                        self.accepted = Vec::new();
                        self.rcpt_all_permanent = true;
                        self.last_rcpt_reply = None;
                        self.phase = Phase::RcptWait;
                        proof {
                            assert(rcpts_listed(
                                self.rcpt_idxs@,
                                old(self).message,
                                old(self).domain_idx as int,
                            ));
                        }
                        AttemptAction::SendRcpt {
                            address: self.message.recipients[self.rcpt_idxs[0]].address.clone(),
                            timeout: cfg.timeouts.rcpt,
                        }
                    },
                },
                _ => {
                    proof {
                        assert(false);
                    }
                    AttemptAction::Continue
                },
            },
            _ => {
                proof {
                    assert(false);
                }
                AttemptAction::Continue
            },
        }
    }

    #[verifier::rlimit(100)]
    fn step_data(
        &mut self,
        cfg: &QueueConfig,
        limiters: &mut Limiters,
        now: u64,
        event: AttemptEvent,
    ) -> (r: AttemptAction)
        requires
            old(self).phase is RcptWait || old(self).phase is DataInitWait || old(self).phase is DataFinalWait,
            old(self).wf(),
            old(limiters).wf(),
            cfg.wf(),
            event_fits(old(self).phase, event),
            cfg.throttle_sender@.len() + cfg.throttle_rcpt@.len() + cfg.throttle_host@.len()
                <= usize::MAX,
            forall|k: int|
                0 <= k < cfg.retry@.len() ==> now + #[trigger] cfg.retry@[k] <= u64::MAX,
        ensures
            final(self).wf(),
            final(limiters).wf(),
            step_invariants(*old(self), *final(self)),
            step_outcome_ok(*old(self), *final(self), r, now),
            step_transition(*old(self), *final(self), *cfg, now, event, r),
    {
        match self.phase {
            Phase::RcptWait => match event {
                AttemptEvent::Rcpt(result) => match result {
                    SmtpResult::Failed(e) => {
                        let ghost eg = e;
                        let status = Status::from_client_error(
                            "Failed RCPT TO with",
                            self.hosts[self.host_idx].hostname(),
                            e,
                        );
                        let ghost stg = status;
                        self.conclude_domain(cfg, limiters, now, status);
                        proof {
                            assert(is_client_error_status(
                                stg,
                                "Failed RCPT TO with"@,
                                cur_mx(*old(self)),
                                eg,
                            ));
                            assert(concluded_with(*old(self), *self, *cfg, now, stg));
                        }
                        AttemptAction::Continue
                    },
                    SmtpResult::Reply(rep) => {
                        let ghost repg = rep;
                        let idx = self.rcpt_idxs[self.rcpt_cursor];
                        if rep.code >= 200 && rep.code < 300 {
                            self.accepted.push(idx);
                        } else if rep.code >= 500 && rep.code < 600 {
                            self.mark_rcpt(
                                idx,
                                RecipientStatus::PermanentFailure(rep.clone_reply()),
                            );
                            self.last_rcpt_reply = Some(rep);
                        } else {
                            self.mark_rcpt(
                                idx,
                                RecipientStatus::TemporaryFailure(rep.clone_reply()),
                            );
                            self.rcpt_all_permanent = false;
                            self.last_rcpt_reply = Some(rep);
                        }
                        let rn = self.rcpt_idxs.len();
                        proof {
                            assert(self.rcpt_cursor < rn);
                        }
                        self.rcpt_cursor = self.rcpt_cursor + 1;
                        if self.rcpt_cursor < self.rcpt_idxs.len() {
                            AttemptAction::SendRcpt {
                                address: self.message.recipients[
                                    self.rcpt_idxs[self.rcpt_cursor]
                                ].address.clone(),
                                timeout: cfg.timeouts.rcpt,
                            }
                        } else if self.accepted.len() > 0 {
                            self.phase = Phase::DataInitWait;
                            AttemptAction::SendDataInit { timeout: cfg.timeouts.data }
                        } else {
                            let last = match &self.last_rcpt_reply {
                                Some(r) => r.clone_reply(),
                                None => Reply { code: 0, esc: [0, 0, 0], message: String::new() },
                            };
                            let note = crate::status::context_message(
                                "RCPT TO rejected by",
                                self.hosts[self.host_idx].hostname(),
                            );
                            let err = Error::UnexpectedResponse { message: note, response: last };
                            let status = if self.rcpt_all_permanent {
                                Status::PermanentFailure(err)
                            } else {
                                Status::TemporaryFailure(err)
                            };
                            let ghost stg = status;
                            self.conclude_domain(cfg, limiters, now, status);
                            proof {
                                assert(self.message.domains@ == old(self).message.domains@.update(
                                    old(self).domain_idx as int,
                                    Domain::spec_set_status(
                                        cur_domain(*old(self)),
                                        stg,
                                        cfg.retry@,
                                        now,
                                    ),
                                ));
                                assert(Domain::spec_set_status(
                                    cur_domain(*old(self)),
                                    stg,
                                    cfg.retry@,
                                    now,
                                ).status == stg);
                            }
                            AttemptAction::Continue
                        }
                    },
                },
                _ => {
                    proof {
                        assert(false);
                    }
                    AttemptAction::Continue
                },
            },
            Phase::DataInitWait => match event {
                AttemptEvent::Data(result) => match result {
                    SmtpResult::Failed(e) => {
                        let ghost eg = e;
                        let status = Status::from_client_error(
                            "Failed DATA with",
                            self.hosts[self.host_idx].hostname(),
                            e,
                        );
                        let ghost stg = status;
                        self.conclude_domain(cfg, limiters, now, status);
                        proof {
                            assert(is_client_error_status(
                                stg,
                                "Failed DATA with"@,
                                cur_mx(*old(self)),
                                eg,
                            ));
                            assert(concluded_with(*old(self), *self, *cfg, now, stg));
                        }
                        AttemptAction::Continue
                    },
                    SmtpResult::Reply(rep) => {
                        if rep.code == 354 {
                            self.phase = Phase::DataFinalWait;
                            AttemptAction::SendDataFinal { timeout: cfg.timeouts.data }
                        } else {
                            let ghost repg = rep;
                            let status = Status::from_client_error(
                                "Unexpected DATA reply from",
                                self.hosts[self.host_idx].hostname(),
                                ClientError::UnexpectedReply(rep),
                            );
                            let ghost stg = status;
                            self.conclude_domain(cfg, limiters, now, status);
                            proof {
                                assert(is_client_error_status(
                                    stg,
                                    "Unexpected DATA reply from"@,
                                    cur_mx(*old(self)),
                                    ClientError::UnexpectedReply(repg),
                                ));
                                assert(concluded_with(*old(self), *self, *cfg, now, stg));
                            }
                            AttemptAction::Continue
                        }
                    },
                },
                _ => {
                    proof {
                        assert(false);
                    }
                    AttemptAction::Continue
                },
            },
            Phase::DataFinalWait => match event {
                AttemptEvent::DataFinal(result) => match result {
                    SmtpResult::Failed(e) => {
                        let ghost eg = e;
                        let status = Status::from_client_error(
                            "Failed message transfer to",
                            self.hosts[self.host_idx].hostname(),
                            e,
                        );
                        let ghost stg = status;
                        self.conclude_domain(cfg, limiters, now, status);
                        proof {
                            assert(is_client_error_status(
                                stg,
                                "Failed message transfer to"@,
                                cur_mx(*old(self)),
                                eg,
                            ));
                            assert(concluded_with(*old(self), *self, *cfg, now, stg));
                        }
                        AttemptAction::Continue
                    },
                    SmtpResult::Reply(rep) => {
                        if rep.code >= 200 && rep.code < 300 {
                            self.complete_accepted(&rep);
                            self.conclude_domain(cfg, limiters, now, Status::Completed);
                            proof {
                                assert(self.message.domains@ == old(self).message.domains@.update(
                                    old(self).domain_idx as int,
                                    Domain::spec_set_status(
                                        cur_domain(*old(self)),
                                        Status::Completed,
                                        cfg.retry@,
                                        now,
                                    ),
                                ));
                            }
                            AttemptAction::Continue
                        } else {
                            let ghost repg = rep;
                            let status = Status::from_client_error(
                                "Unexpected reply after message transfer to",
                                self.hosts[self.host_idx].hostname(),
                                ClientError::UnexpectedReply(rep),
                            );
                            let ghost stg = status;
                            self.conclude_domain(cfg, limiters, now, status);
                            proof {
                                assert(is_client_error_status(
                                    stg,
                                    "Unexpected reply after message transfer to"@,
                                    cur_mx(*old(self)),
                                    ClientError::UnexpectedReply(repg),
                                ));
                                assert(concluded_with(*old(self), *self, *cfg, now, stg));
                            }
                            AttemptAction::Continue
                        }
                    },
                },
                _ => {
                    proof {
                        assert(false);
                    }
                    AttemptAction::Continue
                },
            },
            _ => {
                proof {
                    assert(false);
                }
                AttemptAction::Continue
            },
        }
    }

}

/// `d` with `set_status` applied, by value.
fn apply_set_status(d: Domain, status: Status, schedule: &[u64], now: u64) -> (r: Domain)
    requires
        schedule@.len() > 0,
        d.retry.inner < u32::MAX,
        now + schedule@[crate::message::retry_index(d.retry.inner as int, schedule@.len() as int)]
            <= u64::MAX,
    ensures
        r == Domain::spec_set_status(d, status, schedule@, now),
{
    let mut d = d;
    d.set_status(status, schedule, now);
    d
}

} // verus!
