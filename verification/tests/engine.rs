//! End-to-end runs of the delivery attempt machine against scripted
//! answers: the happy path, host fallback, TLS policy, throttling and
//! partial success.

use smtp_delivery::delivery::{
    AttemptAction, AttemptEvent, AttemptOutcome, DeliveryAttempt, EhloReply, QueueConfig,
    QueueTimeouts, SmtpResult, TlsStrategy,
};
use smtp_delivery::host::{Ip, RelayHost};
use smtp_delivery::limiter::{
    Limiters, RateSpec, ThrottleRule, KEY_MX, KEY_RCPT_DOMAIN,
};
use smtp_delivery::message::{
    Domain, Message, Recipient, RecipientStatus, Schedule, MAIL_REQUIRETLS,
};
use smtp_delivery::planner::MxRecord;
use smtp_delivery::queue::{Queue, WorkerResult};
use smtp_delivery::status::{ClientError, Error, Reply, Status};

fn rp(code: u16) -> Reply {
    Reply { code, esc: [0, 0, 0], message: String::new() }
}

fn msg_to(domain: &str, rcpts: &[&str]) -> Message {
    Message {
        id: 1,
        created_at: 0,
        size: 100,
        flags: 0,
        return_path: "sender@origin.example".to_string(),
        domains: vec![Domain {
            domain: domain.to_string(),
            status: Status::Scheduled,
            retry: Schedule { due: 0, inner: 0 },
            expires_at: u64::MAX,
        }],
        recipients: rcpts
            .iter()
            .map(|r| Recipient {
                address: r.to_string(),
                domain_idx: 0,
                status: RecipientStatus::Scheduled,
            })
            .collect(),
    }
}

fn base_cfg() -> QueueConfig {
    QueueConfig {
        throttle_sender: Vec::new(),
        throttle_rcpt: Vec::new(),
        throttle_host: Vec::new(),
        retry: vec![1000],
        next_hop: None,
        max_mx: 5,
        max_multihomed: 5,
        source_ipv4: Vec::new(),
        source_ipv6: Vec::new(),
        encryption: TlsStrategy::Opportunistic,
        ehlo_hostname: "mta.origin.example".to_string(),
        timeouts: QueueTimeouts {
            connect: 1000,
            greeting: 1000,
            tls: 1000,
            ehlo: 1000,
            mail: 1000,
            rcpt: 1000,
            data: 1000,
        },
    }
}

/// Feeds one event, then drains internal moves until the machine asks for
/// outside work or finishes.
fn feed(
    att: &mut DeliveryAttempt,
    cfg: &QueueConfig,
    lims: &mut Limiters,
    now: u64,
    ev: AttemptEvent,
) -> AttemptAction {
    let mut a = att.step(cfg, lims, now, ev);
    while matches!(a, AttemptAction::Continue) {
        a = att.step(cfg, lims, now, AttemptEvent::Tick);
    }
    a
}

#[test]
fn happy_path_implicit_tls_relay() {
    let mut cfg = base_cfg();
    cfg.next_hop = Some(RelayHost {
        address: "relay.example".to_string(),
        port: 465,
        tls_implicit: true,
        tls_allow_invalid_certs: false,
    });
    let mut lims = Limiters::new();
    let mut att = DeliveryAttempt::new(msg_to("dest", &["user@dest"]));
    let now = 10;

    let a = feed(&mut att, &cfg, &mut lims, now, AttemptEvent::Tick);
    match &a {
        AttemptAction::LookupIps { host } => assert_eq!(host, "relay.example"),
        other => panic!("expected address lookup, got {:?}", other),
    }
    let a = feed(&mut att, &cfg, &mut lims, now, AttemptEvent::Ips(Ok(vec![Ip::V4(0x0A000001)])));
    match &a {
        AttemptAction::Connect { remote, port, .. } => {
            assert_eq!(*remote, Ip::V4(0x0A000001));
            assert_eq!(*port, 465);
        },
        other => panic!("expected connect, got {:?}", other),
    }
    let a = feed(&mut att, &cfg, &mut lims, now, AttemptEvent::Connected(Ok(())));
    assert!(matches!(a, AttemptAction::UpgradeTls { .. }), "{:?}", a);
    let a = feed(&mut att, &cfg, &mut lims, now, AttemptEvent::TlsDone(Ok(())));
    assert!(matches!(a, AttemptAction::ReadGreeting { .. }), "{:?}", a);
    let a = feed(&mut att, &cfg, &mut lims, now, AttemptEvent::Greeting(SmtpResult::Reply(rp(220))));
    assert!(matches!(a, AttemptAction::SendEhlo { .. }), "{:?}", a);
    let a = feed(
        &mut att,
        &cfg,
        &mut lims,
        now,
        AttemptEvent::Ehlo(Ok(EhloReply { reply: rp(250), starttls: false })),
    );
    assert!(matches!(a, AttemptAction::SendMailFrom { .. }), "{:?}", a);
    let a = feed(&mut att, &cfg, &mut lims, now, AttemptEvent::MailFrom(SmtpResult::Reply(rp(250))));
    match &a {
        AttemptAction::SendRcpt { address, .. } => assert_eq!(address, "user@dest"),
        other => panic!("expected rcpt, got {:?}", other),
    }
    let a = feed(&mut att, &cfg, &mut lims, now, AttemptEvent::Rcpt(SmtpResult::Reply(rp(250))));
    assert!(matches!(a, AttemptAction::SendDataInit { .. }), "{:?}", a);
    let a = feed(&mut att, &cfg, &mut lims, now, AttemptEvent::Data(SmtpResult::Reply(rp(354))));
    assert!(matches!(a, AttemptAction::SendDataFinal { .. }), "{:?}", a);
    let a = feed(&mut att, &cfg, &mut lims, now, AttemptEvent::DataFinal(SmtpResult::Reply(rp(250))));
    match a {
        AttemptAction::Finished(AttemptOutcome::Done) => {},
        other => panic!("expected a finished message, got {:?}", other),
    }
    assert!(matches!(att.message.domains[0].status, Status::Completed));
    match &att.message.recipients[0].status {
        RecipientStatus::Completed(r) => assert_eq!(r.code, 250),
        other => panic!("expected completed recipient, got {:?}", other),
    }
}

#[test]
fn mx_fallback_on_connection_refusal() {
    let cfg = base_cfg();
    let mut lims = Limiters::new();
    let mut att = DeliveryAttempt::new(msg_to("dest", &["user@dest"]));
    let now = 10;

    let a = feed(&mut att, &cfg, &mut lims, now, AttemptEvent::Tick);
    assert!(matches!(a, AttemptAction::LookupMx { .. }), "{:?}", a);
    let mx = vec![
        MxRecord { preference: 10, exchanges: vec!["mx1".to_string()] },
        MxRecord { preference: 20, exchanges: vec!["mx2".to_string()] },
    ];
    let a = feed(&mut att, &cfg, &mut lims, now, AttemptEvent::Mx(Ok(mx)));
    match &a {
        AttemptAction::LookupIps { host } => assert_eq!(host, "mx1."),
        other => panic!("expected address lookup for mx1, got {:?}", other),
    }
    let a = feed(&mut att, &cfg, &mut lims, now, AttemptEvent::Ips(Ok(vec![Ip::V4(1)])));
    assert!(matches!(a, AttemptAction::Connect { .. }), "{:?}", a);
    let a = feed(
        &mut att,
        &cfg,
        &mut lims,
        now,
        AttemptEvent::Connected(Err(ClientError::Io("connection refused".to_string()))),
    );
    match &a {
        AttemptAction::LookupIps { host } => assert_eq!(host, "mx2."),
        other => panic!("expected fallback to mx2, got {:?}", other),
    }
    let a = feed(&mut att, &cfg, &mut lims, now, AttemptEvent::Ips(Ok(vec![Ip::V4(2)])));
    assert!(matches!(a, AttemptAction::Connect { .. }), "{:?}", a);
    let a = feed(&mut att, &cfg, &mut lims, now, AttemptEvent::Connected(Ok(())));
    assert!(matches!(a, AttemptAction::ReadGreeting { .. }), "{:?}", a);
    let a = feed(&mut att, &cfg, &mut lims, now, AttemptEvent::Greeting(SmtpResult::Reply(rp(220))));
    assert!(matches!(a, AttemptAction::SendEhlo { .. }), "{:?}", a);
    let a = feed(
        &mut att,
        &cfg,
        &mut lims,
        now,
        AttemptEvent::Ehlo(Ok(EhloReply { reply: rp(250), starttls: false })),
    );
    assert!(matches!(a, AttemptAction::SendMailFrom { .. }), "{:?}", a);
    let a = feed(&mut att, &cfg, &mut lims, now, AttemptEvent::MailFrom(SmtpResult::Reply(rp(250))));
    assert!(matches!(a, AttemptAction::SendRcpt { .. }), "{:?}", a);
    let a = feed(&mut att, &cfg, &mut lims, now, AttemptEvent::Rcpt(SmtpResult::Reply(rp(250))));
    assert!(matches!(a, AttemptAction::SendDataInit { .. }), "{:?}", a);
    let a = feed(&mut att, &cfg, &mut lims, now, AttemptEvent::Data(SmtpResult::Reply(rp(354))));
    assert!(matches!(a, AttemptAction::SendDataFinal { .. }), "{:?}", a);
    let a = feed(&mut att, &cfg, &mut lims, now, AttemptEvent::DataFinal(SmtpResult::Reply(rp(250))));
    assert!(matches!(a, AttemptAction::Finished(AttemptOutcome::Done)), "{:?}", a);
    assert!(matches!(att.message.domains[0].status, Status::Completed));
}

#[test]
fn starttls_unavailable_with_requiretls_flag() {
    let cfg = base_cfg();
    let mut lims = Limiters::new();
    let mut message = msg_to("dest", &["user@dest"]);
    message.flags = MAIL_REQUIRETLS;
    let mut att = DeliveryAttempt::new(message);
    let now = 50;

    let a = feed(&mut att, &cfg, &mut lims, now, AttemptEvent::Tick);
    assert!(matches!(a, AttemptAction::LookupMx { .. }), "{:?}", a);
    let mx = vec![MxRecord { preference: 10, exchanges: vec!["mx1".to_string()] }];
    let a = feed(&mut att, &cfg, &mut lims, now, AttemptEvent::Mx(Ok(mx)));
    assert!(matches!(a, AttemptAction::LookupIps { .. }), "{:?}", a);
    let a = feed(&mut att, &cfg, &mut lims, now, AttemptEvent::Ips(Ok(vec![Ip::V4(1)])));
    assert!(matches!(a, AttemptAction::Connect { .. }), "{:?}", a);
    let a = feed(&mut att, &cfg, &mut lims, now, AttemptEvent::Connected(Ok(())));
    assert!(matches!(a, AttemptAction::ReadGreeting { .. }), "{:?}", a);
    let a = feed(&mut att, &cfg, &mut lims, now, AttemptEvent::Greeting(SmtpResult::Reply(rp(220))));
    assert!(matches!(a, AttemptAction::SendEhlo { .. }), "{:?}", a);
    // 250 to EHLO without the STARTTLS capability: the host is unusable.
    let a = feed(
        &mut att,
        &cfg,
        &mut lims,
        now,
        AttemptEvent::Ehlo(Ok(EhloReply { reply: rp(250), starttls: false })),
    );
    match a {
        AttemptAction::Finished(AttemptOutcome::Retry { due }) => {
            assert_eq!(due, now + cfg.retry[0]);
        },
        other => panic!("expected retry, got {:?}", other),
    }
    match &att.message.domains[0].status {
        Status::TemporaryFailure(Error::TlsRequiredUnavailable(r)) => assert_eq!(r.code, 250),
        other => panic!("expected TLS-required failure, got {:?}", other),
    }
    assert_eq!(att.message.domains[0].retry.inner, 1);
    assert_eq!(att.message.domains[0].retry.due, now + cfg.retry[0]);
}

#[test]
fn rate_limited_recipient_domain() {
    let mut cfg = base_cfg();
    cfg.throttle_rcpt = vec![ThrottleRule {
        keys: KEY_RCPT_DOMAIN,
        concurrency: None,
        rate: Some(RateSpec { max: 1, window: 60_000 }),
    }];
    let mut lims = Limiters::new();
    let now = 100;

    // First message consumes the one slot of the window.
    let mut att1 = DeliveryAttempt::new(msg_to("dest", &["a@dest"]));
    let a = feed(&mut att1, &cfg, &mut lims, now, AttemptEvent::Tick);
    assert!(matches!(a, AttemptAction::LookupMx { .. }), "{:?}", a);

    // The second attempt within the window is rescheduled at the window end.
    let mut att2 = DeliveryAttempt::new(msg_to("dest", &["b@dest"]));
    let a = feed(&mut att2, &cfg, &mut lims, now + 10, AttemptEvent::Tick);
    match a {
        AttemptAction::Finished(AttemptOutcome::Retry { due }) => {
            assert_eq!(due, now + 60_000);
        },
        other => panic!("expected rate-limited retry, got {:?}", other),
    }
    assert!(matches!(att2.message.domains[0].status, Status::Scheduled));
    assert_eq!(att2.message.domains[0].retry.due, now + 60_000);
    assert_eq!(att2.message.domains[0].retry.inner, 0);
}

#[test]
fn concurrency_limited_host_causes_on_hold() {
    let mut cfg = base_cfg();
    cfg.throttle_host = vec![ThrottleRule {
        keys: KEY_MX,
        concurrency: Some(1),
        rate: None,
    }];
    let mut lims = Limiters::new();
    let now = 100;
    let mx = || vec![MxRecord { preference: 10, exchanges: vec!["mx1".to_string()] }];

    // Attempt A holds the single token for mx1.
    let mut att_a = DeliveryAttempt::new(msg_to("dest", &["a@dest"]));
    let a = feed(&mut att_a, &cfg, &mut lims, now, AttemptEvent::Tick);
    assert!(matches!(a, AttemptAction::LookupMx { .. }), "{:?}", a);
    let a = feed(&mut att_a, &cfg, &mut lims, now, AttemptEvent::Mx(Ok(mx())));
    assert!(matches!(a, AttemptAction::LookupIps { .. }), "{:?}", a);
    let a = feed(&mut att_a, &cfg, &mut lims, now, AttemptEvent::Ips(Ok(vec![Ip::V4(1)])));
    assert!(matches!(a, AttemptAction::Connect { .. }), "{:?}", a);

    // Attempt B finds the pool exhausted and goes on hold.
    let mut att_b = DeliveryAttempt::new(msg_to("dest", &["b@dest"]));
    let a = feed(&mut att_b, &cfg, &mut lims, now, AttemptEvent::Tick);
    assert!(matches!(a, AttemptAction::LookupMx { .. }), "{:?}", a);
    let a = feed(&mut att_b, &cfg, &mut lims, now, AttemptEvent::Mx(Ok(mx())));
    assert!(matches!(a, AttemptAction::LookupIps { .. }), "{:?}", a);
    let a = feed(&mut att_b, &cfg, &mut lims, now, AttemptEvent::Ips(Ok(vec![Ip::V4(1)])));
    let keys = match a {
        AttemptAction::Finished(AttemptOutcome::OnHold { limiters, .. }) => {
            assert_eq!(limiters.len(), 1);
            limiters
        },
        other => panic!("expected on-hold, got {:?}", other),
    };

    // The queue parks B; when A's attempt ends its token is released and B
    // is woken at once.
    let mut q = Queue::new();
    q.handle_result(WorkerResult::OnHold(smtp_delivery::queue::OnHold {
        message: att_b.message,
        limiters: keys,
        next_due: None,
    }));
    assert_eq!(q.on_hold.len(), 1);

    // A's connection fails and its host list runs out: the attempt finishes
    // and every token it held is handed back.
    let a = feed(
        &mut att_a,
        &cfg,
        &mut lims,
        now,
        AttemptEvent::Connected(Err(ClientError::Timeout)),
    );
    assert!(matches!(a, AttemptAction::Finished(_)), "{:?}", a);

    let released = att_a.message.domains[0].clone();
    assert!(matches!(released.status, Status::TemporaryFailure(_)));

    let key = lims.concurrency[0].key.duplicate();
    assert_eq!(lims.concurrency[0].in_use, 0);
    q.on_limiter_released(&key, now + 5);
    assert_eq!(q.on_hold.len(), 0);
    assert_eq!(q.main.len(), 1);
    assert_eq!(q.main[0].due, now + 5);
}

#[test]
fn per_recipient_partial_success() {
    let cfg = base_cfg();
    let mut lims = Limiters::new();
    let mut att = DeliveryAttempt::new(msg_to("dest", &["r1@dest", "r2@dest"]));
    let now = 10;

    let a = feed(&mut att, &cfg, &mut lims, now, AttemptEvent::Tick);
    assert!(matches!(a, AttemptAction::LookupMx { .. }), "{:?}", a);
    let mx = vec![MxRecord { preference: 10, exchanges: vec!["mx1".to_string()] }];
    let a = feed(&mut att, &cfg, &mut lims, now, AttemptEvent::Mx(Ok(mx)));
    assert!(matches!(a, AttemptAction::LookupIps { .. }), "{:?}", a);
    let a = feed(&mut att, &cfg, &mut lims, now, AttemptEvent::Ips(Ok(vec![Ip::V4(1)])));
    assert!(matches!(a, AttemptAction::Connect { .. }), "{:?}", a);
    let a = feed(&mut att, &cfg, &mut lims, now, AttemptEvent::Connected(Ok(())));
    assert!(matches!(a, AttemptAction::ReadGreeting { .. }), "{:?}", a);
    let a = feed(&mut att, &cfg, &mut lims, now, AttemptEvent::Greeting(SmtpResult::Reply(rp(220))));
    assert!(matches!(a, AttemptAction::SendEhlo { .. }), "{:?}", a);
    let a = feed(
        &mut att,
        &cfg,
        &mut lims,
        now,
        AttemptEvent::Ehlo(Ok(EhloReply { reply: rp(250), starttls: false })),
    );
    assert!(matches!(a, AttemptAction::SendMailFrom { .. }), "{:?}", a);
    let a = feed(&mut att, &cfg, &mut lims, now, AttemptEvent::MailFrom(SmtpResult::Reply(rp(250))));
    match &a {
        AttemptAction::SendRcpt { address, .. } => assert_eq!(address, "r1@dest"),
        other => panic!("expected first rcpt, got {:?}", other),
    }
    let a = feed(&mut att, &cfg, &mut lims, now, AttemptEvent::Rcpt(SmtpResult::Reply(rp(250))));
    match &a {
        AttemptAction::SendRcpt { address, .. } => assert_eq!(address, "r2@dest"),
        other => panic!("expected second rcpt, got {:?}", other),
    }
    let a = feed(&mut att, &cfg, &mut lims, now, AttemptEvent::Rcpt(SmtpResult::Reply(rp(550))));
    assert!(matches!(a, AttemptAction::SendDataInit { .. }), "{:?}", a);
    let a = feed(&mut att, &cfg, &mut lims, now, AttemptEvent::Data(SmtpResult::Reply(rp(354))));
    assert!(matches!(a, AttemptAction::SendDataFinal { .. }), "{:?}", a);
    let a = feed(&mut att, &cfg, &mut lims, now, AttemptEvent::DataFinal(SmtpResult::Reply(rp(250))));
    assert!(matches!(a, AttemptAction::Finished(AttemptOutcome::Done)), "{:?}", a);

    assert!(matches!(att.message.domains[0].status, Status::Completed));
    match &att.message.recipients[0].status {
        RecipientStatus::Completed(r) => assert_eq!(r.code, 250),
        other => panic!("expected r1 completed, got {:?}", other),
    }
    match &att.message.recipients[1].status {
        RecipientStatus::PermanentFailure(r) => assert_eq!(r.code, 550),
        other => panic!("expected r2 permanently failed, got {:?}", other),
    }
}

#[test]
fn equal_preference_mx_shuffle() {
    let record = MxRecord {
        preference: 10,
        exchanges: vec!["a.example".to_string(), "b.example".to_string()],
    };
    let mut first_a = 0usize;
    for _ in 0..1000 {
        let hosts = smtp_delivery::planner::plan_remote_hosts(
            "dest",
            &vec![MxRecord { preference: record.preference, exchanges: record.exchanges.clone() }],
            5,
        );
        assert_eq!(hosts.len(), 2);
        match &hosts[0] {
            smtp_delivery::host::RemoteHost::MX(h) => {
                if h == "a.example" {
                    first_a += 1;
                }
            },
            other => panic!("expected an MX host, got {:?}", other),
        }
    }
    // Uniform shuffling puts each exchange first about half the time.
    assert!(first_a > 350 && first_a < 650, "a.example first {} times", first_a);
}
