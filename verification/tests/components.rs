//! Unit checks of the building blocks: classification, retry arithmetic,
//! limiter bounds, host capabilities, planning and finalization.

use smtp_delivery::host::{Ip, RelayHost, RemoteHost};
use smtp_delivery::limiter::{
    InFlight, LimiterKey, Limiters, QueueEnvelope, RateSpec, ThrottleError, ThrottleRule,
    KEY_SENDER,
};
use smtp_delivery::message::{
    Domain, Message, Recipient, RecipientStatus, Schedule,
};
use smtp_delivery::planner::{plan_remote_hosts, resolve_host, MxRecord};
use smtp_delivery::status::{ClientError, DnsFailure, Error, Reply, Severity, Status};

fn rp(code: u16) -> Reply {
    Reply { code, esc: [0, 0, 0], message: String::new() }
}

#[test]
fn reply_severity_by_first_digit() {
    assert_eq!(rp(250).severity(), Severity::PositiveCompletion);
    assert_eq!(rp(354).severity(), Severity::PositiveIntermediate);
    assert_eq!(rp(451).severity(), Severity::TransientNegativeCompletion);
    assert_eq!(rp(550).severity(), Severity::PermanentNegativeCompletion);
    assert_eq!(rp(999).severity(), Severity::Invalid);
    assert_eq!(rp(0).severity(), Severity::Invalid);
}

#[test]
fn client_errors_classify_by_reply_severity() {
    match Status::from_client_error("Failed to deliver to", "mx1", ClientError::UnexpectedReply(rp(550))) {
        Status::PermanentFailure(Error::UnexpectedResponse { message, response }) => {
            assert_eq!(message, "Failed to deliver to \"mx1\"");
            assert_eq!(response.code, 550);
        },
        other => panic!("expected permanent failure, got {:?}", other),
    }
    match Status::from_client_error("Failed to deliver to", "mx1", ClientError::UnexpectedReply(rp(421))) {
        Status::TemporaryFailure(Error::UnexpectedResponse { response, .. }) => {
            assert_eq!(response.code, 421);
        },
        other => panic!("expected temporary failure, got {:?}", other),
    }
    match Status::from_client_error("Failed to connect to", "mx1", ClientError::Timeout) {
        Status::TemporaryFailure(Error::ConnectionError(m)) => {
            assert_eq!(m, "Failed to connect to \"mx1\"");
        },
        other => panic!("expected connection error, got {:?}", other),
    }
}

#[test]
fn dns_failures_classify_by_kind() {
    match Status::from_dns_failure(DnsFailure::RecordNotFound("NXDOMAIN".to_string())) {
        Status::PermanentFailure(Error::DnsError(m)) => assert_eq!(m, "NXDOMAIN"),
        other => panic!("expected permanent DNS failure, got {:?}", other),
    }
    match Status::from_dns_failure(DnsFailure::Other("timed out".to_string())) {
        Status::TemporaryFailure(Error::DnsError(m)) => assert_eq!(m, "timed out"),
        other => panic!("expected temporary DNS failure, got {:?}", other),
    }
}

fn domain_at(attempt: u32) -> Domain {
    Domain {
        domain: "dest".to_string(),
        status: Status::Scheduled,
        retry: Schedule { due: 0, inner: attempt },
        expires_at: u64::MAX,
    }
}

#[test]
fn retry_walks_the_schedule_and_clamps() {
    let schedule = [1000u64, 2000, 4000];
    let mut d = domain_at(0);
    d.retry(&schedule, 100);
    assert_eq!(d.retry.due, 1100);
    assert_eq!(d.retry.inner, 1);
    d.retry(&schedule, 1100);
    assert_eq!(d.retry.due, 3100);
    assert_eq!(d.retry.inner, 2);
    let mut late = domain_at(7);
    late.retry(&schedule, 100);
    assert_eq!(late.retry.due, 4100);
    assert_eq!(late.retry.inner, 8);
}

#[test]
fn set_status_counts_only_temporary_failures() {
    let schedule = [1000u64];
    let mut d = domain_at(0);
    d.set_status(Status::TemporaryFailure(Error::Expired), &schedule, 50);
    assert_eq!(d.retry.inner, 1);
    assert_eq!(d.retry.due, 1050);
    let mut done = domain_at(3);
    done.set_status(Status::Completed, &schedule, 50);
    assert_eq!(done.retry.inner, 3);
    assert_eq!(done.retry.due, 0);
}

fn msg_with_domains(domains: Vec<Domain>) -> Message {
    Message {
        id: 7,
        created_at: 0,
        size: 10,
        flags: 0,
        return_path: "s@o".to_string(),
        domains,
        recipients: Vec::new(),
    }
}

#[test]
fn next_event_is_min_over_non_terminal_domains() {
    let mut d1 = domain_at(0);
    d1.retry.due = 500;
    let mut d2 = domain_at(0);
    d2.retry.due = 200;
    d2.status = Status::Completed;
    let mut d3 = domain_at(0);
    d3.retry.due = 300;
    d3.status = Status::TemporaryFailure(Error::Expired);
    let m = msg_with_domains(vec![d1, d2, d3]);
    assert_eq!(m.next_event(), Some(300));
    assert_eq!(m.next_event_after(300), Some(500));
    assert_eq!(m.next_event_after(500), None);
}

#[test]
fn finalize_leaves_no_recipient_scheduled() {
    let mut d = domain_at(0);
    d.status = Status::PermanentFailure(Error::Expired);
    let mut m = msg_with_domains(vec![d]);
    m.recipients = vec![
        Recipient { address: "a@d".to_string(), domain_idx: 0, status: RecipientStatus::Scheduled },
        Recipient {
            address: "b@d".to_string(),
            domain_idx: 0,
            status: RecipientStatus::TemporaryFailure(rp(451)),
        },
        Recipient {
            address: "c@d".to_string(),
            domain_idx: 0,
            status: RecipientStatus::Completed(rp(250)),
        },
    ];
    m.finalize();
    match &m.recipients[0].status {
        RecipientStatus::PermanentFailure(r) => assert_eq!(r.code, 0),
        other => panic!("expected permanent failure, got {:?}", other),
    }
    match &m.recipients[1].status {
        RecipientStatus::PermanentFailure(r) => assert_eq!(r.code, 451),
        other => panic!("expected permanent failure with 451, got {:?}", other),
    }
    match &m.recipients[2].status {
        RecipientStatus::Completed(r) => assert_eq!(r.code, 250),
        other => panic!("expected completed recipient kept, got {:?}", other),
    }
}

fn env_for(sender: &str) -> QueueEnvelope {
    QueueEnvelope {
        sender: sender.to_string(),
        domain: String::new(),
        mx: String::new(),
        remote_ip: None,
        local_ip: None,
    }
}

#[test]
fn concurrency_pool_never_exceeds_its_cap() {
    let rule = ThrottleRule { keys: KEY_SENDER, concurrency: Some(2), rate: None };
    let mut lims = Limiters::new();
    let mut tokens: Vec<InFlight> = Vec::new();
    let env = env_for("s@o");
    assert!(lims.is_allowed(&rule, 0, &env, &mut tokens, 0).is_ok());
    assert!(lims.is_allowed(&rule, 0, &env, &mut tokens, 0).is_ok());
    match lims.is_allowed(&rule, 0, &env, &mut tokens, 0) {
        Err(ThrottleError::Concurrency { .. }) => {},
        other => panic!("expected the pool exhausted, got {:?}", other),
    }
    assert_eq!(lims.concurrency[0].in_use, 2);
    assert_eq!(lims.concurrency[0].cap, 2);
    lims.release_all(&tokens);
    assert_eq!(lims.concurrency[0].in_use, 0);
    // Releasing again changes nothing: release is idempotent.
    lims.release_all(&tokens);
    assert_eq!(lims.concurrency[0].in_use, 0);
}

#[test]
fn rate_bucket_refuses_until_the_window_ends() {
    let rule = ThrottleRule {
        keys: KEY_SENDER,
        concurrency: None,
        rate: Some(RateSpec { max: 1, window: 60_000 }),
    };
    let mut lims = Limiters::new();
    let mut tokens: Vec<InFlight> = Vec::new();
    let env = env_for("s@o");
    assert!(lims.is_allowed(&rule, 0, &env, &mut tokens, 100).is_ok());
    match lims.is_allowed(&rule, 0, &env, &mut tokens, 500) {
        Err(ThrottleError::Rate { retry_at }) => assert_eq!(retry_at, 60_100),
        other => panic!("expected a rate refusal, got {:?}", other),
    }
    // A fresh window admits again.
    assert!(lims.is_allowed(&rule, 0, &env, &mut tokens, 60_100).is_ok());
}

#[test]
fn keys_project_only_selected_fields() {
    let env_a = env_for("a@o");
    let env_b = env_for("b@o");
    let ka = LimiterKey::of(3, KEY_SENDER, &env_a);
    let kb = LimiterKey::of(3, KEY_SENDER, &env_b);
    let ka2 = LimiterKey::of(3, KEY_SENDER, &env_a);
    assert!(ka.same_key(&ka2));
    assert!(!ka.same_key(&kb));
    let unkeyed_a = LimiterKey::of(3, 0, &env_a);
    let unkeyed_b = LimiterKey::of(3, 0, &env_b);
    assert!(unkeyed_a.same_key(&unkeyed_b));
}

#[test]
fn remote_host_capabilities() {
    let mx = RemoteHost::MX("mx1.dest".to_string());
    assert_eq!(mx.hostname(), "mx1.dest");
    assert_eq!(mx.fqdn_hostname(), "mx1.dest.");
    assert_eq!(mx.port(), 25);
    assert!(!mx.allow_invalid_certs());
    assert!(!mx.implicit_tls());

    let dotted = RemoteHost::MX("mx1.dest.".to_string());
    assert_eq!(dotted.fqdn_hostname(), "mx1.dest.");

    let relay = RemoteHost::Relay(RelayHost {
        address: "relay.example".to_string(),
        port: 465,
        tls_implicit: true,
        tls_allow_invalid_certs: true,
    });
    assert_eq!(relay.hostname(), "relay.example");
    assert_eq!(relay.fqdn_hostname(), "relay.example");
    assert_eq!(relay.port(), 465);
    assert!(relay.allow_invalid_certs());
    assert!(relay.implicit_tls());
}

#[test]
fn empty_mx_answer_falls_back_to_the_domain() {
    let hosts = plan_remote_hosts("dest.example", &Vec::new(), 4);
    assert_eq!(hosts.len(), 1);
    match &hosts[0] {
        RemoteHost::MX(h) => assert_eq!(h, "dest.example"),
        other => panic!("expected the implicit exchange, got {:?}", other),
    }
}

#[test]
fn host_list_keeps_preference_order_and_contents() {
    let mx = vec![
        MxRecord {
            preference: 10,
            exchanges: vec!["a1".to_string(), "a2".to_string()],
        },
        MxRecord { preference: 20, exchanges: vec!["b1".to_string()] },
    ];
    let hosts = plan_remote_hosts("dest", &mx, 10);
    assert_eq!(hosts.len(), 3);
    let names: Vec<String> = hosts
        .iter()
        .map(|h| match h {
            RemoteHost::MX(n) => n.clone(),
            other => panic!("expected an MX host, got {:?}", other),
        })
        .collect();
    // The lower-preference group comes first, in some order; the higher one
    // follows.
    let mut first_two = vec![names[0].clone(), names[1].clone()];
    first_two.sort();
    assert_eq!(first_two, vec!["a1".to_string(), "a2".to_string()]);
    assert_eq!(names[2], "b1");

    let capped = plan_remote_hosts("dest", &mx, 1);
    assert_eq!(capped.len(), 1);
}

#[test]
fn resolve_host_truncates_and_picks_a_source() {
    let ips = vec![Ip::V4(1), Ip::V4(2), Ip::V4(3)];
    let v4_sources = vec![Ip::V4(99)];
    let v6_sources: Vec<Ip> = Vec::new();
    match resolve_host("mx1", &ips, &v4_sources, &v6_sources, 2) {
        Ok((source, remote)) => {
            assert_eq!(remote, vec![Ip::V4(1), Ip::V4(2)]);
            assert_eq!(source, Some(Ip::V4(99)));
        },
        Err(e) => panic!("expected addresses, got {:?}", e),
    }
    let no_sources: Vec<Ip> = Vec::new();
    match resolve_host("mx1", &ips, &no_sources, &v6_sources, 8) {
        Ok((source, remote)) => {
            assert_eq!(remote.len(), 3);
            assert_eq!(source, None);
        },
        Err(e) => panic!("expected addresses, got {:?}", e),
    }
    match resolve_host("mx1", &Vec::new(), &no_sources, &v6_sources, 8) {
        Err(Status::TemporaryFailure(Error::DnsError(m))) => {
            assert_eq!(m, "No IP addresses found for \"mx1\".");
        },
        other => panic!("expected a temporary DNS failure, got {:?}", other),
    }
}

#[test]
fn resolve_host_draws_each_configured_source() {
    let ips = vec![Ip::V6(1)];
    let v4_sources: Vec<Ip> = Vec::new();
    let v6_sources = vec![Ip::V6(10), Ip::V6(20), Ip::V6(30)];
    let mut seen = [false; 3];
    for _ in 0..200 {
        match resolve_host("mx1", &ips, &v4_sources, &v6_sources, 1) {
            Ok((Some(Ip::V6(n)), _)) => {
                seen[(n / 10 - 1) as usize] = true;
            },
            other => panic!("expected a drawn source, got {:?}", other),
        }
    }
    assert!(seen.iter().all(|s| *s), "every configured source should be drawn: {:?}", seen);
}
