//! Unit checks of the server-building logic, the queue manager's moves and
//! the inbound RCPT decision.

use smtp_delivery::config::{
    CipherSuite, Config, ListenerSpec, ServerDefaults, ServerProtocol, SockAddr, SocketOptions,
    TlsVersionChoice,
};
use smtp_delivery::host::Ip;
use smtp_delivery::message::{Domain, Message, Schedule};
use smtp_delivery::queue::{Queue, WorkerResult};
use smtp_delivery::rcpt::{RcptDecision, Session, SessionData, SessionParams};
use smtp_delivery::status::Status;

fn no_options() -> SocketOptions {
    SocketOptions {
        reuse_addr: None,
        reuse_port: None,
        send_buffer_size: None,
        recv_buffer_size: None,
        linger_ms: None,
        tos: None,
    }
}

fn bare_listener(id: &str) -> ListenerSpec {
    ListenerSpec {
        id: id.to_string(),
        tls_enable: None,
        tls_protocols: None,
        tls_ciphers: None,
        tls_certificate: None,
        tls_sni: None,
        tls_ignore_client_order: None,
        tls_implicit: None,
        binds: vec![SockAddr { ip: Ip::V4(0x7F000001), port: 25 }],
        options: no_options(),
        ttl: None,
        backlog: Some(128),
        hostname: Some("mx.example".to_string()),
        greeting: None,
        protocol: None,
    }
}

fn no_defaults() -> ServerDefaults {
    ServerDefaults {
        tls_enable: None,
        tls_protocols: None,
        tls_ciphers: None,
        tls_certificate: None,
        tls_sni: None,
        tls_ignore_client_order: None,
        tls_implicit: None,
        hostname: None,
        greeting: None,
        protocol: None,
    }
}

#[test]
fn server_protocol_names() {
    assert_eq!(ServerProtocol::parse_value("smtp"), Ok(ServerProtocol::Smtp));
    assert_eq!(ServerProtocol::parse_value("SMTP"), Ok(ServerProtocol::Smtp));
    assert_eq!(ServerProtocol::parse_value("Lmtp"), Ok(ServerProtocol::Lmtp));
    assert!(ServerProtocol::parse_value("imap").is_err());
}

#[test]
fn cipher_suite_names() {
    assert_eq!(
        CipherSuite::parse_value("TLS13_AES_256_GCM_SHA384"),
        Ok(CipherSuite::Tls13Aes256GcmSha384)
    );
    assert_eq!(
        CipherSuite::parse_value("TLS13_AES_128_GCM_SHA256"),
        Ok(CipherSuite::Tls13Aes128GcmSha256)
    );
    assert_eq!(
        CipherSuite::parse_value("TLS13_CHACHA20_POLY1305_SHA256"),
        Ok(CipherSuite::Tls13Chacha20Poly1305Sha256)
    );
    assert_eq!(
        CipherSuite::parse_value("TLS_ECDHE_ECDSA_WITH_AES_256_GCM_SHA384"),
        Ok(CipherSuite::EcdheEcdsaAes256GcmSha384)
    );
    assert_eq!(
        CipherSuite::parse_value("TLS_ECDHE_ECDSA_WITH_AES_128_GCM_SHA256"),
        Ok(CipherSuite::EcdheEcdsaAes128GcmSha256)
    );
    assert_eq!(
        CipherSuite::parse_value("TLS_ECDHE_ECDSA_WITH_CHACHA20_POLY1305_SHA256"),
        Ok(CipherSuite::EcdheEcdsaChacha20Poly1305Sha256)
    );
    assert_eq!(
        CipherSuite::parse_value("TLS_ECDHE_RSA_WITH_AES_256_GCM_SHA384"),
        Ok(CipherSuite::EcdheRsaAes256GcmSha384)
    );
    assert_eq!(
        CipherSuite::parse_value("TLS_ECDHE_RSA_WITH_AES_128_GCM_SHA256"),
        Ok(CipherSuite::EcdheRsaAes128GcmSha256)
    );
    assert_eq!(
        CipherSuite::parse_value("TLS_ECDHE_RSA_WITH_CHACHA20_POLY1305_SHA256"),
        Ok(CipherSuite::EcdheRsaChacha20Poly1305Sha256)
    );
    assert!(CipherSuite::parse_value("TLS13_AES_256_GCM_SHA383").is_err());
}

#[test]
fn builds_a_plain_server_with_defaults() {
    let config = Config { global: no_defaults(), listeners: vec![bare_listener("smtp")] };
    let servers = config.build_servers().expect("a bare listener builds");
    assert_eq!(servers.len(), 1);
    let s = &servers[0];
    assert_eq!(s.id, "smtp");
    assert_eq!(s.internal_id, 0);
    assert_eq!(s.hostname, "mx.example");
    assert_eq!(s.greeting, "Stalwart SMTP at your service");
    assert_eq!(s.protocol, ServerProtocol::Smtp);
    assert_eq!(s.listeners.len(), 1);
    assert_eq!(s.listeners[0].backlog, Some(128));
    assert!(s.tls.is_none());
    assert!(!s.tls_implicit);
}

#[test]
fn builds_tls_with_version_rules() {
    let mut listener = bare_listener("submissions");
    listener.tls_enable = Some(true);
    listener.tls_certificate = Some("default".to_string());
    listener.tls_protocols = Some(vec!["TLSv1.3".to_string()]);
    listener.tls_ciphers = Some(vec!["TLS13_AES_128_GCM_SHA256".to_string()]);
    let config = Config { global: no_defaults(), listeners: vec![listener] };
    let servers = config.build_servers().expect("a TLS listener builds");
    let tls = servers[0].tls.as_ref().expect("TLS settings present");
    assert_eq!(tls.versions, TlsVersionChoice::V3Only);
    assert_eq!(tls.ciphers, vec![CipherSuite::Tls13Aes128GcmSha256]);
    assert_eq!(tls.certificate_id, "default");
    assert!(tls.ignore_client_order);
    assert!(servers[0].tls_implicit);

    // Naming both versions, or none, enables both.
    let mut both = bare_listener("both");
    both.tls_enable = Some(true);
    both.tls_certificate = Some("default".to_string());
    both.tls_protocols = Some(vec!["0x0303".to_string(), "0x0304".to_string()]);
    let config = Config { global: no_defaults(), listeners: vec![both] };
    let servers = config.build_servers().unwrap();
    assert_eq!(servers[0].tls.as_ref().unwrap().versions, TlsVersionChoice::Both);

    let mut none = bare_listener("none");
    none.tls_enable = Some(true);
    none.tls_certificate = Some("default".to_string());
    let config = Config { global: no_defaults(), listeners: vec![none] };
    let servers = config.build_servers().unwrap();
    assert_eq!(servers[0].tls.as_ref().unwrap().versions, TlsVersionChoice::Both);

    let mut bad = bare_listener("bad");
    bad.tls_enable = Some(true);
    bad.tls_certificate = Some("default".to_string());
    bad.tls_protocols = Some(vec!["SSLv3".to_string()]);
    let config = Config { global: no_defaults(), listeners: vec![bad] };
    assert!(config.build_servers().is_err());
}

#[test]
fn refuses_duplicates_and_empty_sections() {
    let config = Config {
        global: no_defaults(),
        listeners: vec![bare_listener("smtp"), bare_listener("smtp")],
    };
    assert!(config.build_servers().is_err());

    let config = Config { global: no_defaults(), listeners: Vec::new() };
    assert!(config.build_servers().is_err());

    let mut unbound = bare_listener("smtp");
    unbound.binds = Vec::new();
    let config = Config { global: no_defaults(), listeners: vec![unbound] };
    assert!(config.build_servers().is_err());

    let mut nameless = bare_listener("smtp");
    nameless.hostname = None;
    let config = Config { global: no_defaults(), listeners: vec![nameless] };
    assert!(config.build_servers().is_err());
}

#[test]
fn global_defaults_fill_missing_fields() {
    let mut g = no_defaults();
    g.hostname = Some("global.example".to_string());
    g.greeting = Some("hello".to_string());
    g.protocol = Some("lmtp".to_string());
    let mut listener = bare_listener("l1");
    listener.hostname = None;
    let config = Config { global: g, listeners: vec![listener] };
    let servers = config.build_servers().unwrap();
    assert_eq!(servers[0].hostname, "global.example");
    assert_eq!(servers[0].greeting, "hello");
    assert_eq!(servers[0].protocol, ServerProtocol::Lmtp);
}

fn queued(id: u64, due: u64) -> Schedule<Message> {
    Schedule {
        due,
        inner: Message {
            id,
            created_at: 0,
            size: 1,
            flags: 0,
            return_path: "s@o".to_string(),
            domains: vec![Domain {
                domain: "d".to_string(),
                status: Status::Scheduled,
                retry: Schedule { due, inner: 0 },
                expires_at: u64::MAX,
            }],
            recipients: Vec::new(),
        },
    }
}

#[test]
fn queue_pops_earliest_due_first_with_ties_in_order() {
    let mut q = Queue::new();
    q.schedule(queued(1, 300));
    q.schedule(queued(2, 100));
    q.schedule(queued(3, 100));
    assert_eq!(q.next_wake(), Some(100));

    let e = q.pop_next(50);
    assert!(e.is_none());

    let e = q.pop_next(100).expect("one entry is due");
    assert_eq!(e.inner.id, 2);
    let e = q.pop_next(100).expect("the tie follows in filing order");
    assert_eq!(e.inner.id, 3);
    assert!(q.pop_next(100).is_none());
    let e = q.pop_next(400).expect("the late entry is due by now");
    assert_eq!(e.inner.id, 1);
    assert!(q.pop_next(400).is_none());
}

#[test]
fn queue_files_worker_results() {
    let mut q = Queue::new();
    q.handle_result(WorkerResult::Done);
    assert_eq!(q.main.len(), 0);
    q.handle_result(WorkerResult::Retry(queued(9, 700)));
    assert_eq!(q.main.len(), 1);
    assert_eq!(q.next_wake(), Some(700));
}

fn session(relay: bool, directory: bool) -> Session {
    Session {
        params: SessionParams {
            rcpt_max: 2,
            rcpt_relay: relay,
            has_directory: directory,
            rcpt_errors_max: 2,
            rcpt_errors_wait: 10,
        },
        data: SessionData {
            mail_from: Some("s@o".to_string()),
            rcpt_to: Vec::new(),
            rcpt_errors: 0,
        },
    }
}

#[test]
fn rcpt_requires_mail_from_first() {
    let mut s = session(true, false);
    s.data.mail_from = None;
    let d = s.handle_rcpt_to("User@Dest".to_string(), 0, None, None, true);
    assert!(matches!(d, RcptDecision::RequireMailFrom));
    assert_eq!(d.response_line(), "503 5.5.1 MAIL is required first.\r\n");
}

#[test]
fn rcpt_accepts_and_lowercases() {
    let mut s = session(true, false);
    let d = s.handle_rcpt_to("User@Dest".to_string(), 0, None, None, true);
    assert!(matches!(d, RcptDecision::Accept { duplicate: false }));
    assert_eq!(d.response_line(), "250 2.1.5 OK\r\n");
    assert_eq!(s.data.rcpt_to.len(), 1);
    assert_eq!(s.data.rcpt_to[0].address, "User@Dest");
    assert_eq!(s.data.rcpt_to[0].address_lcase, "user@dest");
    assert_eq!(s.data.rcpt_to[0].domain, "dest");

    // The same recipient again is acknowledged without being added.
    let d = s.handle_rcpt_to("user@dest".to_string(), 0, None, None, true);
    assert!(matches!(d, RcptDecision::Accept { duplicate: true }));
    assert_eq!(s.data.rcpt_to.len(), 1);
}

#[test]
fn rcpt_limits_and_directory_cascade() {
    let mut s = session(true, false);
    assert!(matches!(
        s.handle_rcpt_to("a@d".to_string(), 0, None, None, true),
        RcptDecision::Accept { .. }
    ));
    assert!(matches!(
        s.handle_rcpt_to("b@d".to_string(), 0, None, None, true),
        RcptDecision::Accept { .. }
    ));
    let d = s.handle_rcpt_to("c@d".to_string(), 0, None, None, true);
    assert!(matches!(d, RcptDecision::TooManyRecipients));
    assert_eq!(d.response_line(), "451 4.5.3 Too many recipients.\r\n");

    let mut s = session(false, true);
    let d = s.handle_rcpt_to("a@local".to_string(), 0, Some(true), Some(true), true);
    assert!(matches!(d, RcptDecision::Accept { duplicate: false }));
    let d = s.handle_rcpt_to("b@local".to_string(), 0, Some(true), Some(false), true);
    assert!(matches!(d, RcptDecision::MailboxUnavailable));
    assert_eq!(d.response_line(), "550 5.1.2 Mailbox does not exist.\r\n");
    let d = s.handle_rcpt_to("b@remote".to_string(), 0, Some(false), None, true);
    assert!(matches!(d, RcptDecision::RelayNotAllowed));
    assert_eq!(d.response_line(), "550 5.1.2 Relay not allowed.\r\n");
    let d = s.handle_rcpt_to("c@nowhere".to_string(), 0, None, None, true);
    assert!(matches!(d, RcptDecision::UnableToVerify));
    assert_eq!(
        d.response_line(),
        "451 4.4.3 Unable to verify address at this time.\r\n"
    );

    let mut s = session(true, false);
    let d = s.handle_rcpt_to("fresh@d".to_string(), 0, None, None, false);
    assert!(matches!(d, RcptDecision::RateLimited));
    assert_eq!(s.data.rcpt_to.len(), 0);
    assert_eq!(
        d.response_line(),
        "451 4.4.5 Rate limit exceeded, try again later.\r\n"
    );
}

#[test]
fn rcpt_errors_end_the_session_at_the_budget() {
    let mut s = session(false, false);
    let d = s.handle_rcpt_to("a@d".to_string(), 0, None, None, true);
    assert!(d.is_rcpt_error());
    assert!(!s.rcpt_error());
    assert_eq!(s.data.rcpt_errors, 1);
    assert!(s.rcpt_error());
    assert_eq!(s.data.rcpt_errors, 2);
    assert_eq!(
        Session::too_many_errors_line(),
        "421 4.3.0 Too many errors, disconnecting.\r\n"
    );
}

#[test]
fn address_without_at_has_an_empty_domain() {
    let mut s = session(true, false);
    let d = s.handle_rcpt_to("postmaster".to_string(), 0, None, None, true);
    assert!(matches!(d, RcptDecision::Accept { duplicate: false }));
    assert_eq!(s.data.rcpt_to[0].domain, "");
}
