//! Storing and reloading a queued message preserves its semantic value.

use smtp_delivery::codec::{decode_message, encode_message};
use smtp_delivery::message::{Domain, Message, Recipient, RecipientStatus, Schedule};
use smtp_delivery::status::{Error, Reply, Status};

fn rp(code: u16, text: &str) -> Reply {
    Reply { code, esc: [5, 1, 2], message: text.to_string() }
}

#[test]
fn message_round_trip_preserves_everything() {
    let m = Message {
        id: 42,
        created_at: 1000,
        size: 2048,
        flags: 64,
        return_path: "sender@origin.example".to_string(),
        domains: vec![
            Domain {
                domain: "alpha.example".to_string(),
                status: Status::Completed,
                retry: Schedule { due: 7777, inner: 3 },
                expires_at: 99999,
            },
            Domain {
                domain: "beta.example".to_string(),
                status: Status::TemporaryFailure(Error::UnexpectedResponse {
                    message: "Unexpected MAIL FROM reply from mx1".to_string(),
                    response: rp(451, "try again"),
                }),
                retry: Schedule { due: 8888, inner: 7 },
                expires_at: 88888,
            },
            Domain {
                domain: "gamma.example".to_string(),
                status: Status::PermanentFailure(Error::DnsError("NXDOMAIN".to_string())),
                retry: Schedule { due: 1, inner: 1 },
                expires_at: 2,
            },
        ],
        recipients: vec![
            Recipient {
                address: "a@alpha.example".to_string(),
                domain_idx: 0,
                status: RecipientStatus::Completed(rp(250, "ok")),
            },
            Recipient {
                address: "b@beta.example".to_string(),
                domain_idx: 1,
                status: RecipientStatus::TemporaryFailure(rp(451, "later")),
            },
            Recipient {
                address: "c@gamma.example".to_string(),
                domain_idx: 2,
                status: RecipientStatus::Scheduled,
            },
        ],
    };

    let bytes = encode_message(&m);
    let m2 = decode_message(&bytes).expect("a stored message reloads");

    assert_eq!(m2.id, m.id);
    assert_eq!(m2.created_at, m.created_at);
    assert_eq!(m2.size, m.size);
    assert_eq!(m2.flags, m.flags);
    assert_eq!(m2.return_path, m.return_path);
    assert_eq!(m2.domains.len(), 3);
    assert_eq!(m2.recipients.len(), 3);
    for (d2, d) in m2.domains.iter().zip(m.domains.iter()) {
        assert_eq!(d2.domain, d.domain);
        assert_eq!(d2.retry.due, d.retry.due);
        assert_eq!(d2.retry.inner, d.retry.inner);
        assert_eq!(d2.expires_at, d.expires_at);
    }
    match &m2.domains[1].status {
        Status::TemporaryFailure(Error::UnexpectedResponse { message, response }) => {
            assert_eq!(message, "Unexpected MAIL FROM reply from mx1");
            assert_eq!(response.code, 451);
            assert_eq!(response.esc, [5, 1, 2]);
            assert_eq!(response.message, "try again");
        },
        other => panic!("expected the stored failure, got {:?}", other),
    }
    match &m2.recipients[0].status {
        RecipientStatus::Completed(r) => assert_eq!(r.code, 250),
        other => panic!("expected a completed recipient, got {:?}", other),
    }
    assert_eq!(m2.recipients[1].domain_idx, 1);

    // Truncated or padded stores are refused.
    let mut cut = bytes.clone();
    cut.pop();
    assert!(decode_message(&cut).is_none());
    let mut padded = bytes.clone();
    padded.push(0);
    assert!(decode_message(&padded).is_none());
}
