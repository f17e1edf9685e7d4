//! The durable form of a queued message: a byte encoding of its envelope,
//! domains and recipients, and the proof that reloading it preserves every
//! status, retry counter and due time.
//!
//! The semantic content of a message is captured by `MessageModel`, where
//! strings are their character sequences; the round-trip law is stated over
//! that model, since reloading allocates fresh strings.

use vstd::prelude::*;
use vstd::utf8::{decode_utf8, encode_utf8, valid_utf8};

use crate::message::{Domain, Message, Recipient, RecipientStatus, Schedule};
use crate::status::{Error, Reply, Status};

verus! {

/// A reply by value: code, enhanced status triplet, text.
pub struct ReplyModel {
    pub code: u16,
    pub esc0: u8,
    pub esc1: u8,
    pub esc2: u8,
    pub message: Seq<char>,
}

/// An error by value.
pub enum ErrorModel {
    DnsError(Seq<char>),
    ConnectionError(Seq<char>),
    UnexpectedResponse { message: Seq<char>, response: ReplyModel },
    TlsRequiredUnavailable(ReplyModel),
    Expired,
    ConfigError(Seq<char>),
}

/// A domain status by value.
pub enum StatusModel {
    Scheduled,
    InFlight,
    Completed,
    TemporaryFailure(ErrorModel),
    PermanentFailure(ErrorModel),
}

/// A recipient status by value.
pub enum RecipientStatusModel {
    Scheduled,
    Completed(ReplyModel),
    TemporaryFailure(ReplyModel),
    PermanentFailure(ReplyModel),
}

/// A routing domain by value.
pub struct DomainModel {
    pub domain: Seq<char>,
    pub status: StatusModel,
    pub due: u64,
    pub attempt: u32,
    pub expires_at: u64,
}

/// A recipient by value.
pub struct RecipientModel {
    pub address: Seq<char>,
    pub domain_idx: u64,
    pub status: RecipientStatusModel,
}

/// A whole message by value.
pub struct MessageModel {
    pub id: u64,
    pub created_at: u64,
    pub size: u64,
    pub flags: u64,
    pub return_path: Seq<char>,
    pub domains: Seq<DomainModel>,
    pub recipients: Seq<RecipientModel>,
}

pub open spec fn reply_model(r: Reply) -> ReplyModel {
    ReplyModel { code: r.code, esc0: r.esc[0], esc1: r.esc[1], esc2: r.esc[2], message: r.message@ }
}

pub open spec fn error_model(e: Error) -> ErrorModel {
    match e {
        Error::DnsError(s) => ErrorModel::DnsError(s@),
        Error::ConnectionError(s) => ErrorModel::ConnectionError(s@),
        Error::UnexpectedResponse { message, response } => ErrorModel::UnexpectedResponse {
            message: message@,
            response: reply_model(response),
        },
        Error::TlsRequiredUnavailable(r) => ErrorModel::TlsRequiredUnavailable(reply_model(r)),
        Error::Expired => ErrorModel::Expired,
        Error::ConfigError(s) => ErrorModel::ConfigError(s@),
    }
}

pub open spec fn status_model(s: Status) -> StatusModel {
    match s {
        Status::Scheduled => StatusModel::Scheduled,
        Status::InFlight => StatusModel::InFlight,
        Status::Completed => StatusModel::Completed,
        Status::TemporaryFailure(e) => StatusModel::TemporaryFailure(error_model(e)),
        Status::PermanentFailure(e) => StatusModel::PermanentFailure(error_model(e)),
    }
}

pub open spec fn rcpt_status_model(s: RecipientStatus) -> RecipientStatusModel {
    match s {
        RecipientStatus::Scheduled => RecipientStatusModel::Scheduled,
        RecipientStatus::Completed(r) => RecipientStatusModel::Completed(reply_model(r)),
        RecipientStatus::TemporaryFailure(r) => RecipientStatusModel::TemporaryFailure(
            reply_model(r),
        ),
        RecipientStatus::PermanentFailure(r) => RecipientStatusModel::PermanentFailure(
            reply_model(r),
        ),
    }
}

pub open spec fn domain_model(d: Domain) -> DomainModel {
    DomainModel {
        domain: d.domain@,
        status: status_model(d.status),
        due: d.retry.due,
        attempt: d.retry.inner,
        expires_at: d.expires_at,
    }
}

pub open spec fn recipient_model(r: Recipient) -> RecipientModel {
    RecipientModel {
        address: r.address@,
        domain_idx: r.domain_idx as u64,
        status: rcpt_status_model(r.status),
    }
}

/// The semantic content of a message: everything the spool must preserve.
pub open spec fn message_model(m: Message) -> MessageModel {
    MessageModel {
        id: m.id,
        created_at: m.created_at,
        size: m.size,
        flags: m.flags,
        return_path: m.return_path@,
        domains: m.domains@.map_values(|d: Domain| domain_model(d)),
        recipients: m.recipients@.map_values(|r: Recipient| recipient_model(r)),
    }
}

/// A model that fits the encoding's length fields.
pub open spec fn str_fits(s: Seq<char>) -> bool {
    encode_utf8(s).len() <= u64::MAX
}

pub open spec fn reply_fits(r: ReplyModel) -> bool {
    str_fits(r.message)
}

pub open spec fn error_fits(e: ErrorModel) -> bool {
    match e {
        ErrorModel::DnsError(s) => str_fits(s),
        ErrorModel::ConnectionError(s) => str_fits(s),
        ErrorModel::UnexpectedResponse { message, response } => str_fits(message) && reply_fits(
            response,
        ),
        ErrorModel::TlsRequiredUnavailable(r) => reply_fits(r),
        ErrorModel::Expired => true,
        ErrorModel::ConfigError(s) => str_fits(s),
    }
}

pub open spec fn status_fits(s: StatusModel) -> bool {
    match s {
        StatusModel::TemporaryFailure(e) => error_fits(e),
        StatusModel::PermanentFailure(e) => error_fits(e),
        _ => true,
    }
}

pub open spec fn rcpt_status_fits(s: RecipientStatusModel) -> bool {
    match s {
        RecipientStatusModel::Scheduled => true,
        RecipientStatusModel::Completed(r) => reply_fits(r),
        RecipientStatusModel::TemporaryFailure(r) => reply_fits(r),
        RecipientStatusModel::PermanentFailure(r) => reply_fits(r),
    }
}

pub open spec fn domain_fits(d: DomainModel) -> bool {
    str_fits(d.domain) && status_fits(d.status)
}

pub open spec fn recipient_fits(r: RecipientModel) -> bool {
    str_fits(r.address) && rcpt_status_fits(r.status) && r.domain_idx <= usize::MAX
}

pub open spec fn message_fits(m: MessageModel) -> bool {
    &&& str_fits(m.return_path)
    &&& m.domains.len() <= u64::MAX
    &&& m.recipients.len() <= u64::MAX
    &&& forall|i: int| 0 <= i < m.domains.len() ==> domain_fits(#[trigger] m.domains[i])
    &&& forall|i: int| 0 <= i < m.recipients.len() ==> recipient_fits(#[trigger] m.recipients[i])
}

/// A 64-bit value, least significant byte first.
pub open spec fn enc_u64(v: u64) -> Seq<u8> {
    seq![
        v as u8,
        (v >> 8) as u8,
        (v >> 16) as u8,
        (v >> 24) as u8,
        (v >> 32) as u8,
        (v >> 40) as u8,
        (v >> 48) as u8,
        (v >> 56) as u8,
    ]
}

pub open spec fn dec_u64(s: Seq<u8>) -> Option<(u64, Seq<u8>)> {
    if s.len() < 8 {
        None
    } else {
        Some(
            (
                (s[0] as u64) | ((s[1] as u64) << 8) | ((s[2] as u64) << 16) | ((s[3] as u64)
                    << 24) | ((s[4] as u64) << 32) | ((s[5] as u64) << 40) | ((s[6] as u64) << 48)
                    | ((s[7] as u64) << 56),
                s.skip(8),
            ),
        )
    }
}

proof fn lemma_u64(v: u64, rest: Seq<u8>)
    ensures
        dec_u64(enc_u64(v) + rest) == Some((v, rest)),
{
    let s = enc_u64(v) + rest;
    assert(s.len() >= 8);
    assert(s[0] == v as u8 && s[1] == (v >> 8) as u8 && s[2] == (v >> 16) as u8 && s[3] == (v
        >> 24) as u8 && s[4] == (v >> 32) as u8 && s[5] == (v >> 40) as u8 && s[6] == (v >> 48) as u8
        && s[7] == (v >> 56) as u8);
    assert((v as u8) as u64 | (((v >> 8) as u8) as u64) << 8 | (((v >> 16) as u8) as u64) << 16 | ((
    (v >> 24) as u8) as u64) << 24 | (((v >> 32) as u8) as u64) << 32 | (((v >> 40) as u8) as u64)
        << 40 | (((v >> 48) as u8) as u64) << 48 | (((v >> 56) as u8) as u64) << 56 == v)
        by (bit_vector);
    assert(s.skip(8) =~= rest);
}

/// A string: its UTF-8 byte length, then its UTF-8 bytes.
pub open spec fn enc_str(s: Seq<char>) -> Seq<u8> {
    enc_u64(encode_utf8(s).len() as u64) + encode_utf8(s)
}

pub open spec fn dec_str(s: Seq<u8>) -> Option<(Seq<char>, Seq<u8>)> {
    match dec_u64(s) {
        None => None,
        Some(pair) => {
            let n = pair.0;
            let rest = pair.1;
            if rest.len() < n {
                None
            } else if !valid_utf8(rest.take(n as int)) {
                None
            } else {
                Some((decode_utf8(rest.take(n as int)), rest.skip(n as int)))
            }
        },
    }
}

proof fn lemma_str(cs: Seq<char>, rest: Seq<u8>)
    requires
        str_fits(cs),
    ensures
        dec_str(enc_str(cs) + rest) == Some((cs, rest)),
{
    broadcast use vstd::utf8::encode_utf8_valid_utf8;

    let bytes = encode_utf8(cs);
    let n = bytes.len() as u64;
    assert(enc_str(cs) + rest =~= enc_u64(n) + (bytes + rest));
    lemma_u64(n, bytes + rest);
    assert((bytes + rest).take(n as int) =~= bytes);
    assert((bytes + rest).skip(n as int) =~= rest);
    vstd::utf8::encode_utf8_decode_utf8(cs);
}

/// A reply: code, the three enhanced-status bytes, the text.
pub open spec fn enc_reply(r: ReplyModel) -> Seq<u8> {
    enc_u64(r.code as u64) + enc_u64(r.esc0 as u64) + enc_u64(r.esc1 as u64) + enc_u64(
        r.esc2 as u64,
    ) + enc_str(r.message)
}

pub open spec fn dec_reply(s: Seq<u8>) -> Option<(ReplyModel, Seq<u8>)> {
    match dec_u64(s) {
        None => None,
        Some(p0) => if p0.0 > u16::MAX {
            None
        } else {
            match dec_u64(p0.1) {
                None => None,
                Some(p1) => if p1.0 > u8::MAX {
                    None
                } else {
                    match dec_u64(p1.1) {
                        None => None,
                        Some(p2) => if p2.0 > u8::MAX {
                            None
                        } else {
                            match dec_u64(p2.1) {
                                None => None,
                                Some(p3) => if p3.0 > u8::MAX {
                                    None
                                } else {
                                    match dec_str(p3.1) {
                                        None => None,
                                        Some(pm) => Some(
                                            (
                                                ReplyModel {
                                                    code: p0.0 as u16,
                                                    esc0: p1.0 as u8,
                                                    esc1: p2.0 as u8,
                                                    esc2: p3.0 as u8,
                                                    message: pm.0,
                                                },
                                                pm.1,
                                            ),
                                        ),
                                    }
                                },
                            }
                        },
                    }
                },
            }
        },
    }
}

proof fn lemma_reply(r: ReplyModel, rest: Seq<u8>)
    requires
        reply_fits(r),
    ensures
        dec_reply(enc_reply(r) + rest) == Some((r, rest)),
{
    let t3 = enc_str(r.message) + rest;
    let t2 = enc_u64(r.esc2 as u64) + t3;
    let t1 = enc_u64(r.esc1 as u64) + t2;
    let t0 = enc_u64(r.esc0 as u64) + t1;
    assert(enc_reply(r) + rest =~= enc_u64(r.code as u64) + t0);
    lemma_u64(r.code as u64, t0);
    lemma_u64(r.esc0 as u64, t1);
    lemma_u64(r.esc1 as u64, t2);
    lemma_u64(r.esc2 as u64, t3);
    lemma_str(r.message, rest);
}

/// An error: a variant tag, then its payload.
pub open spec fn enc_error(e: ErrorModel) -> Seq<u8> {
    match e {
        ErrorModel::DnsError(s) => enc_u64(0) + enc_str(s),
        ErrorModel::ConnectionError(s) => enc_u64(1) + enc_str(s),
        ErrorModel::UnexpectedResponse { message, response } => enc_u64(2) + enc_str(message)
            + enc_reply(response),
        ErrorModel::TlsRequiredUnavailable(r) => enc_u64(3) + enc_reply(r),
        ErrorModel::Expired => enc_u64(4),
        ErrorModel::ConfigError(s) => enc_u64(5) + enc_str(s),
    }
}

pub open spec fn dec_error(s: Seq<u8>) -> Option<(ErrorModel, Seq<u8>)> {
    match dec_u64(s) {
        None => None,
        Some(pt) => {
            let tag = pt.0;
            let rest = pt.1;
            if tag == 0 {
                match dec_str(rest) {
                    None => None,
                    Some(p) => Some((ErrorModel::DnsError(p.0), p.1)),
                }
            } else if tag == 1 {
                match dec_str(rest) {
                    None => None,
                    Some(p) => Some((ErrorModel::ConnectionError(p.0), p.1)),
                }
            } else if tag == 2 {
                match dec_str(rest) {
                    None => None,
                    Some(p) => match dec_reply(p.1) {
                        None => None,
                        Some(pr) => Some(
                            (
                                ErrorModel::UnexpectedResponse {
                                    message: p.0,
                                    response: pr.0,
                                },
                                pr.1,
                            ),
                        ),
                    },
                }
            } else if tag == 3 {
                match dec_reply(rest) {
                    None => None,
                    Some(p) => Some((ErrorModel::TlsRequiredUnavailable(p.0), p.1)),
                }
            } else if tag == 4 {
                Some((ErrorModel::Expired, rest))
            } else if tag == 5 {
                match dec_str(rest) {
                    None => None,
                    Some(p) => Some((ErrorModel::ConfigError(p.0), p.1)),
                }
            } else {
                None
            }
        },
    }
}

#[verifier::rlimit(100)]
proof fn lemma_error_unexpected(message: Seq<char>, response: ReplyModel, rest: Seq<u8>)
    requires
        str_fits(message),
        reply_fits(response),
    ensures
        dec_error(enc_error(ErrorModel::UnexpectedResponse { message, response }) + rest)
            == Some((ErrorModel::UnexpectedResponse { message, response }, rest)),
{
    let e = ErrorModel::UnexpectedResponse { message, response };
    let t1 = enc_reply(response) + rest;
    let t0 = enc_str(message) + t1;
    assert(enc_error(e) + rest =~= enc_u64(2) + t0);
    lemma_u64(2, t0);
    lemma_str(message, t1);
    lemma_reply(response, rest);
}

#[verifier::rlimit(100)]
proof fn lemma_error(e: ErrorModel, rest: Seq<u8>)
    requires
        error_fits(e),
    ensures
        dec_error(enc_error(e) + rest) == Some((e, rest)),
{
    match e {
        ErrorModel::DnsError(s) => {
            assert(enc_error(e) + rest =~= enc_u64(0) + (enc_str(s) + rest));
            lemma_u64(0, enc_str(s) + rest);
            lemma_str(s, rest);
        },
        ErrorModel::ConnectionError(s) => {
            assert(enc_error(e) + rest =~= enc_u64(1) + (enc_str(s) + rest));
            lemma_u64(1, enc_str(s) + rest);
            lemma_str(s, rest);
        },
        ErrorModel::UnexpectedResponse { message, response } => {
            lemma_error_unexpected(message, response, rest);
        },
        ErrorModel::TlsRequiredUnavailable(r) => {
            assert(enc_error(e) + rest =~= enc_u64(3) + (enc_reply(r) + rest));
            lemma_u64(3, enc_reply(r) + rest);
            lemma_reply(r, rest);
        },
        ErrorModel::Expired => {
            assert(enc_error(e) + rest =~= enc_u64(4) + rest);
            lemma_u64(4, rest);
        },
        ErrorModel::ConfigError(s) => {
            assert(enc_error(e) + rest =~= enc_u64(5) + (enc_str(s) + rest));
            lemma_u64(5, enc_str(s) + rest);
            lemma_str(s, rest);
        },
    }
}

/// A domain status: a variant tag, then the error where one is carried.
pub open spec fn enc_status(st: StatusModel) -> Seq<u8> {
    match st {
        StatusModel::Scheduled => enc_u64(0),
        StatusModel::InFlight => enc_u64(1),
        StatusModel::Completed => enc_u64(2),
        StatusModel::TemporaryFailure(e) => enc_u64(3) + enc_error(e),
        StatusModel::PermanentFailure(e) => enc_u64(4) + enc_error(e),
    }
}

pub open spec fn dec_status(s: Seq<u8>) -> Option<(StatusModel, Seq<u8>)> {
    match dec_u64(s) {
        None => None,
        Some(pt) => {
            let tag = pt.0;
            let rest = pt.1;
            if tag == 0 {
                Some((StatusModel::Scheduled, rest))
            } else if tag == 1 {
                Some((StatusModel::InFlight, rest))
            } else if tag == 2 {
                Some((StatusModel::Completed, rest))
            } else if tag == 3 {
                match dec_error(rest) {
                    None => None,
                    Some(p) => Some((StatusModel::TemporaryFailure(p.0), p.1)),
                }
            } else if tag == 4 {
                match dec_error(rest) {
                    None => None,
                    Some(p) => Some((StatusModel::PermanentFailure(p.0), p.1)),
                }
            } else {
                None
            }
        },
    }
}

#[verifier::rlimit(100)]
proof fn lemma_status(st: StatusModel, rest: Seq<u8>)
    requires
        status_fits(st),
    ensures
        dec_status(enc_status(st) + rest) == Some((st, rest)),
{
    match st {
        StatusModel::Scheduled => {
            assert(enc_status(st) + rest =~= enc_u64(0) + rest);
            lemma_u64(0, rest);
        },
        StatusModel::InFlight => {
            assert(enc_status(st) + rest =~= enc_u64(1) + rest);
            lemma_u64(1, rest);
        },
        StatusModel::Completed => {
            assert(enc_status(st) + rest =~= enc_u64(2) + rest);
            lemma_u64(2, rest);
        },
        StatusModel::TemporaryFailure(e) => {
            assert(enc_status(st) + rest =~= enc_u64(3) + (enc_error(e) + rest));
            lemma_u64(3, enc_error(e) + rest);
            lemma_error(e, rest);
        },
        StatusModel::PermanentFailure(e) => {
            assert(enc_status(st) + rest =~= enc_u64(4) + (enc_error(e) + rest));
            lemma_u64(4, enc_error(e) + rest);
            lemma_error(e, rest);
        },
    }
}

/// A recipient status: a variant tag, then the reply where one is carried.
pub open spec fn enc_rcpt_status(st: RecipientStatusModel) -> Seq<u8> {
    match st {
        RecipientStatusModel::Scheduled => enc_u64(0),
        RecipientStatusModel::Completed(r) => enc_u64(1) + enc_reply(r),
        RecipientStatusModel::TemporaryFailure(r) => enc_u64(2) + enc_reply(r),
        RecipientStatusModel::PermanentFailure(r) => enc_u64(3) + enc_reply(r),
    }
}

pub open spec fn dec_rcpt_status(s: Seq<u8>) -> Option<(RecipientStatusModel, Seq<u8>)> {
    match dec_u64(s) {
        None => None,
        Some(pt) => {
            let tag = pt.0;
            let rest = pt.1;
            if tag == 0 {
                Some((RecipientStatusModel::Scheduled, rest))
            } else if tag == 1 {
                match dec_reply(rest) {
                    None => None,
                    Some(p) => Some((RecipientStatusModel::Completed(p.0), p.1)),
                }
            } else if tag == 2 {
                match dec_reply(rest) {
                    None => None,
                    Some(p) => Some((RecipientStatusModel::TemporaryFailure(p.0), p.1)),
                }
            } else if tag == 3 {
                match dec_reply(rest) {
                    None => None,
                    Some(p) => Some((RecipientStatusModel::PermanentFailure(p.0), p.1)),
                }
            } else {
                None
            }
        },
    }
}

#[verifier::rlimit(100)]
proof fn lemma_rcpt_status(st: RecipientStatusModel, rest: Seq<u8>)
    requires
        rcpt_status_fits(st),
    ensures
        dec_rcpt_status(enc_rcpt_status(st) + rest) == Some((st, rest)),
{
    match st {
        RecipientStatusModel::Scheduled => {
            assert(enc_rcpt_status(st) + rest =~= enc_u64(0) + rest);
            lemma_u64(0, rest);
        },
        RecipientStatusModel::Completed(r) => {
            assert(enc_rcpt_status(st) + rest =~= enc_u64(1) + (enc_reply(r) + rest));
            lemma_u64(1, enc_reply(r) + rest);
            lemma_reply(r, rest);
        },
        RecipientStatusModel::TemporaryFailure(r) => {
            assert(enc_rcpt_status(st) + rest =~= enc_u64(2) + (enc_reply(r) + rest));
            lemma_u64(2, enc_reply(r) + rest);
            lemma_reply(r, rest);
        },
        RecipientStatusModel::PermanentFailure(r) => {
            assert(enc_rcpt_status(st) + rest =~= enc_u64(3) + (enc_reply(r) + rest));
            lemma_u64(3, enc_reply(r) + rest);
            lemma_reply(r, rest);
        },
    }
}

/// A domain: its name, status, due time, attempt count and expiry.
pub open spec fn enc_domain(d: DomainModel) -> Seq<u8> {
    enc_str(d.domain) + enc_status(d.status) + enc_u64(d.due) + enc_u64(d.attempt as u64)
        + enc_u64(d.expires_at)
}

pub open spec fn dec_domain(s: Seq<u8>) -> Option<(DomainModel, Seq<u8>)> {
    match dec_str(s) {
        None => None,
        Some(pn) => match dec_status(pn.1) {
            None => None,
            Some(ps) => match dec_u64(ps.1) {
                None => None,
                Some(pd) => match dec_u64(pd.1) {
                    None => None,
                    Some(pa) => if pa.0 > u32::MAX {
                        None
                    } else {
                        match dec_u64(pa.1) {
                            None => None,
                            Some(pe) => Some(
                                (
                                    DomainModel {
                                        domain: pn.0,
                                        status: ps.0,
                                        due: pd.0,
                                        attempt: pa.0 as u32,
                                        expires_at: pe.0,
                                    },
                                    pe.1,
                                ),
                            ),
                        }
                    },
                },
            },
        },
    }
}

#[verifier::rlimit(100)]
proof fn lemma_domain(d: DomainModel, rest: Seq<u8>)
    requires
        domain_fits(d),
    ensures
        dec_domain(enc_domain(d) + rest) == Some((d, rest)),
{
    let t3 = enc_u64(d.expires_at) + rest;
    let t2 = enc_u64(d.attempt as u64) + t3;
    let t1 = enc_u64(d.due) + t2;
    let t0 = enc_status(d.status) + t1;
    assert(enc_domain(d) + rest =~= enc_str(d.domain) + t0);
    lemma_str(d.domain, t0);
    lemma_status(d.status, t1);
    lemma_u64(d.due, t2);
    lemma_u64(d.attempt as u64, t3);
    lemma_u64(d.expires_at, rest);
}

/// A recipient: its address, its domain index and its status.
pub open spec fn enc_recipient(r: RecipientModel) -> Seq<u8> {
    enc_str(r.address) + enc_u64(r.domain_idx) + enc_rcpt_status(r.status)
}

pub open spec fn dec_recipient(s: Seq<u8>) -> Option<(RecipientModel, Seq<u8>)> {
    match dec_str(s) {
        None => None,
        Some(pa) => match dec_u64(pa.1) {
            None => None,
            Some(pi) => if pi.0 > usize::MAX {
                None
            } else {
                match dec_rcpt_status(pi.1) {
                    None => None,
                    Some(ps) => Some(
                        (
                            RecipientModel { address: pa.0, domain_idx: pi.0, status: ps.0 },
                            ps.1,
                        ),
                    ),
                }
            },
        },
    }
}

#[verifier::rlimit(100)]
proof fn lemma_recipient(r: RecipientModel, rest: Seq<u8>)
    requires
        recipient_fits(r),
    ensures
        dec_recipient(enc_recipient(r) + rest) == Some((r, rest)),
{
    let t1 = enc_rcpt_status(r.status) + rest;
    let t0 = enc_u64(r.domain_idx) + t1;
    assert(enc_recipient(r) + rest =~= enc_str(r.address) + t0);
    lemma_str(r.address, t0);
    lemma_u64(r.domain_idx, t1);
    lemma_rcpt_status(r.status, rest);
}

/// The domains of a message, one after the other.
pub open spec fn enc_domain_items(ds: Seq<DomainModel>) -> Seq<u8>
    decreases ds.len(),
{
    if ds.len() == 0 {
        Seq::empty()
    } else {
        enc_domain(ds[0]) + enc_domain_items(ds.drop_first())
    }
}

pub open spec fn dec_domain_items(s: Seq<u8>, n: nat) -> Option<(Seq<DomainModel>, Seq<u8>)>
    decreases n,
{
    if n == 0 {
        Some((Seq::empty(), s))
    } else {
        match dec_domain(s) {
            None => None,
            Some(p) => match dec_domain_items(p.1, (n - 1) as nat) {
                None => None,
                Some(pl) => Some((seq![p.0] + pl.0, pl.1)),
            },
        }
    }
}

#[verifier::rlimit(100)]
proof fn lemma_domain_items(ds: Seq<DomainModel>, rest: Seq<u8>)
    requires
        forall|i: int| 0 <= i < ds.len() ==> domain_fits(#[trigger] ds[i]),
    ensures
        dec_domain_items(enc_domain_items(ds) + rest, ds.len()) == Some((ds, rest)),
    decreases ds.len(),
{
    if ds.len() == 0 {
        assert(enc_domain_items(ds) + rest =~= rest);
        assert(dec_domain_items(rest, 0) == Some((Seq::<DomainModel>::empty(), rest)));
        assert(ds =~= Seq::<DomainModel>::empty());
    } else {
        let tail = ds.drop_first();
        assert(enc_domain_items(ds) + rest =~= enc_domain(ds[0]) + (enc_domain_items(tail)
            + rest));
        lemma_domain(ds[0], enc_domain_items(tail) + rest);
        lemma_domain_items(tail, rest);
        assert(seq![ds[0]] + tail =~= ds);
    }
}

/// The recipients of a message, one after the other.
pub open spec fn enc_recipient_items(rs: Seq<RecipientModel>) -> Seq<u8>
    decreases rs.len(),
{
    if rs.len() == 0 {
        Seq::empty()
    } else {
        enc_recipient(rs[0]) + enc_recipient_items(rs.drop_first())
    }
}

pub open spec fn dec_recipient_items(s: Seq<u8>, n: nat) -> Option<
    (Seq<RecipientModel>, Seq<u8>),
>
    decreases n,
{
    if n == 0 {
        Some((Seq::empty(), s))
    } else {
        match dec_recipient(s) {
            None => None,
            Some(p) => match dec_recipient_items(p.1, (n - 1) as nat) {
                None => None,
                Some(pl) => Some((seq![p.0] + pl.0, pl.1)),
            },
        }
    }
}

#[verifier::rlimit(100)]
proof fn lemma_recipient_items(rs: Seq<RecipientModel>, rest: Seq<u8>)
    requires
        forall|i: int| 0 <= i < rs.len() ==> recipient_fits(#[trigger] rs[i]),
    ensures
        dec_recipient_items(enc_recipient_items(rs) + rest, rs.len()) == Some((rs, rest)),
    decreases rs.len(),
{
    if rs.len() == 0 {
        assert(enc_recipient_items(rs) + rest =~= rest);
        assert(rs =~= Seq::<RecipientModel>::empty());
    } else {
        let tail = rs.drop_first();
        assert(enc_recipient_items(rs) + rest =~= enc_recipient(rs[0]) + (enc_recipient_items(
            tail,
        ) + rest));
        lemma_recipient(rs[0], enc_recipient_items(tail) + rest);
        lemma_recipient_items(tail, rest);
        assert(seq![rs[0]] + tail =~= rs);
    }
}

/// A whole message: the envelope numbers, the return path, the domain list
/// and the recipient list, each list preceded by its length.
pub open spec fn enc_message(m: MessageModel) -> Seq<u8> {
    enc_u64(m.id) + enc_u64(m.created_at) + enc_u64(m.size) + enc_u64(m.flags) + enc_str(
        m.return_path,
    ) + enc_u64(m.domains.len() as u64) + enc_domain_items(m.domains) + enc_u64(
        m.recipients.len() as u64,
    ) + enc_recipient_items(m.recipients)
}

pub open spec fn dec_message(s: Seq<u8>) -> Option<(MessageModel, Seq<u8>)> {
    match dec_u64(s) {
        None => None,
        Some(p_id) => match dec_u64(p_id.1) {
            None => None,
            Some(p_created) => match dec_u64(p_created.1) {
                None => None,
                Some(p_size) => match dec_u64(p_size.1) {
                    None => None,
                    Some(p_flags) => match dec_str(p_flags.1) {
                        None => None,
                        Some(p_path) => match dec_u64(p_path.1) {
                            None => None,
                            Some(p_dn) => match dec_domain_items(p_dn.1, p_dn.0 as nat) {
                                None => None,
                                Some(p_doms) => match dec_u64(p_doms.1) {
                                    None => None,
                                    Some(p_rn) => match dec_recipient_items(
                                        p_rn.1,
                                        p_rn.0 as nat,
                                    ) {
                                        None => None,
                                        Some(p_rcpts) => Some(
                                            (
                                                MessageModel {
                                                    id: p_id.0,
                                                    created_at: p_created.0,
                                                    size: p_size.0,
                                                    flags: p_flags.0,
                                                    return_path: p_path.0,
                                                    domains: p_doms.0,
                                                    recipients: p_rcpts.0,
                                                },
                                                p_rcpts.1,
                                            ),
                                        ),
                                    },
                                },
                            },
                        },
                    },
                },
            },
        },
    }
}

fn emit_u64(out: &mut Vec<u8>, v: u64)
    ensures
        final(out)@ == old(out)@ + enc_u64(v),
{
    out.push(v as u8);
    out.push((v >> 8) as u8);
    out.push((v >> 16) as u8);
    out.push((v >> 24) as u8);
    out.push((v >> 32) as u8);
    out.push((v >> 40) as u8);
    out.push((v >> 48) as u8);
    out.push((v >> 56) as u8);
    proof {
        assert(out@ =~= old(out)@ + enc_u64(v));
    }
}

fn emit_str(out: &mut Vec<u8>, s: &str)
    ensures
        final(out)@ == old(out)@ + enc_str(s@),
        str_fits(s@),
{
    let bytes = s.as_bytes();
    let n = bytes.len();
    emit_u64(out, n as u64);
    let mut i: usize = 0;
    while i < n
        invariant
            i <= n,
            n == bytes@.len(),
            bytes@ == encode_utf8(s@),
            out@ == old(out)@ + enc_u64(n as u64) + bytes@.take(i as int),
        decreases n - i,
    {
        out.push(bytes[i]);
        proof {
            assert(out@ =~= old(out)@ + enc_u64(n as u64) + bytes@.take(i + 1 as int));
        }
        i = i + 1;
    }
    proof {
        assert(bytes@.take(n as int) =~= bytes@);
        assert(out@ =~= old(out)@ + enc_str(s@));
    }
}

fn emit_reply(out: &mut Vec<u8>, r: &Reply)
    ensures
        final(out)@ == old(out)@ + enc_reply(reply_model(*r)),
        reply_fits(reply_model(*r)),
{
    emit_u64(out, r.code as u64);
    emit_u64(out, r.esc[0] as u64);
    emit_u64(out, r.esc[1] as u64);
    emit_u64(out, r.esc[2] as u64);
    emit_str(out, r.message.as_str());
    proof {
        assert(out@ =~= old(out)@ + enc_reply(reply_model(*r)));
    }
}

fn emit_error(out: &mut Vec<u8>, e: &Error)
    ensures
        final(out)@ == old(out)@ + enc_error(error_model(*e)),
        error_fits(error_model(*e)),
{
    match e {
        Error::DnsError(s) => {
            emit_u64(out, 0);
            emit_str(out, s.as_str());
        },
        Error::ConnectionError(s) => {
            emit_u64(out, 1);
            emit_str(out, s.as_str());
        },
        Error::UnexpectedResponse { message, response } => {
            emit_u64(out, 2);
            emit_str(out, message.as_str());
            emit_reply(out, response);
        },
        Error::TlsRequiredUnavailable(r) => {
            emit_u64(out, 3);
            emit_reply(out, r);
        },
        Error::Expired => {
            emit_u64(out, 4);
        },
        Error::ConfigError(s) => {
            emit_u64(out, 5);
            emit_str(out, s.as_str());
        },
    }
    proof {
        assert(out@ =~= old(out)@ + enc_error(error_model(*e)));
    }
}

fn emit_status(out: &mut Vec<u8>, st: &Status)
    ensures
        final(out)@ == old(out)@ + enc_status(status_model(*st)),
        status_fits(status_model(*st)),
{
    match st {
        Status::Scheduled => emit_u64(out, 0),
        Status::InFlight => emit_u64(out, 1),
        Status::Completed => emit_u64(out, 2),
        Status::TemporaryFailure(e) => {
            emit_u64(out, 3);
            emit_error(out, e);
        },
        Status::PermanentFailure(e) => {
            emit_u64(out, 4);
            emit_error(out, e);
        },
    }
    proof {
        assert(out@ =~= old(out)@ + enc_status(status_model(*st)));
    }
}

fn emit_rcpt_status(out: &mut Vec<u8>, st: &RecipientStatus)
    ensures
        final(out)@ == old(out)@ + enc_rcpt_status(rcpt_status_model(*st)),
        rcpt_status_fits(rcpt_status_model(*st)),
{
    match st {
        RecipientStatus::Scheduled => emit_u64(out, 0),
        RecipientStatus::Completed(r) => {
            emit_u64(out, 1);
            emit_reply(out, r);
        },
        RecipientStatus::TemporaryFailure(r) => {
            emit_u64(out, 2);
            emit_reply(out, r);
        },
        RecipientStatus::PermanentFailure(r) => {
            emit_u64(out, 3);
            emit_reply(out, r);
        },
    }
    proof {
        assert(out@ =~= old(out)@ + enc_rcpt_status(rcpt_status_model(*st)));
    }
}

fn emit_domain(out: &mut Vec<u8>, d: &Domain)
    ensures
        final(out)@ == old(out)@ + enc_domain(domain_model(*d)),
        domain_fits(domain_model(*d)),
{
    emit_str(out, d.domain.as_str());
    emit_status(out, &d.status);
    emit_u64(out, d.retry.due);
    emit_u64(out, d.retry.inner as u64);
    emit_u64(out, d.expires_at);
    proof {
        assert(out@ =~= old(out)@ + enc_domain(domain_model(*d)));
    }
}

fn emit_recipient(out: &mut Vec<u8>, r: &Recipient)
    ensures
        final(out)@ == old(out)@ + enc_recipient(recipient_model(*r)),
        recipient_fits(recipient_model(*r)),
{
    emit_str(out, r.address.as_str());
    emit_u64(out, r.domain_idx as u64);
    emit_rcpt_status(out, &r.status);
    proof {
        assert(out@ =~= old(out)@ + enc_recipient(recipient_model(*r)));
    }
}

proof fn lemma_enc_domain_items_push(ds: Seq<DomainModel>, d: DomainModel)
    ensures
        enc_domain_items(ds.push(d)) == enc_domain_items(ds) + enc_domain(d),
    decreases ds.len(),
{
    if ds.len() == 0 {
        assert(ds.push(d)[0] == d);
        assert(ds.push(d).drop_first() =~= Seq::<DomainModel>::empty());
        assert(enc_domain_items(Seq::<DomainModel>::empty()) =~= Seq::<u8>::empty());
        assert(enc_domain_items(ds.push(d)) =~= enc_domain_items(ds) + enc_domain(d));
    } else {
        assert(ds.push(d)[0] == ds[0]);
        assert(ds.push(d).drop_first() =~= ds.drop_first().push(d));
        lemma_enc_domain_items_push(ds.drop_first(), d);
        assert(enc_domain_items(ds.push(d)) =~= enc_domain_items(ds) + enc_domain(d));
    }
}

proof fn lemma_enc_recipient_items_push(rs: Seq<RecipientModel>, r: RecipientModel)
    ensures
        enc_recipient_items(rs.push(r)) == enc_recipient_items(rs) + enc_recipient(r),
    decreases rs.len(),
{
    if rs.len() == 0 {
        assert(rs.push(r)[0] == r);
        assert(rs.push(r).drop_first() =~= Seq::<RecipientModel>::empty());
        assert(enc_recipient_items(Seq::<RecipientModel>::empty()) =~= Seq::<u8>::empty());
        assert(enc_recipient_items(rs.push(r)) =~= enc_recipient_items(rs) + enc_recipient(r));
    } else {
        assert(rs.push(r)[0] == rs[0]);
        assert(rs.push(r).drop_first() =~= rs.drop_first().push(r));
        lemma_enc_recipient_items_push(rs.drop_first(), r);
        assert(enc_recipient_items(rs.push(r)) =~= enc_recipient_items(rs) + enc_recipient(r));
    }
}

/// Writes the durable form of a message. The result always satisfies the
/// bounds the round-trip law asks for.
pub fn encode_message(m: &Message) -> (out: Vec<u8>)
    ensures
        out@ == enc_message(message_model(*m)),
        message_fits(message_model(*m)),
{
    let mut out: Vec<u8> = Vec::new();
    emit_u64(&mut out, m.id);
    emit_u64(&mut out, m.created_at);
    emit_u64(&mut out, m.size);
    emit_u64(&mut out, m.flags);
    emit_str(&mut out, m.return_path.as_str());
    emit_u64(&mut out, m.domains.len() as u64);
    let ghost header = out@;
    let mut i: usize = 0;
    while i < m.domains.len()
        invariant
            i <= m.domains@.len(),
            out@ == header + enc_domain_items(
                m.domains@.take(i as int).map_values(|d: Domain| domain_model(d)),
            ),
            forall|k: int|
                0 <= k < i ==> domain_fits(domain_model(#[trigger] m.domains@[k])),
        decreases m.domains@.len() - i,
    {
        emit_domain(&mut out, &m.domains[i]);
        proof {
            lemma_enc_domain_items_push(
                m.domains@.take(i as int).map_values(|d: Domain| domain_model(d)),
                domain_model(m.domains@[i as int]),
            );
            assert(m.domains@.take(i + 1 as int).map_values(|d: Domain| domain_model(d))
                =~= m.domains@.take(i as int).map_values(|d: Domain| domain_model(d)).push(
                domain_model(m.domains@[i as int]),
            ));
        }
        i = i + 1;
    }
    proof {
        assert(m.domains@.take(m.domains@.len() as int) =~= m.domains@);
    }
    emit_u64(&mut out, m.recipients.len() as u64);
    let ghost header2 = out@;
    let mut j: usize = 0;
    while j < m.recipients.len()
        invariant
            j <= m.recipients@.len(),
            out@ == header2 + enc_recipient_items(
                m.recipients@.take(j as int).map_values(|r: Recipient| recipient_model(r)),
            ),
            forall|k: int|
                0 <= k < j ==> recipient_fits(recipient_model(#[trigger] m.recipients@[k])),
        decreases m.recipients@.len() - j,
    {
        emit_recipient(&mut out, &m.recipients[j]);
        proof {
            lemma_enc_recipient_items_push(
                m.recipients@.take(j as int).map_values(|r: Recipient| recipient_model(r)),
                recipient_model(m.recipients@[j as int]),
            );
            assert(m.recipients@.take(j + 1 as int).map_values(
                |r: Recipient| recipient_model(r),
            ) =~= m.recipients@.take(j as int).map_values(
                |r: Recipient| recipient_model(r),
            ).push(recipient_model(m.recipients@[j as int])));
        }
        j = j + 1;
    }
    proof {
        assert(m.recipients@.take(m.recipients@.len() as int) =~= m.recipients@);
        assert(out@ =~= enc_message(message_model(*m)));
    }
    out
}

/// Reloading a stored message restores its exact semantic value: every
/// envelope number, every domain with its status, retry counter and due
/// time, and every recipient with its status, whatever bytes follow the
/// stored form.
#[verifier::rlimit(100)]
proof fn lemma_message_tail(m: MessageModel, rest: Seq<u8>)
    requires
        message_fits(m),
    ensures
        ({
            let t7 = enc_recipient_items(m.recipients) + rest;
            let t6 = enc_u64(m.recipients.len() as u64) + t7;
            let t5 = enc_domain_items(m.domains) + t6;
            let t4 = enc_u64(m.domains.len() as u64) + t5;
            let t3 = enc_str(m.return_path) + t4;
            &&& dec_str(t3) == Some((m.return_path, t4))
            &&& dec_u64(t4) == Some((m.domains.len() as u64, t5))
            &&& dec_domain_items(t5, m.domains.len()) == Some((m.domains, t6))
            &&& dec_u64(t6) == Some((m.recipients.len() as u64, t7))
            &&& dec_recipient_items(t7, m.recipients.len()) == Some((m.recipients, rest))
        }),
{
    let t7 = enc_recipient_items(m.recipients) + rest;
    let t6 = enc_u64(m.recipients.len() as u64) + t7;
    let t5 = enc_domain_items(m.domains) + t6;
    let t4 = enc_u64(m.domains.len() as u64) + t5;
    lemma_str(m.return_path, t4);
    lemma_u64(m.domains.len() as u64, t5);
    lemma_domain_items(m.domains, t6);
    lemma_u64(m.recipients.len() as u64, t7);
    lemma_recipient_items(m.recipients, rest);
}

/// Reloading a stored message restores its exact semantic value: every
/// envelope number, every domain with its status, retry counter and due
/// time, and every recipient with its status, whatever bytes follow the
/// stored form.
#[verifier::rlimit(100)]
pub proof fn lemma_message_round_trip(m: MessageModel, rest: Seq<u8>)
    requires
        message_fits(m),
    ensures
        dec_message(enc_message(m) + rest) == Some((m, rest)),
{
    let t7 = enc_recipient_items(m.recipients) + rest;
    let t6 = enc_u64(m.recipients.len() as u64) + t7;
    let t5 = enc_domain_items(m.domains) + t6;
    let t4 = enc_u64(m.domains.len() as u64) + t5;
    let t3 = enc_str(m.return_path) + t4;
    let t2 = enc_u64(m.flags) + t3;
    let t1 = enc_u64(m.size) + t2;
    let t0 = enc_u64(m.created_at) + t1;
    assert(enc_message(m) + rest =~= enc_u64(m.id) + t0);
    lemma_u64(m.id, t0);
    assert(dec_u64(enc_message(m) + rest) == Some((m.id, t0)));
    lemma_u64(m.created_at, t1);
    lemma_u64(m.size, t2);
    lemma_u64(m.flags, t3);
    lemma_message_tail(m, rest);
}

/// Relies on String::from_utf8: bytes are accepted exactly when they are
/// valid UTF-8, and then decode to the character sequence they encode.
#[verifier::external_body]
fn string_from_bytes(b: Vec<u8>) -> (r: Option<String>)
    ensures
        r is Some <==> valid_utf8(b@),
        r matches Some(s) ==> s@ == decode_utf8(b@),
{
    String::from_utf8(b).ok()
}

fn take_u64(bytes: &Vec<u8>, pos: usize) -> (r: Option<(u64, usize)>)
    requires
        pos <= bytes@.len(),
    ensures
        match r {
            Some(p) => pos <= p.1 <= bytes@.len() && dec_u64(bytes@.skip(pos as int)) == Some(
                (p.0, bytes@.skip(p.1 as int)),
            ),
            None => dec_u64(bytes@.skip(pos as int)) is None,
        },
{
    if bytes.len() - pos < 8 {
        return None;
    }
    let v = (bytes[pos] as u64) | ((bytes[pos + 1] as u64) << 8) | ((bytes[pos + 2] as u64) << 16)
        | ((bytes[pos + 3] as u64) << 24) | ((bytes[pos + 4] as u64) << 32) | ((bytes[pos
        + 5] as u64) << 40) | ((bytes[pos + 6] as u64) << 48) | ((bytes[pos + 7] as u64) << 56);
    proof {
        let s = bytes@.skip(pos as int);
        assert(s[0] == bytes@[pos as int] && s[1] == bytes@[pos + 1] && s[2] == bytes@[pos + 2]
            && s[3] == bytes@[pos + 3] && s[4] == bytes@[pos + 4] && s[5] == bytes@[pos + 5] && s[6]
            == bytes@[pos + 6] && s[7] == bytes@[pos + 7]);
        assert(s.skip(8) =~= bytes@.skip(pos + 8));
    }
    Some((v, pos + 8))
}

fn take_str(bytes: &Vec<u8>, pos: usize) -> (r: Option<(String, usize)>)
    requires
        pos <= bytes@.len(),
    ensures
        match r {
            Some(p) => pos <= p.1 <= bytes@.len() && (dec_str(bytes@.skip(pos as int)) matches
                Some(q) && q.0 == p.0@ && q.1 == bytes@.skip(p.1 as int)),
            None => dec_str(bytes@.skip(pos as int)) is None,
        },
{
    let (n, p1) = match take_u64(bytes, pos) {
        Some(p) => p,
        None => {
            return None;
        },
    };
    if n > (bytes.len() - p1) as u64 {
        return None;
    }
    let n_us = n as usize;
    let total = bytes.len();
    let mut sub: Vec<u8> = Vec::new();
    let mut i: usize = 0;
    while i < n_us
        invariant
            i <= n_us,
            p1 + n_us <= total,
            total == bytes@.len(),
            sub@ =~= bytes@.subrange(p1 as int, p1 + i),
        decreases n_us - i,
    {
        sub.push(bytes[p1 + i]);
        proof {
            assert(sub@ =~= bytes@.subrange(p1 as int, p1 + i + 1));
        }
        i = i + 1;
    }
    proof {
        assert(sub@ =~= bytes@.skip(p1 as int).take(n as int));
    }
    match string_from_bytes(sub) {
        Some(s) => {
            proof {
                assert(bytes@.skip(p1 as int).skip(n as int) =~= bytes@.skip(p1 + n_us));
            }
            Some((s, p1 + n_us))
        },
        None => None,
    }
}

#[verifier::rlimit(100)]
fn take_reply(bytes: &Vec<u8>, pos: usize) -> (r: Option<(Reply, usize)>)
    requires
        pos <= bytes@.len(),
    ensures
        match r {
            Some(p) => pos <= p.1 <= bytes@.len() && (dec_reply(bytes@.skip(pos as int)) matches
                Some(q) && q.0 == reply_model(p.0) && q.1 == bytes@.skip(p.1 as int)),
            None => dec_reply(bytes@.skip(pos as int)) is None,
        },
{
    let (code, p0) = match take_u64(bytes, pos) {
        Some(p) => p,
        None => {
            return None;
        },
    };
    if code > u16::MAX as u64 {
        return None;
    }
    let (e0, p1) = match take_u64(bytes, p0) {
        Some(p) => p,
        None => {
            return None;
        },
    };
    if e0 > u8::MAX as u64 {
        return None;
    }
    let (e1, p2) = match take_u64(bytes, p1) {
        Some(p) => p,
        None => {
            return None;
        },
    };
    if e1 > u8::MAX as u64 {
        return None;
    }
    let (e2, p3) = match take_u64(bytes, p2) {
        Some(p) => p,
        None => {
            return None;
        },
    };
    if e2 > u8::MAX as u64 {
        return None;
    }
    let (message, p4) = match take_str(bytes, p3) {
        Some(p) => p,
        None => {
            return None;
        },
    };
    Some(
        (
            Reply {
                code: code as u16,
                esc: [e0 as u8, e1 as u8, e2 as u8],
                message,
            },
            p4,
        ),
    )
}

#[verifier::rlimit(100)]
fn take_error(bytes: &Vec<u8>, pos: usize) -> (r: Option<(Error, usize)>)
    requires
        pos <= bytes@.len(),
    ensures
        match r {
            Some(p) => pos <= p.1 <= bytes@.len() && (dec_error(bytes@.skip(pos as int)) matches
                Some(q) && q.0 == error_model(p.0) && q.1 == bytes@.skip(p.1 as int)),
            None => dec_error(bytes@.skip(pos as int)) is None,
        },
{
    let (tag, p0) = match take_u64(bytes, pos) {
        Some(p) => p,
        None => {
            return None;
        },
    };
    if tag == 0 {
        match take_str(bytes, p0) {
            Some(p) => Some((Error::DnsError(p.0), p.1)),
            None => None,
        }
    } else if tag == 1 {
        match take_str(bytes, p0) {
            Some(p) => Some((Error::ConnectionError(p.0), p.1)),
            None => None,
        }
    } else if tag == 2 {
        let (message, p1) = match take_str(bytes, p0) {
            Some(p) => p,
            None => {
                return None;
            },
        };
        match take_reply(bytes, p1) {
            Some(p) => Some((Error::UnexpectedResponse { message, response: p.0 }, p.1)),
            None => None,
        }
    } else if tag == 3 {
        match take_reply(bytes, p0) {
            Some(p) => Some((Error::TlsRequiredUnavailable(p.0), p.1)),
            None => None,
        }
    } else if tag == 4 {
        Some((Error::Expired, p0))
    } else if tag == 5 {
        match take_str(bytes, p0) {
            Some(p) => Some((Error::ConfigError(p.0), p.1)),
            None => None,
        }
    } else {
        None
    }
}

#[verifier::rlimit(100)]
fn take_status(bytes: &Vec<u8>, pos: usize) -> (r: Option<(Status, usize)>)
    requires
        pos <= bytes@.len(),
    ensures
        match r {
            Some(p) => pos <= p.1 <= bytes@.len() && (dec_status(bytes@.skip(pos as int)) matches
                Some(q) && q.0 == status_model(p.0) && q.1 == bytes@.skip(p.1 as int)),
            None => dec_status(bytes@.skip(pos as int)) is None,
        },
{
    let (tag, p0) = match take_u64(bytes, pos) {
        Some(p) => p,
        None => {
            return None;
        },
    };
    if tag == 0 {
        Some((Status::Scheduled, p0))
    } else if tag == 1 {
        Some((Status::InFlight, p0))
    } else if tag == 2 {
        Some((Status::Completed, p0))
    } else if tag == 3 {
        match take_error(bytes, p0) {
            Some(p) => Some((Status::TemporaryFailure(p.0), p.1)),
            None => None,
        }
    } else if tag == 4 {
        match take_error(bytes, p0) {
            Some(p) => Some((Status::PermanentFailure(p.0), p.1)),
            None => None,
        }
    } else {
        None
    }
}

#[verifier::rlimit(100)]
fn take_rcpt_status(bytes: &Vec<u8>, pos: usize) -> (r: Option<(RecipientStatus, usize)>)
    requires
        pos <= bytes@.len(),
    ensures
        match r {
            Some(p) => pos <= p.1 <= bytes@.len() && (dec_rcpt_status(bytes@.skip(pos as int))
                matches Some(q) && q.0 == rcpt_status_model(p.0) && q.1 == bytes@.skip(
                p.1 as int,
            )),
            None => dec_rcpt_status(bytes@.skip(pos as int)) is None,
        },
{
    let (tag, p0) = match take_u64(bytes, pos) {
        Some(p) => p,
        None => {
            return None;
        },
    };
    if tag == 0 {
        Some((RecipientStatus::Scheduled, p0))
    } else if tag == 1 {
        match take_reply(bytes, p0) {
            Some(p) => Some((RecipientStatus::Completed(p.0), p.1)),
            None => None,
        }
    } else if tag == 2 {
        match take_reply(bytes, p0) {
            Some(p) => Some((RecipientStatus::TemporaryFailure(p.0), p.1)),
            None => None,
        }
    } else if tag == 3 {
        match take_reply(bytes, p0) {
            Some(p) => Some((RecipientStatus::PermanentFailure(p.0), p.1)),
            None => None,
        }
    } else {
        None
    }
}

#[verifier::rlimit(100)]
fn take_domain(bytes: &Vec<u8>, pos: usize) -> (r: Option<(Domain, usize)>)
    requires
        pos <= bytes@.len(),
    ensures
        match r {
            Some(p) => pos <= p.1 <= bytes@.len() && (dec_domain(bytes@.skip(pos as int)) matches
                Some(q) && q.0 == domain_model(p.0) && q.1 == bytes@.skip(p.1 as int)),
            None => dec_domain(bytes@.skip(pos as int)) is None,
        },
{
    let (name, p0) = match take_str(bytes, pos) {
        Some(p) => p,
        None => {
            return None;
        },
    };
    let (status, p1) = match take_status(bytes, p0) {
        Some(p) => p,
        None => {
            return None;
        },
    };
    let (due, p2) = match take_u64(bytes, p1) {
        Some(p) => p,
        None => {
            return None;
        },
    };
    let (attempt, p3) = match take_u64(bytes, p2) {
        Some(p) => p,
        None => {
            return None;
        },
    };
    if attempt > u32::MAX as u64 {
        return None;
    }
    let (expires_at, p4) = match take_u64(bytes, p3) {
        Some(p) => p,
        None => {
            return None;
        },
    };
    Some(
        (
            Domain {
                domain: name,
                status,
                retry: Schedule { due, inner: attempt as u32 },
                expires_at,
            },
            p4,
        ),
    )
}

#[verifier::rlimit(100)]
fn take_recipient(bytes: &Vec<u8>, pos: usize) -> (r: Option<(Recipient, usize)>)
    requires
        pos <= bytes@.len(),
    ensures
        match r {
            Some(p) => pos <= p.1 <= bytes@.len() && (dec_recipient(bytes@.skip(pos as int))
                matches Some(q) && q.0 == recipient_model(p.0) && q.1 == bytes@.skip(p.1 as int)),
            None => dec_recipient(bytes@.skip(pos as int)) is None,
        },
{
    let (address, p0) = match take_str(bytes, pos) {
        Some(p) => p,
        None => {
            return None;
        },
    };
    let (idx, p1) = match take_u64(bytes, p0) {
        Some(p) => p,
        None => {
            return None;
        },
    };
    if idx > usize::MAX as u64 {
        return None;
    }
    let (status, p2) = match take_rcpt_status(bytes, p1) {
        Some(p) => p,
        None => {
            return None;
        },
    };
    Some((Recipient { address, domain_idx: idx as usize, status }, p2))
}

#[verifier::rlimit(100)]
fn take_domains(bytes: &Vec<u8>, pos: usize, n: u64) -> (r: Option<(Vec<Domain>, usize)>)
    requires
        pos <= bytes@.len(),
    ensures
        match r {
            Some(p) => pos <= p.1 <= bytes@.len() && (dec_domain_items(
                bytes@.skip(pos as int),
                n as nat,
            ) matches Some(q) && q.0 == p.0@.map_values(|d: Domain| domain_model(d)) && q.1
                == bytes@.skip(p.1 as int)),
            None => dec_domain_items(bytes@.skip(pos as int), n as nat) is None,
        },
{
    let mut acc: Vec<Domain> = Vec::new();
    let mut cur: usize = pos;
    let mut k: u64 = 0;
    proof {
        assert(acc@.map_values(|d: Domain| domain_model(d)) =~= Seq::<DomainModel>::empty());
        match dec_domain_items(bytes@.skip(pos as int), n as nat) {
            Some(p) => {
                assert(acc@.map_values(|d: Domain| domain_model(d)) + p.0 =~= p.0);
            },
            None => {},
        }
    }
    while k < n
        invariant
            pos <= cur <= bytes@.len(),
            k <= n,
            dec_domain_items(bytes@.skip(pos as int), n as nat) == (match dec_domain_items(
                bytes@.skip(cur as int),
                (n - k) as nat,
            ) {
                None => None,
                Some(p) => Some(
                    (acc@.map_values(|d: Domain| domain_model(d)) + p.0, p.1),
                ),
            }),
        decreases n - k,
    {
        let ghost acc_models = acc@.map_values(|d: Domain| domain_model(d));
        match take_domain(bytes, cur) {
            Some(p) => {
                let ghost dmodel = domain_model(p.0);
                let ghost cur2 = p.1;
                proof {
                    match dec_domain_items(bytes@.skip(cur2 as int), (n - k - 1) as nat) {
                        Some(pl) => {
                            assert(acc_models + (seq![dmodel] + pl.0) =~= acc_models.push(
                                dmodel,
                            ) + pl.0);
                        },
                        None => {},
                    }
                    assert(acc@.push(p.0).map_values(|d: Domain| domain_model(d))
                        =~= acc_models.push(dmodel));
                }
                acc.push(p.0);
                cur = p.1;
            },
            None => {
                return None;
            },
        }
        k = k + 1;
    }
    proof {
        assert(dec_domain_items(bytes@.skip(cur as int), 0) == Some(
            (Seq::<DomainModel>::empty(), bytes@.skip(cur as int)),
        ));
        assert(acc@.map_values(|d: Domain| domain_model(d)) + Seq::<DomainModel>::empty()
            =~= acc@.map_values(|d: Domain| domain_model(d)));
    }
    Some((acc, cur))
}

#[verifier::rlimit(100)]
fn take_recipients(bytes: &Vec<u8>, pos: usize, n: u64) -> (r: Option<(Vec<Recipient>, usize)>)
    requires
        pos <= bytes@.len(),
    ensures
        match r {
            Some(p) => pos <= p.1 <= bytes@.len() && (dec_recipient_items(
                bytes@.skip(pos as int),
                n as nat,
            ) matches Some(q) && q.0 == p.0@.map_values(|r2: Recipient| recipient_model(r2))
                && q.1 == bytes@.skip(p.1 as int)),
            None => dec_recipient_items(bytes@.skip(pos as int), n as nat) is None,
        },
{
    let mut acc: Vec<Recipient> = Vec::new();
    let mut cur: usize = pos;
    let mut k: u64 = 0;
    proof {
        assert(acc@.map_values(|r2: Recipient| recipient_model(r2))
            =~= Seq::<RecipientModel>::empty());
        match dec_recipient_items(bytes@.skip(pos as int), n as nat) {
            Some(p) => {
                assert(acc@.map_values(|r2: Recipient| recipient_model(r2)) + p.0 =~= p.0);
            },
            None => {},
        }
    }
    while k < n
        invariant
            pos <= cur <= bytes@.len(),
            k <= n,
            dec_recipient_items(bytes@.skip(pos as int), n as nat) == (match dec_recipient_items(
                bytes@.skip(cur as int),
                (n - k) as nat,
            ) {
                None => None,
                Some(p) => Some(
                    (acc@.map_values(|r2: Recipient| recipient_model(r2)) + p.0, p.1),
                ),
            }),
        decreases n - k,
    {
        let ghost acc_models = acc@.map_values(|r2: Recipient| recipient_model(r2));
        match take_recipient(bytes, cur) {
            Some(p) => {
                let ghost rmodel = recipient_model(p.0);
                let ghost cur2 = p.1;
                proof {
                    match dec_recipient_items(bytes@.skip(cur2 as int), (n - k - 1) as nat) {
                        Some(pl) => {
                            assert(acc_models + (seq![rmodel] + pl.0) =~= acc_models.push(
                                rmodel,
                            ) + pl.0);
                        },
                        None => {},
                    }
                    assert(acc@.push(p.0).map_values(|r2: Recipient| recipient_model(r2))
                        =~= acc_models.push(rmodel));
                }
                acc.push(p.0);
                cur = p.1;
            },
            None => {
                return None;
            },
        }
        k = k + 1;
    }
    proof {
        assert(dec_recipient_items(bytes@.skip(cur as int), 0) == Some(
            (Seq::<RecipientModel>::empty(), bytes@.skip(cur as int)),
        ));
        assert(acc@.map_values(|r2: Recipient| recipient_model(r2))
            + Seq::<RecipientModel>::empty() =~= acc@.map_values(
            |r2: Recipient| recipient_model(r2),
        ));
    }
    Some((acc, cur))
}

/// Whether every stored recipient points into the stored domain list.
pub open spec fn model_indices_ok(m: MessageModel) -> bool {
    forall|k: int|
        0 <= k < m.recipients.len() ==> (#[trigger] m.recipients[k]).domain_idx < m.domains.len()
}

/// Reads a stored message back. The whole input must be one stored message
/// whose recipients point into its domain list; the result then carries
/// exactly the stored semantic value.
#[verifier::rlimit(100)]
pub fn decode_message(bytes: &Vec<u8>) -> (r: Option<Message>)
    ensures
        match r {
            Some(m2) => {
                &&& dec_message(bytes@) matches Some(p) && p.0 == message_model(m2) && p.1.len()
                    == 0
                &&& m2.wf()
            },
            None => dec_message(bytes@) is None || (dec_message(bytes@) matches Some(p) && (
            p.1.len() != 0 || !model_indices_ok(p.0))),
        },
{
    proof {
        assert(bytes@.skip(0) =~= bytes@);
    }
    let (id, p0) = match take_u64(bytes, 0) {
        Some(p) => p,
        None => {
            return None;
        },
    };
    let (created_at, p1) = match take_u64(bytes, p0) {
        Some(p) => p,
        None => {
            return None;
        },
    };
    let (size, p2) = match take_u64(bytes, p1) {
        Some(p) => p,
        None => {
            return None;
        },
    };
    let (flags, p3) = match take_u64(bytes, p2) {
        Some(p) => p,
        None => {
            return None;
        },
    };
    let (return_path, p4) = match take_str(bytes, p3) {
        Some(p) => p,
        None => {
            return None;
        },
    };
    let (n_domains, p5) = match take_u64(bytes, p4) {
        Some(p) => p,
        None => {
            return None;
        },
    };
    let (domains, p6) = match take_domains(bytes, p5, n_domains) {
        Some(p) => p,
        None => {
            return None;
        },
    };
    let (n_rcpts, p7) = match take_u64(bytes, p6) {
        Some(p) => p,
        None => {
            return None;
        },
    };
    let (recipients, p8) = match take_recipients(bytes, p7, n_rcpts) {
        Some(p) => p,
        None => {
            return None;
        },
    };
    if p8 != bytes.len() {
        return None;
    }
    let ghost full = dec_message(bytes@);
    let ghost dmodels = domains@.map_values(|d: Domain| domain_model(d));
    let ghost rmodels = recipients@.map_values(|r2: Recipient| recipient_model(r2));
    proof {
        match full {
            Some(p) => {
                assert(p.0.recipients =~= rmodels);
                assert(p.0.domains =~= dmodels);
            },
            None => {
                assert(false);
            },
        }
    }
    let n_doms = domains.len();
    let mut ok = true;
    let ghost mut bad: int = 0;
    let mut k: usize = 0;
    while k < recipients.len()
        invariant
            k <= recipients@.len(),
            n_doms == domains@.len(),
            ok ==> forall|j: int|
                0 <= j < k ==> (#[trigger] recipients@[j]).domain_idx < n_doms,
            !ok ==> 0 <= bad < recipients@.len() && recipients@[bad].domain_idx >= n_doms,
        decreases recipients@.len() - k,
    {
        if recipients[k].domain_idx >= n_doms {
            ok = false;
            proof {
                bad = k as int;
            }
        }
        k = k + 1;
    }
    if !ok {
        proof {
            match full {
                Some(p) => {
                    assert(p.0.recipients[bad] == recipient_model(recipients@[bad]));
                    assert(p.0.recipients[bad].domain_idx >= p.0.domains.len());
                    assert(!model_indices_ok(p.0));
                },
                None => {},
            }
        }
        return None;
    }
    let m2 = Message { id, created_at, size, flags, return_path, domains, recipients };
    proof {
        assert(bytes@.skip(p8 as int).len() == 0);
        match full {
            Some(p) => {
                assert(p.0 =~= message_model(m2));
            },
            None => {},
        }
    }
    Some(m2)
}

} // verus!
