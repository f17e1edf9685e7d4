//! Delivery statuses, the errors that feed them, and the classification of
//! client and resolver failures into temporary or permanent outcomes.

use vstd::prelude::*;
use vstd::string::StringExecFns;

verus! {

/// One SMTP reply as the client records it: the three digit code, the
/// enhanced status code triplet and the text that followed them.
#[derive(Clone, Debug)]
pub struct Reply {
    pub code: u16,
    pub esc: [u8; 3],
    pub message: String,
}

/// Reply severity, read off the first digit of the reply code.
#[derive(Clone, Copy, Debug, PartialEq, Eq, Structural)]
pub enum Severity {
    PositiveCompletion,
    PositiveIntermediate,
    TransientNegativeCompletion,
    PermanentNegativeCompletion,
    Invalid,
}

/// Severity of a reply code: 2yz positive, 3yz intermediate, 4yz transient
/// negative, 5yz permanent negative, anything else invalid.
pub open spec fn spec_severity(code: u16) -> Severity {
    if 200 <= code < 300 {
        Severity::PositiveCompletion
    } else if 300 <= code < 400 {
        Severity::PositiveIntermediate
    } else if 400 <= code < 500 {
        Severity::TransientNegativeCompletion
    } else if 500 <= code < 600 {
        Severity::PermanentNegativeCompletion
    } else {
        Severity::Invalid
    }
}

impl Reply {
    /// A field-wise copy, equal to the original.
    pub fn clone_reply(&self) -> (r: Reply)
        ensures
            r == *self,
    {
        Reply { code: self.code, esc: self.esc, message: self.message.clone() }
    }

    pub open spec fn spec_severity(&self) -> Severity {
        spec_severity(self.code)
    }

    pub fn severity(&self) -> (s: Severity)
        ensures
            s == self.spec_severity(),
    {
        if 200 <= self.code && self.code < 300 {
            Severity::PositiveCompletion
        } else if 300 <= self.code && self.code < 400 {
            Severity::PositiveIntermediate
        } else if 400 <= self.code && self.code < 500 {
            Severity::TransientNegativeCompletion
        } else if 500 <= self.code && self.code < 600 {
            Severity::PermanentNegativeCompletion
        } else {
            Severity::Invalid
        }
    }
}

/// An error recorded against a domain or a recipient.
#[derive(Clone, Debug)]
pub enum Error {
    /// MX or address lookup failed.
    DnsError(String),
    /// TCP connect, TLS, socket IO, a timeout or an unrecognized reply.
    ConnectionError(String),
    /// The server returned a definite SMTP reply that was not expected.
    UnexpectedResponse { message: String, response: Reply },
    /// Policy mandates TLS and the server does not offer it.
    TlsRequiredUnavailable(Reply),
    /// The message outlived its expiry time before delivery.
    Expired,
    /// The configuration asks for a strategy this engine does not support.
    ConfigError(String),
}

/// The delivery status of one routing domain of a message.
#[derive(Clone, Debug)]
pub enum Status {
    /// Not yet attempted, or waiting for its first attempt.
    Scheduled,
    /// Handed to a delivery attempt that currently owns the message.
    InFlight,
    /// The message data was accepted for this domain.
    Completed,
    /// Failed in a way that will be retried.
    TemporaryFailure(Error),
    /// Failed definitively; never retried.
    PermanentFailure(Error),
}

impl Error {
    /// A field-wise copy, equal to the original.
    pub fn duplicate(&self) -> (r: Error)
        ensures
            r == *self,
    {
        match self {
            Error::DnsError(s) => Error::DnsError(s.clone()),
            Error::ConnectionError(s) => Error::ConnectionError(s.clone()),
            Error::UnexpectedResponse { message, response } => Error::UnexpectedResponse {
                message: message.clone(),
                response: response.clone_reply(),
            },
            Error::TlsRequiredUnavailable(rep) => Error::TlsRequiredUnavailable(rep.clone_reply()),
            Error::Expired => Error::Expired,
            Error::ConfigError(s) => Error::ConfigError(s.clone()),
        }
    }
}

impl Status {
    /// A field-wise copy, equal to the original.
    pub fn duplicate(&self) -> (r: Status)
        ensures
            r == *self,
    {
        match self {
            Status::Scheduled => Status::Scheduled,
            Status::InFlight => Status::InFlight,
            Status::Completed => Status::Completed,
            Status::TemporaryFailure(e) => Status::TemporaryFailure(e.duplicate()),
            Status::PermanentFailure(e) => Status::PermanentFailure(e.duplicate()),
        }
    }

    /// A terminal status is never retried.
    pub open spec fn is_terminal(&self) -> bool {
        match self {
            Status::Completed => true,
            Status::PermanentFailure(_) => true,
            _ => false,
        }
    }

    /// The statuses under which a delivery attempt considers the domain.
    pub open spec fn is_attemptable(&self) -> bool {
        match self {
            Status::Scheduled => true,
            Status::TemporaryFailure(_) => true,
            _ => false,
        }
    }
}

/// The failures the SMTP client surfaces, mirrored as plain values: transport
/// and handshake troubles on one side, a definite reply on the other.
#[derive(Clone, Debug)]
pub enum ClientError {
    Io(String),
    Tls(String),
    Base64(String),
    UnparseableReply,
    AuthenticationFailed(Reply),
    MissingCredentials,
    MissingMailFrom,
    MissingRcptTo,
    Timeout,
    UnexpectedReply(Reply),
    Auth(String),
    UnsupportedAuthMechanism,
    InvalidTlsName,
    MissingStartTls,
}

/// A resolver failure, reduced to what classification reads: a definite
/// no-such-record answer, or anything else (timeout, servfail, ...).
#[derive(Clone, Debug)]
pub enum DnsFailure {
    RecordNotFound(String),
    Other(String),
}

/// The note stored beside a recorded failure: the context, a space, and
/// the host name in quotes.
pub open spec fn spec_context_message(context: Seq<char>, mx: Seq<char>) -> Seq<char> {
    context + " \""@ + mx + "\""@
}

/// Builds the note stored beside a recorded failure.
pub fn context_message(context: &str, mx: &str) -> (r: String)
    ensures
        r@ == spec_context_message(context@, mx@),
{
    let mut r = String::new();
    r.append(context);
    r.append(" \"");
    r.append(mx);
    r.append("\"");
    r
}

/// What classifying a client failure must yield: a definite reply is
/// permanent exactly when its severity is permanent negative, carrying the
/// reply unchanged; every other client failure is a temporary connection
/// error. The recorded note is the context followed by the quoted host
/// name in either case.
pub open spec fn is_client_error_status(
    s: Status,
    context: Seq<char>,
    mx: Seq<char>,
    err: ClientError,
) -> bool {
    match err {
        ClientError::UnexpectedReply(reply) => {
            if spec_severity(reply.code) == Severity::PermanentNegativeCompletion {
                s matches Status::PermanentFailure(Error::UnexpectedResponse { message, response })
                    && message@ == spec_context_message(context, mx) && response == reply
            } else {
                s matches Status::TemporaryFailure(Error::UnexpectedResponse { message, response })
                    && message@ == spec_context_message(context, mx) && response == reply
            }
        },
        _ => s matches Status::TemporaryFailure(Error::ConnectionError(m)) && m@
            == spec_context_message(context, mx),
    }
}

impl Status {
    /// Classifies an SMTP client failure against the host named `mx`.
    pub fn from_client_error(context: &str, mx: &str, err: ClientError) -> (s: Status)
        ensures
            is_client_error_status(s, context@, mx@, err),
    {
        let message = context_message(context, mx);
        match err {
            ClientError::UnexpectedReply(reply) => {
                if reply.code >= 500 && reply.code < 600 {
                    Status::PermanentFailure(Error::UnexpectedResponse { message, response: reply })
                } else {
                    Status::TemporaryFailure(Error::UnexpectedResponse { message, response: reply })
                }
            },
            _ => Status::TemporaryFailure(Error::ConnectionError(message)),
        }
    }

    /// What `from_dns_failure` returns: no-such-record is permanent, every
    /// other resolver failure is temporary.
    pub open spec fn spec_from_dns_failure(f: DnsFailure) -> Status {
        match f {
            DnsFailure::RecordNotFound(code) => Status::PermanentFailure(Error::DnsError(code)),
            DnsFailure::Other(text) => Status::TemporaryFailure(Error::DnsError(text)),
        }
    }

    /// Classifies a resolver failure.
    pub fn from_dns_failure(f: DnsFailure) -> (s: Status)
        ensures
            s == Status::spec_from_dns_failure(f),
    {
        match f {
            DnsFailure::RecordNotFound(code) => Status::PermanentFailure(Error::DnsError(code)),
            DnsFailure::Other(text) => Status::TemporaryFailure(Error::DnsError(text)),
        }
    }
}

} // verus!
