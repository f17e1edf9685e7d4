//! The RCPT TO decision of an inbound session: who may be added as a
//! recipient, which reply line answers the command, and when repeated
//! failures end the session. The socket writes, the directory lookups and
//! the pause before an error reply stay outside; their results come in as
//! plain values.

use vstd::prelude::*;
use vstd::string::{StrSliceExecFns, StringExecFns};

verus! {

/// What `str::to_lowercase` returns: a function of the characters alone.
pub uninterp spec fn lower_of(s: Seq<char>) -> Seq<char>;

/// Relies on str::to_lowercase: the lowercased text depends on the
/// characters alone, and an empty string stays empty.
#[verifier::external_body]
fn lowercase(s: &str) -> (r: String)
    ensures
        r@ == lower_of(s@),
        s@.len() == 0 ==> r@.len() == 0,
{
    s.to_lowercase()
}

/// Whether `cs` holds an `@` anywhere.
pub open spec fn has_at(cs: Seq<char>) -> bool {
    exists|i: int| 0 <= i < cs.len() && cs[i] == '@'
}

/// The characters after the last `@` of `cs`; empty when there is none.
pub open spec fn domain_seq(cs: Seq<char>) -> Seq<char>
    decreases cs.len(),
{
    if cs.len() == 0 {
        Seq::empty()
    } else if cs.last() == '@' {
        Seq::empty()
    } else if has_at(cs.drop_last()) {
        domain_seq(cs.drop_last()).push(cs.last())
    } else {
        Seq::empty()
    }
}

proof fn lemma_domain_seq_at(cs: Seq<char>, i: int)
    requires
        0 <= i < cs.len(),
        cs[i] == '@',
        forall|j: int| i < j < cs.len() ==> cs[j] != '@',
    ensures
        domain_seq(cs) == cs.subrange(i + 1, cs.len() as int),
    decreases cs.len(),
{
    if i == cs.len() - 1 {
        assert(cs.last() == '@');
        assert(domain_seq(cs) =~= cs.subrange(i + 1, cs.len() as int));
    } else {
        assert(cs.last() != '@');
        assert(cs.drop_last()[i] == '@');
        assert(has_at(cs.drop_last()));
        lemma_domain_seq_at(cs.drop_last(), i);
        assert(cs.drop_last().subrange(i + 1, cs.len() - 1).push(cs.last()) =~= cs.subrange(
            i + 1,
            cs.len() as int,
        ));
    }
}

proof fn lemma_domain_seq_none(cs: Seq<char>)
    requires
        !has_at(cs),
    ensures
        domain_seq(cs) == Seq::<char>::empty(),
    decreases cs.len(),
{
    if cs.len() > 0 {
        assert(cs.last() != '@');
        assert(!has_at(cs.drop_last())) by {
            if has_at(cs.drop_last()) {
                let i = choose|i: int|
                    0 <= i < cs.drop_last().len() && #[trigger] cs.drop_last()[i] == '@';
                assert(cs[i] == '@');
            }
        }
    }
}

/// The domain part of an address: what stands after the last `@`, or
/// nothing when the address has none.
fn domain_part(s: &str) -> (r: String)
    ensures
        r@ == domain_seq(s@),
{
    let n = s.unicode_len();
    let mut j: usize = n;
    while j > 0
        invariant
            j <= n,
            n == s@.len(),
            forall|k: int| j <= k < n ==> s@[k] != '@',
        decreases j,
    {
        if s.get_char(j - 1) == '@' {
            let r = s.substring_char(j, n).to_owned();
            proof {
                lemma_domain_seq_at(s@, j - 1);
            }
            return r;
        }
        j = j - 1;
    }
    proof {
        assert(!has_at(s@));
        lemma_domain_seq_none(s@);
    }
    String::new()
}

/// One recipient as the session records it.
#[derive(Clone, Debug)]
pub struct SessionAddress {
    pub address: String,
    pub address_lcase: String,
    pub domain: String,
    pub flags: u64,
}

/// The per-listener policy the session was opened under.
#[derive(Clone, Debug)]
pub struct SessionParams {
    /// How many recipients one message may name.
    pub rcpt_max: usize,
    /// Whether relaying to remote domains is allowed.
    pub rcpt_relay: bool,
    /// Whether a directory of local domains and addresses is configured.
    pub has_directory: bool,
    /// How many failed RCPT commands end the session.
    pub rcpt_errors_max: usize,
    /// How long to pause before answering a failed RCPT, in milliseconds.
    pub rcpt_errors_wait: u64,
}

/// The mutable envelope state of one inbound session.
#[derive(Clone, Debug)]
pub struct SessionData {
    pub mail_from: Option<String>,
    pub rcpt_to: Vec<SessionAddress>,
    pub rcpt_errors: usize,
}

/// One inbound session: its policy and its envelope so far.
#[derive(Clone, Debug)]
pub struct Session {
    pub params: SessionParams,
    pub data: SessionData,
}

/// How one RCPT TO command is answered.
#[derive(Debug)]
pub enum RcptDecision {
    /// MAIL FROM has not been given yet.
    RequireMailFrom,
    /// The envelope already names as many recipients as allowed.
    TooManyRecipients,
    /// A directory lookup gave no answer; asked to try again later.
    UnableToVerify,
    /// The domain is local but the mailbox does not exist.
    MailboxUnavailable,
    /// The domain is remote and relaying is not allowed.
    RelayNotAllowed,
    /// The recipient was admissible but the rate limit refused it.
    RateLimited,
    /// The recipient is accepted; `duplicate` when it was already on the
    /// envelope and nothing changed.
    Accept { duplicate: bool },
}

impl RcptDecision {
    /// The reply line the decision answers with.
    pub fn response_line(&self) -> (r: &'static str)
        ensures
            r@ == match self {
                RcptDecision::RequireMailFrom => "503 5.5.1 MAIL is required first.\r\n"@,
                RcptDecision::TooManyRecipients => "451 4.5.3 Too many recipients.\r\n"@,
                RcptDecision::UnableToVerify =>
                    "451 4.4.3 Unable to verify address at this time.\r\n"@,
                RcptDecision::MailboxUnavailable => "550 5.1.2 Mailbox does not exist.\r\n"@,
                RcptDecision::RelayNotAllowed => "550 5.1.2 Relay not allowed.\r\n"@,
                RcptDecision::RateLimited =>
                    "451 4.4.5 Rate limit exceeded, try again later.\r\n"@,
                RcptDecision::Accept { .. } => "250 2.1.5 OK\r\n"@,
            },
    {
        match self {
            RcptDecision::RequireMailFrom => "503 5.5.1 MAIL is required first.\r\n",
            RcptDecision::TooManyRecipients => "451 4.5.3 Too many recipients.\r\n",
            RcptDecision::UnableToVerify => "451 4.4.3 Unable to verify address at this time.\r\n",
            RcptDecision::MailboxUnavailable => "550 5.1.2 Mailbox does not exist.\r\n",
            RcptDecision::RelayNotAllowed => "550 5.1.2 Relay not allowed.\r\n",
            RcptDecision::RateLimited => "451 4.4.5 Rate limit exceeded, try again later.\r\n",
            RcptDecision::Accept { .. } => "250 2.1.5 OK\r\n",
        }
    }

    /// Whether the decision counts as a recipient error against the
    /// session's error budget.
    pub fn is_rcpt_error(&self) -> (r: bool)
        ensures
            r == (self is MailboxUnavailable || self is RelayNotAllowed),
    {
        match self {
            RcptDecision::MailboxUnavailable => true,
            RcptDecision::RelayNotAllowed => true,
            _ => false,
        }
    }
}

/// The checks before the directory: MAIL FROM given, room on the envelope.
pub open spec fn preamble_ok(s: Session) -> bool {
    s.data.mail_from is Some && s.data.rcpt_to@.len() < s.params.rcpt_max
}

/// The verdict of the directory cascade, when it answers: the address is
/// deliverable here, or may be relayed.
pub open spec fn verify_ok(s: Session, domain_is_local: Option<bool>, address_is_local: Option<
    bool,
>) -> bool {
    if s.params.has_directory {
        (domain_is_local == Some(true) && address_is_local == Some(true)) || (domain_is_local
            == Some(false) && s.params.rcpt_relay)
    } else {
        s.params.rcpt_relay
    }
}

/// Whether an equal recipient is already on the envelope.
pub open spec fn already_recipient(s: Session, lcase: Seq<char>) -> bool {
    exists|i: int|
        0 <= i < s.data.rcpt_to@.len() && (#[trigger] s.data.rcpt_to@[i]).address_lcase@ == lcase
}

impl Session {
    /// Decides one RCPT TO command and updates the envelope accordingly.
    ///
    /// `domain_is_local` and `address_is_local` carry the directory's
    /// answers (`None` when the lookup failed); they are consulted only when
    /// a directory is configured, and the address lookup only for a local
    /// domain. `rate_allowed` carries the session throttle's verdict and is
    /// consulted only for a new admissible recipient.
    pub fn handle_rcpt_to(
        &mut self,
        to_address: String,
        to_flags: u64,
        domain_is_local: Option<bool>,
        address_is_local: Option<bool>,
        rate_allowed: bool,
    ) -> (d: RcptDecision)
        requires
            old(self).data.rcpt_to@.len() < usize::MAX,
        ensures
            final(self).params == old(self).params,
            final(self).data.mail_from == old(self).data.mail_from,
            final(self).data.rcpt_errors == old(self).data.rcpt_errors,
            match d {
                RcptDecision::RequireMailFrom => old(self).data.mail_from is None && final(self).data.rcpt_to == old(self).data.rcpt_to,
                RcptDecision::TooManyRecipients => old(self).data.mail_from is Some && old(self).data.rcpt_to@.len() >= old(self).params.rcpt_max && final(self).data.rcpt_to
                    == old(self).data.rcpt_to,
                RcptDecision::UnableToVerify => preamble_ok(*old(self)) && old(self).params.has_directory && (domain_is_local is None || (domain_is_local
                    == Some(true) && address_is_local is None)) && final(self).data.rcpt_to == old(self).data.rcpt_to,
                RcptDecision::MailboxUnavailable => preamble_ok(*old(self)) && old(self).params.has_directory && domain_is_local == Some(true) && address_is_local
                    == Some(false) && final(self).data.rcpt_to == old(self).data.rcpt_to,
                RcptDecision::RelayNotAllowed => preamble_ok(*old(self)) && !old(self).params.rcpt_relay && (if old(self).params.has_directory {
                    domain_is_local == Some(false)
                } else {
                    true
                }) && final(self).data.rcpt_to == old(self).data.rcpt_to,
                RcptDecision::RateLimited => preamble_ok(*old(self)) && verify_ok(
                    *old(self),
                    domain_is_local,
                    address_is_local,
                ) && !already_recipient(*old(self), lower_of(to_address@)) && !rate_allowed
                    && final(self).data.rcpt_to == old(self).data.rcpt_to,
                RcptDecision::Accept { duplicate } => {
                    &&& preamble_ok(*old(self))
                    &&& verify_ok(*old(self), domain_is_local, address_is_local)
                    &&& duplicate == already_recipient(*old(self), lower_of(to_address@))
                    &&& if duplicate {
                        final(self).data.rcpt_to == old(self).data.rcpt_to
                    } else {
                        &&& rate_allowed
                        &&& final(self).data.rcpt_to@.len() == old(self).data.rcpt_to@.len() + 1
                        &&& final(self).data.rcpt_to@.take(old(self).data.rcpt_to@.len() as int)
                            == old(self).data.rcpt_to@
                        &&& {
                            let r = final(self).data.rcpt_to@.last();
                            &&& r.address@ == to_address@
                            &&& r.address_lcase@ == lower_of(to_address@)
                            &&& r.domain@ == domain_seq(lower_of(to_address@))
                            &&& r.flags == to_flags
                        }
                    }
                },
            },
    {
        if self.data.mail_from.is_none() {
            return RcptDecision::RequireMailFrom;
        }
        if self.data.rcpt_to.len() >= self.params.rcpt_max {
            return RcptDecision::TooManyRecipients;
        }

        let address_lcase = lowercase(to_address.as_str());
        let domain = domain_part(address_lcase.as_str());

        if self.params.has_directory {
            match domain_is_local {
                None => {
                    return RcptDecision::UnableToVerify;
                },
                Some(true) => match address_is_local {
                    None => {
                        return RcptDecision::UnableToVerify;
                    },
                    Some(false) => {
                        return RcptDecision::MailboxUnavailable;
                    },
                    Some(true) => {},
                },
                Some(false) => {
                    if !self.params.rcpt_relay {
                        return RcptDecision::RelayNotAllowed;
                    }
                },
            }
        } else if !self.params.rcpt_relay {
            return RcptDecision::RelayNotAllowed;
        }

        let mut duplicate = false;
        let mut i: usize = 0;
        while i < self.data.rcpt_to.len()
            invariant
                i <= self.data.rcpt_to@.len(),
                duplicate == exists|k: int|
                    0 <= k < i && (#[trigger] self.data.rcpt_to@[k]).address_lcase@
                        == address_lcase@,
            decreases self.data.rcpt_to@.len() - i,
        {
            if self.data.rcpt_to[i].address_lcase.eq(&address_lcase) {
                duplicate = true;
                proof {
                    assert((self.data.rcpt_to@[i as int]).address_lcase@ == address_lcase@);
                }
            }
            i = i + 1;
        }

        if duplicate {
            return RcptDecision::Accept { duplicate: true };
        }
        if !rate_allowed {
            return RcptDecision::RateLimited;
        }
        let rcpt = SessionAddress {
            address: to_address,
            address_lcase,
            domain,
            flags: to_flags,
        };
        let ghost before = self.data.rcpt_to@;
        self.data.rcpt_to.push(rcpt);
        proof {
            assert(self.data.rcpt_to@.take(before.len() as int) =~= before);
        }
        RcptDecision::Accept { duplicate: false }
    }

    /// Books one failed RCPT against the session's error budget; answers
    /// whether the session must be closed: exactly when the budget is used
    /// up. The caller pauses `params.rcpt_errors_wait` before replying.
    pub fn rcpt_error(&mut self) -> (disconnect: bool)
        requires
            old(self).data.rcpt_errors < usize::MAX,
        ensures
            final(self).params == old(self).params,
            final(self).data.mail_from == old(self).data.mail_from,
            final(self).data.rcpt_to == old(self).data.rcpt_to,
            final(self).data.rcpt_errors == old(self).data.rcpt_errors + 1,
            disconnect == (final(self).data.rcpt_errors >= final(self).params.rcpt_errors_max),
    {
        self.data.rcpt_errors = self.data.rcpt_errors + 1;
        self.data.rcpt_errors >= self.params.rcpt_errors_max
    }

    /// The reply that closes a session out of error budget.
    pub fn too_many_errors_line() -> (r: &'static str)
        ensures
            r@ == "421 4.3.0 Too many errors, disconnecting.\r\n"@,
    {
        "421 4.3.0 Too many errors, disconnecting.\r\n"
    }
}

} // verus!
