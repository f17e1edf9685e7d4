//! Building the typed server listeners out of raw configuration values:
//! which TLS versions and cipher suites a listener speaks, which addresses
//! it binds, and the per-listener defaults. Reading the configuration file
//! itself, and turning the result into live sockets and TLS contexts, stays
//! outside.

use vstd::prelude::*;
use vstd::string::{StrSliceExecFns, StringExecFns};

use crate::host::Ip;

verus! {

/// Character-wise string equality.
fn str_eq(a: &str, b: &str) -> (r: bool)
    ensures
        r == (a@ == b@),
{
    let n = a.unicode_len();
    let m = b.unicode_len();
    if n != m {
        return false;
    }
    let mut i: usize = 0;
    while i < n
        invariant
            i <= n,
            n == a@.len(),
            n == b@.len(),
            forall|k: int| 0 <= k < i ==> a@[k] == b@[k],
        decreases n - i,
    {
        if a.get_char(i) != b.get_char(i) {
            return false;
        }
        i = i + 1;
    }
    proof {
        assert(a@ =~= b@);
    }
    true
}

/// `c` with an ASCII capital folded to its small form.
pub open spec fn ascii_fold(c: char) -> char {
    if 'A' <= c && c <= 'Z' {
        ((c as u8) + 32) as char
    } else {
        c
    }
}

/// Character-wise equality up to ASCII case.
pub open spec fn eq_ignore_ascii(a: Seq<char>, b: Seq<char>) -> bool {
    a.len() == b.len() && forall|i: int| 0 <= i < a.len() ==> ascii_fold(#[trigger] a[i])
        == ascii_fold(b[i])
}

fn str_eq_ignore_ascii_case(a: &str, b: &str) -> (r: bool)
    ensures
        r == eq_ignore_ascii(a@, b@),
{
    let n = a.unicode_len();
    let m = b.unicode_len();
    if n != m {
        return false;
    }
    let mut i: usize = 0;
    while i < n
        invariant
            i <= n,
            n == a@.len(),
            n == b@.len(),
            forall|k: int| 0 <= k < i ==> ascii_fold(#[trigger] a@[k]) == ascii_fold(b@[k]),
        decreases n - i,
    {
        let ca = a.get_char(i);
        let cb = b.get_char(i);
        let fa = if 'A' <= ca && ca <= 'Z' {
            ((ca as u8) + 32) as char
        } else {
            ca
        };
        let fb = if 'A' <= cb && cb <= 'Z' {
            ((cb as u8) + 32) as char
        } else {
            cb
        };
        if fa != fb {
            return false;
        }
        i = i + 1;
    }
    true
}

/// Which protocol a listener speaks.
#[derive(Clone, Copy, Debug, PartialEq, Eq, Structural)]
pub enum ServerProtocol {
    Smtp,
    Lmtp,
}

impl ServerProtocol {
    /// Reads a protocol name, ASCII case aside: `smtp` or `lmtp`, anything
    /// else refused.
    pub fn parse_value(value: &str) -> (r: Result<ServerProtocol, String>)
        ensures
            match r {
                Ok(p) => (p is Smtp <==> eq_ignore_ascii(value@, "smtp"@)) && (p is Lmtp <==> (
                !eq_ignore_ascii(value@, "smtp"@) && eq_ignore_ascii(value@, "lmtp"@))),
                Err(_) => !eq_ignore_ascii(value@, "smtp"@) && !eq_ignore_ascii(value@, "lmtp"@),
            },
            r is Ok <==> (eq_ignore_ascii(value@, "smtp"@) || eq_ignore_ascii(value@, "lmtp"@)),
    {
        if str_eq_ignore_ascii_case(value, "smtp") {
            Ok(ServerProtocol::Smtp)
        } else if str_eq_ignore_ascii_case(value, "lmtp") {
            Ok(ServerProtocol::Lmtp)
        } else {
            let mut e = String::new();
            e.append("Invalid server protocol type: ");
            e.append(value);
            Err(e)
        }
    }
}

/// The cipher suites a listener may be limited to.
#[derive(Clone, Copy, Debug, PartialEq, Eq, Structural)]
pub enum CipherSuite {
    Tls13Aes256GcmSha384,
    Tls13Aes128GcmSha256,
    Tls13Chacha20Poly1305Sha256,
    EcdheEcdsaAes256GcmSha384,
    EcdheEcdsaAes128GcmSha256,
    EcdheEcdsaChacha20Poly1305Sha256,
    EcdheRsaAes256GcmSha384,
    EcdheRsaAes128GcmSha256,
    EcdheRsaChacha20Poly1305Sha256,
}

/// The suite a configured name stands for, when it names one.
pub open spec fn spec_cipher_of(v: Seq<char>) -> Option<CipherSuite> {
    if v == "TLS13_AES_256_GCM_SHA384"@ {
        Some(CipherSuite::Tls13Aes256GcmSha384)
    } else if v == "TLS13_AES_128_GCM_SHA256"@ {
        Some(CipherSuite::Tls13Aes128GcmSha256)
    } else if v == "TLS13_CHACHA20_POLY1305_SHA256"@ {
        Some(CipherSuite::Tls13Chacha20Poly1305Sha256)
    } else if v == "TLS_ECDHE_ECDSA_WITH_AES_256_GCM_SHA384"@ {
        Some(CipherSuite::EcdheEcdsaAes256GcmSha384)
    } else if v == "TLS_ECDHE_ECDSA_WITH_AES_128_GCM_SHA256"@ {
        Some(CipherSuite::EcdheEcdsaAes128GcmSha256)
    } else if v == "TLS_ECDHE_ECDSA_WITH_CHACHA20_POLY1305_SHA256"@ {
        Some(CipherSuite::EcdheEcdsaChacha20Poly1305Sha256)
    } else if v == "TLS_ECDHE_RSA_WITH_AES_256_GCM_SHA384"@ {
        Some(CipherSuite::EcdheRsaAes256GcmSha384)
    } else if v == "TLS_ECDHE_RSA_WITH_AES_128_GCM_SHA256"@ {
        Some(CipherSuite::EcdheRsaAes128GcmSha256)
    } else if v == "TLS_ECDHE_RSA_WITH_CHACHA20_POLY1305_SHA256"@ {
        Some(CipherSuite::EcdheRsaChacha20Poly1305Sha256)
    } else {
        None
    }
}

impl CipherSuite {
    /// Reads a cipher suite by its exact configured name.
    pub fn parse_value(value: &str) -> (r: Result<CipherSuite, String>)
        ensures
            match r {
                Ok(c) => spec_cipher_of(value@) == Some(c),
                Err(_) => spec_cipher_of(value@) is None,
            },
    {
        if str_eq(value, "TLS13_AES_256_GCM_SHA384") {
            Ok(CipherSuite::Tls13Aes256GcmSha384)
        } else if str_eq(value, "TLS13_AES_128_GCM_SHA256") {
            Ok(CipherSuite::Tls13Aes128GcmSha256)
        } else if str_eq(value, "TLS13_CHACHA20_POLY1305_SHA256") {
            Ok(CipherSuite::Tls13Chacha20Poly1305Sha256)
        } else if str_eq(value, "TLS_ECDHE_ECDSA_WITH_AES_256_GCM_SHA384") {
            Ok(CipherSuite::EcdheEcdsaAes256GcmSha384)
        } else if str_eq(value, "TLS_ECDHE_ECDSA_WITH_AES_128_GCM_SHA256") {
            Ok(CipherSuite::EcdheEcdsaAes128GcmSha256)
        } else if str_eq(value, "TLS_ECDHE_ECDSA_WITH_CHACHA20_POLY1305_SHA256") {
            Ok(CipherSuite::EcdheEcdsaChacha20Poly1305Sha256)
        } else if str_eq(value, "TLS_ECDHE_RSA_WITH_AES_256_GCM_SHA384") {
            Ok(CipherSuite::EcdheRsaAes256GcmSha384)
        } else if str_eq(value, "TLS_ECDHE_RSA_WITH_AES_128_GCM_SHA256") {
            Ok(CipherSuite::EcdheRsaAes128GcmSha256)
        } else if str_eq(value, "TLS_ECDHE_RSA_WITH_CHACHA20_POLY1305_SHA256") {
            Ok(CipherSuite::EcdheRsaChacha20Poly1305Sha256)
        } else {
            let mut e = String::new();
            e.append("Unsupported TLS cipher suite: ");
            e.append(value);
            Err(e)
        }
    }
}

/// Which TLS protocol versions a listener enables. Naming both versions, or
/// none, enables both.
#[derive(Clone, Copy, Debug, PartialEq, Eq, Structural)]
pub enum TlsVersionChoice {
    Both,
    V3Only,
    V2Only,
}

/// A socket address as plain values.
#[derive(Clone, Copy, Debug, PartialEq, Eq, Structural)]
pub struct SockAddr {
    pub ip: Ip,
    pub port: u16,
}

/// The raw socket options of a listener, each set or left to the stack.
#[derive(Clone, Copy, Debug)]
pub struct SocketOptions {
    pub reuse_addr: Option<bool>,
    pub reuse_port: Option<bool>,
    pub send_buffer_size: Option<usize>,
    pub recv_buffer_size: Option<usize>,
    pub linger_ms: Option<u64>,
    pub tos: Option<u32>,
}

/// One bound listener socket to be opened.
#[derive(Clone, Debug)]
pub struct Listener {
    pub addr: SockAddr,
    pub options: SocketOptions,
    pub ttl: Option<u32>,
    pub backlog: Option<u32>,
}

/// A subject name served with its own certificate.
#[derive(Clone, Debug)]
pub struct SniEntry {
    pub subject: String,
    pub certificate_id: String,
}

/// The TLS posture of one listener, as typed values; certificates are
/// referred to by their configured id.
#[derive(Clone, Debug)]
pub struct TlsSettings {
    pub versions: TlsVersionChoice,
    pub ciphers: Vec<CipherSuite>,
    pub certificate_id: String,
    pub sni: Vec<SniEntry>,
    pub ignore_client_order: bool,
}

/// One server as the engine runs it.
#[derive(Clone, Debug)]
pub struct Server {
    pub id: String,
    pub internal_id: u64,
    pub hostname: String,
    pub greeting: String,
    pub protocol: ServerProtocol,
    pub listeners: Vec<Listener>,
    pub tls: Option<TlsSettings>,
    pub tls_implicit: bool,
}

/// The raw per-listener table, each field set or falling back to the
/// global defaults.
#[derive(Clone, Debug)]
pub struct ListenerSpec {
    pub id: String,
    pub tls_enable: Option<bool>,
    pub tls_protocols: Option<Vec<String>>,
    pub tls_ciphers: Option<Vec<String>>,
    pub tls_certificate: Option<String>,
    pub tls_sni: Option<Vec<SniEntry>>,
    pub tls_ignore_client_order: Option<bool>,
    pub tls_implicit: Option<bool>,
    pub binds: Vec<SockAddr>,
    pub options: SocketOptions,
    pub ttl: Option<u32>,
    pub backlog: Option<u32>,
    pub hostname: Option<String>,
    pub greeting: Option<String>,
    pub protocol: Option<String>,
}

/// The raw global defaults a listener may fall back to.
#[derive(Clone, Debug)]
pub struct ServerDefaults {
    pub tls_enable: Option<bool>,
    pub tls_protocols: Option<Vec<String>>,
    pub tls_ciphers: Option<Vec<String>>,
    pub tls_certificate: Option<String>,
    pub tls_sni: Option<Vec<SniEntry>>,
    pub tls_ignore_client_order: Option<bool>,
    pub tls_implicit: Option<bool>,
    pub hostname: Option<String>,
    pub greeting: Option<String>,
    pub protocol: Option<String>,
}

/// The server section of the configuration, already split into raw values.
#[derive(Clone, Debug)]
pub struct Config {
    pub global: ServerDefaults,
    pub listeners: Vec<ListenerSpec>,
}

/// The first of two optional values, the listener's own winning over the
/// global default.
pub open spec fn or_opt<T>(a: Option<T>, b: Option<T>) -> Option<T> {
    if a is Some {
        a
    } else {
        b
    }
}

/// Which TLS versions a raw protocol list names: `.0` for 1.2, `.1` for
/// 1.3; `None` when an entry names neither.
pub open spec fn spec_proto_flags(protos: Seq<String>) -> Option<(bool, bool)>
    decreases protos.len(),
{
    if protos.len() == 0 {
        Some((false, false))
    } else {
        match spec_proto_flags(protos.drop_last()) {
            None => None,
            Some(flags) => {
                let v = protos.last()@;
                if v == "TLSv1.2"@ || v == "0x0303"@ {
                    Some((true, flags.1))
                } else if v == "TLSv1.3"@ || v == "0x0304"@ {
                    Some((flags.0, true))
                } else {
                    None
                }
            },
        }
    }
}

/// The protocol-version choice the flags collapse to: both versions when
/// both or neither are named, else the one named.
pub open spec fn spec_version_choice(v2: bool, v3: bool) -> TlsVersionChoice {
    if v2 == v3 {
        TlsVersionChoice::Both
    } else if v3 {
        TlsVersionChoice::V3Only
    } else {
        TlsVersionChoice::V2Only
    }
}

/// The empty sequence a missing raw list falls back to.
pub open spec fn raw_or_empty(v: Option<Vec<String>>) -> Seq<String> {
    match v {
        Some(l) => l@,
        None => Seq::empty(),
    }
}

/// The empty sequence a missing subject list falls back to.
pub open spec fn sni_or_empty(v: Option<Vec<SniEntry>>) -> Seq<SniEntry> {
    match v {
        Some(l) => l@,
        None => Seq::empty(),
    }
}

/// Whether TLS is switched on for the listener.
pub open spec fn tls_on(spec: ListenerSpec, g: ServerDefaults) -> bool {
    or_opt(spec.tls_enable, g.tls_enable) == Some(true)
}

/// Whether — with TLS on — the listener's TLS table can be built: a
/// certificate is named and every protocol and cipher entry is recognized.
pub open spec fn tls_valid(spec: ListenerSpec, g: ServerDefaults) -> bool {
    tls_on(spec, g) ==> {
        &&& or_opt(spec.tls_certificate, g.tls_certificate) is Some
        &&& spec_proto_flags(raw_or_empty(or_opt(spec.tls_protocols, g.tls_protocols))) is Some
        &&& forall|i: int|
            0 <= i < raw_or_empty(or_opt(spec.tls_ciphers, g.tls_ciphers)).len()
                ==> spec_cipher_of(
                #[trigger] raw_or_empty(or_opt(spec.tls_ciphers, g.tls_ciphers))[i]@,
            ) is Some
    }
}

/// Whether one listener's raw table can be built at all: it binds at least
/// one address, a hostname is known, the protocol name (when given) parses,
/// and its TLS table, when on, can be built.
pub open spec fn listener_valid(spec: ListenerSpec, g: ServerDefaults) -> bool {
    &&& spec.binds@.len() > 0
    &&& or_opt(spec.hostname, g.hostname) is Some
    &&& match or_opt(spec.protocol, g.protocol) {
        None => true,
        Some(p) => eq_ignore_ascii(p@, "smtp"@) || eq_ignore_ascii(p@, "lmtp"@),
    }
    &&& tls_valid(spec, g)
}

/// What the built TLS table says about its raw table.
pub open spec fn tls_built(t: TlsSettings, spec: ListenerSpec, g: ServerDefaults) -> bool {
    &&& (or_opt(spec.tls_certificate, g.tls_certificate) matches Some(c)
        && t.certificate_id@ == c@)
    &&& (spec_proto_flags(raw_or_empty(or_opt(spec.tls_protocols, g.tls_protocols)))
        matches Some(flags) && t.versions == spec_version_choice(flags.0, flags.1))
    &&& t.ciphers@.len() == raw_or_empty(or_opt(spec.tls_ciphers, g.tls_ciphers)).len()
    &&& forall|i: int|
        0 <= i < t.ciphers@.len() ==> spec_cipher_of(
            raw_or_empty(or_opt(spec.tls_ciphers, g.tls_ciphers))[i]@,
        ) == Some(#[trigger] t.ciphers@[i])
    &&& t.sni@.len() == sni_or_empty(or_opt(spec.tls_sni, g.tls_sni)).len()
    &&& forall|i: int|
        0 <= i < t.sni@.len() ==> (#[trigger] t.sni@[i]).subject@ == sni_or_empty(
            or_opt(spec.tls_sni, g.tls_sni),
        )[i].subject@ && t.sni@[i].certificate_id@ == sni_or_empty(
            or_opt(spec.tls_sni, g.tls_sni),
        )[i].certificate_id@
    &&& t.ignore_client_order == (match or_opt(
        spec.tls_ignore_client_order,
        g.tls_ignore_client_order,
    ) {
        Some(b) => b,
        None => true,
    })
}

/// What the built server says about its raw table, field by field
/// (`internal_id` is assigned by the caller and not covered here).
pub open spec fn server_built(s: Server, spec: ListenerSpec, g: ServerDefaults) -> bool {
    &&& s.id@ == spec.id@
    &&& s.listeners@.len() == spec.binds@.len()
    &&& forall|i: int|
        0 <= i < spec.binds@.len() ==> (#[trigger] s.listeners@[i]).addr == spec.binds@[i]
            && s.listeners@[i].ttl == spec.ttl && s.listeners@[i].backlog == spec.backlog
    &&& (or_opt(spec.hostname, g.hostname) matches Some(h) && s.hostname@ == h@)
    &&& match or_opt(spec.greeting, g.greeting) {
        Some(gr) => s.greeting@ == gr@,
        None => s.greeting@ == "Stalwart SMTP at your service"@,
    }
    &&& match or_opt(spec.protocol, g.protocol) {
        None => s.protocol is Smtp,
        Some(p) => if eq_ignore_ascii(p@, "smtp"@) {
            s.protocol is Smtp
        } else {
            s.protocol is Lmtp
        },
    }
    &&& if !tls_on(spec, g) {
        s.tls is None && !s.tls_implicit
    } else {
        &&& s.tls_implicit == (match or_opt(spec.tls_implicit, g.tls_implicit) {
            Some(b) => b,
            None => true,
        })
        &&& (s.tls matches Some(t) && tls_built(t, spec, g))
    }
}

impl Config {
    /// Builds one listener's server, or says what its table lacks.
    /// Builds the TLS side of one listener: `None` with TLS off, else the
    /// settings and the implicit-TLS flag (on from the first byte unless
    /// configured otherwise).
    #[verifier::rlimit(100)]
    fn build_tls(&self, spec: &ListenerSpec) -> (r: Result<Option<(TlsSettings, bool)>, String>)
        ensures
            r is Ok <==> tls_valid(*spec, self.global),
            r matches Ok(None) ==> !tls_on(*spec, self.global),
            r matches Ok(Some(pair)) ==> tls_on(*spec, self.global) && tls_built(
                pair.0,
                *spec,
                self.global,
            ) && pair.1 == (match or_opt(spec.tls_implicit, self.global.tls_implicit) {
                Some(b) => b,
                None => true,
            }),
    {
        let g = &self.global;

        let tls_enabled = match (&spec.tls_enable, &g.tls_enable) {
            (Some(b), _) => *b,
            (None, Some(b)) => *b,
            (None, None) => false,
        };

        let tls: Option<TlsSettings> = if tls_enabled {
            let mut v2 = false;
            let mut v3 = false;
            let empty_strings: Vec<String> = Vec::new();
            let protocols: &Vec<String> = match (&spec.tls_protocols, &g.tls_protocols) {
                (Some(l), _) => l,
                (None, Some(l)) => l,
                (None, None) => &empty_strings,
            };
            let ghost protos_view = raw_or_empty(
                or_opt(spec.tls_protocols, self.global.tls_protocols),
            );
            proof {
                assert(protocols@ =~= protos_view);
            }
            let mut i: usize = 0;
            while i < protocols.len()
                invariant
                    i <= protocols@.len(),
                    protocols@ == protos_view,
                    protos_view == raw_or_empty(
                        or_opt(spec.tls_protocols, self.global.tls_protocols),
                    ),
                    tls_on(*spec, self.global),
                    spec_proto_flags(protos_view.take(i as int)) == Some((v2, v3)),
                decreases protocols@.len() - i,
            {
                let p = protocols[i].as_str();
                proof {
                    assert(protos_view.take(i + 1 as int).drop_last() =~= protos_view.take(
                        i as int,
                    ));
                    assert(protos_view.take(i + 1 as int).last() == protos_view[i as int]);
                }
                if str_eq(p, "TLSv1.2") || str_eq(p, "0x0303") {
                    v2 = true;
                } else if str_eq(p, "TLSv1.3") || str_eq(p, "0x0304") {
                    v3 = true;
                } else {
                    let mut e = String::new();
                    e.append("Unsupported TLS protocol: ");
                    e.append(p);
                    proof {
                        lemma_proto_flags_prefix_none(protos_view, i as int);
                        assert(spec_proto_flags(protos_view) is None);
                        assert(protos_view == raw_or_empty(
                            or_opt(spec.tls_protocols, self.global.tls_protocols),
                        ));
                        assert(!tls_valid(*spec, self.global));
                    }
                    return Err(e);
                }
                i = i + 1;
            }
            proof {
                assert(protos_view.take(protos_view.len() as int) =~= protos_view);
            }

            let empty_ciphers: Vec<String> = Vec::new();
            let raw_ciphers: &Vec<String> = match (&spec.tls_ciphers, &g.tls_ciphers) {
                (Some(l), _) => l,
                (None, Some(l)) => l,
                (None, None) => &empty_ciphers,
            };
            let ghost ciphers_view = raw_or_empty(
                or_opt(spec.tls_ciphers, self.global.tls_ciphers),
            );
            proof {
                assert(raw_ciphers@ =~= ciphers_view);
            }
            let mut ciphers: Vec<CipherSuite> = Vec::new();
            let mut j: usize = 0;
            while j < raw_ciphers.len()
                invariant
                    j <= raw_ciphers@.len(),
                    raw_ciphers@ == ciphers_view,
                    ciphers_view == raw_or_empty(
                        or_opt(spec.tls_ciphers, self.global.tls_ciphers),
                    ),
                    tls_on(*spec, self.global),
                    ciphers@.len() == j,
                    forall|k: int|
                        0 <= k < j ==> spec_cipher_of(ciphers_view[k]@) == Some(
                            #[trigger] ciphers@[k],
                        ),
                decreases raw_ciphers@.len() - j,
            {
                match CipherSuite::parse_value(raw_ciphers[j].as_str()) {
                    Ok(c) => {
                        ciphers.push(c);
                    },
                    Err(e) => {
                        proof {
                            assert(spec_cipher_of(ciphers_view[j as int]@) is None);
                            assert(ciphers_view == raw_or_empty(
                                or_opt(spec.tls_ciphers, self.global.tls_ciphers),
                            ));
                            assert(!tls_valid(*spec, self.global));
                        }
                        return Err(e);
                    },
                }
                j = j + 1;
            }
            proof {
                assert forall|i2: int|
                    0 <= i2 < raw_or_empty(
                        or_opt(spec.tls_ciphers, self.global.tls_ciphers),
                    ).len() implies spec_cipher_of(
                    #[trigger] raw_or_empty(
                        or_opt(spec.tls_ciphers, self.global.tls_ciphers),
                    )[i2]@,
                ) is Some by {
                    assert(spec_cipher_of(ciphers_view[i2]@) == Some(ciphers@[i2]));
                }
            }

            let certificate_id = match (&spec.tls_certificate, &g.tls_certificate) {
                (Some(c), _) => c.clone(),
                (None, Some(c)) => c.clone(),
                (None, None) => {
                    let mut e = String::new();
                    e.append("Undefined certificate id for listener: ");
                    e.append(spec.id.as_str());
                    return Err(e);
                },
            };

            let empty_sni: Vec<SniEntry> = Vec::new();
            let raw_sni: &Vec<SniEntry> = match (&spec.tls_sni, &g.tls_sni) {
                (Some(l), _) => l,
                (None, Some(l)) => l,
                (None, None) => &empty_sni,
            };
            let ghost sni_view = sni_or_empty(or_opt(spec.tls_sni, self.global.tls_sni));
            proof {
                assert(raw_sni@ =~= sni_view);
            }
            let mut sni: Vec<SniEntry> = Vec::new();
            let mut k: usize = 0;
            while k < raw_sni.len()
                invariant
                    k <= raw_sni@.len(),
                    raw_sni@ == sni_view,
                    sni@.len() == k,
                    forall|k2: int|
                        0 <= k2 < k ==> (#[trigger] sni@[k2]).subject@ == sni_view[k2].subject@
                            && sni@[k2].certificate_id@ == sni_view[k2].certificate_id@,
                decreases raw_sni@.len() - k,
            {
                let entry = SniEntry {
                    subject: raw_sni[k].subject.clone(),
                    certificate_id: raw_sni[k].certificate_id.clone(),
                };
                sni.push(entry);
                k = k + 1;
            }

            let ignore_client_order = match (&spec.tls_ignore_client_order,
                &g.tls_ignore_client_order) {
                (Some(b), _) => *b,
                (None, Some(b)) => *b,
                (None, None) => true,
            };

            let versions = if v3 == v2 {
                TlsVersionChoice::Both
            } else if v3 {
                TlsVersionChoice::V3Only
            } else {
                TlsVersionChoice::V2Only
            };

            Some(
                TlsSettings { versions, ciphers, certificate_id, sni, ignore_client_order },
            )
        } else {
            None
        };

        let tls_implicit = if tls_enabled {
            match (&spec.tls_implicit, &g.tls_implicit) {
                (Some(b), _) => *b,
                (None, Some(b)) => *b,
                (None, None) => true,
            }
        } else {
            false
        };
        match tls {
            Some(settings) => Ok(Some((settings, tls_implicit))),
            None => Ok(None),
        }
    }

    #[verifier::rlimit(100)]
    pub fn build_server(&self, spec: &ListenerSpec) -> (r: Result<Server, String>)
        ensures
            r is Ok <==> listener_valid(*spec, self.global),
            r matches Ok(s) ==> server_built(s, *spec, self.global) && s.internal_id == 0,
    {
        let (tls, tls_implicit): (Option<TlsSettings>, bool) = match self.build_tls(spec) {
            Ok(Some(pair)) => (Some(pair.0), pair.1),
            Ok(None) => (None, false),
            Err(e) => {
                return Err(e);
            },
        };
        let g = &self.global;

        if spec.binds.len() == 0 {
            let mut e = String::new();
            e.append("No bind directive found for listener: ");
            e.append(spec.id.as_str());
            return Err(e);
        }
        let mut listeners: Vec<Listener> = Vec::new();
        let mut b: usize = 0;
        while b < spec.binds.len()
            invariant
                b <= spec.binds@.len(),
                listeners@.len() == b,
                forall|i: int|
                    0 <= i < b ==> (#[trigger] listeners@[i]).addr == spec.binds@[i]
                        && listeners@[i].ttl == spec.ttl && listeners@[i].backlog == spec.backlog,
            decreases spec.binds@.len() - b,
        {
            listeners.push(
                Listener {
                    addr: spec.binds[b],
                    options: spec.options,
                    ttl: spec.ttl,
                    backlog: spec.backlog,
                },
            );
            b = b + 1;
        }

        let hostname = match (&spec.hostname, &g.hostname) {
            (Some(h), _) => h.clone(),
            (None, Some(h)) => h.clone(),
            (None, None) => {
                let mut e = String::new();
                e.append("Hostname directive not found.");
                return Err(e);
            },
        };

        let greeting = match (&spec.greeting, &g.greeting) {
            (Some(gr), _) => gr.clone(),
            (None, Some(gr)) => gr.clone(),
            (None, None) => {
                proof {
                    reveal_strlit("Stalwart SMTP at your service");
                }
                let mut s = String::new();
                s.append("Stalwart SMTP at your service");
                s
            },
        };

        let protocol = match (&spec.protocol, &g.protocol) {
            (Some(p), _) => match ServerProtocol::parse_value(p.as_str()) {
                Ok(proto) => proto,
                Err(e) => {
                    return Err(e);
                },
            },
            (None, Some(p)) => match ServerProtocol::parse_value(p.as_str()) {
                Ok(proto) => proto,
                Err(e) => {
                    return Err(e);
                },
            },
            (None, None) => ServerProtocol::Smtp,
        };

        Ok(
            Server {
                id: spec.id.clone(),
                internal_id: 0,
                hostname,
                greeting,
                protocol,
                listeners,
                tls,
                tls_implicit,
            },
        )
    }

    /// Builds every configured listener, refusing duplicate listener ids
    /// and an empty server section; each server is numbered in order.
    pub fn build_servers(&self) -> (r: Result<Vec<Server>, String>)
        ensures
            r is Ok <==> {
                &&& self.listeners@.len() > 0
                &&& forall|i: int|
                    0 <= i < self.listeners@.len() ==> listener_valid(
                        #[trigger] self.listeners@[i],
                        self.global,
                    )
                &&& forall|i: int, j: int|
                    0 <= i < j < self.listeners@.len() ==> (#[trigger] self.listeners@[i]).id@ != (
                    #[trigger] self.listeners@[j]).id@
            },
            r matches Ok(servers) ==> servers@.len() == self.listeners@.len() && forall|i: int|
                0 <= i < servers@.len() ==> server_built(
                    #[trigger] servers@[i],
                    self.listeners@[i],
                    self.global,
                ) && servers@[i].internal_id == i,
    {
        let mut servers: Vec<Server> = Vec::new();
        let mut i: usize = 0;
        while i < self.listeners.len()
            invariant
                i <= self.listeners@.len(),
                servers@.len() == i,
                forall|k: int|
                    0 <= k < i ==> server_built(
                        #[trigger] servers@[k],
                        self.listeners@[k],
                        self.global,
                    ) && servers@[k].internal_id == k,
                forall|k: int|
                    0 <= k < i ==> listener_valid(#[trigger] self.listeners@[k], self.global),
                forall|k1: int, k2: int|
                    0 <= k1 < k2 < i ==> (#[trigger] self.listeners@[k1]).id@ != (
                    #[trigger] self.listeners@[k2]).id@,
            decreases self.listeners@.len() - i,
        {
            let mut server = match self.build_server(&self.listeners[i]) {
                Ok(s) => s,
                Err(e) => {
                    return Err(e);
                },
            };
            let mut dup = false;
            let mut k: usize = 0;
            while k < servers.len()
                invariant
                    k <= servers@.len(),
                    server.id@ == self.listeners@[i as int].id@,
                    dup == exists|k2: int|
                        0 <= k2 < k && (#[trigger] servers@[k2]).id@ == server.id@,
                decreases servers@.len() - k,
            {
                if servers[k].id.eq(&server.id) {
                    dup = true;
                    proof {
                        assert((servers@[k as int]).id@ == server.id@);
                    }
                }
                k = k + 1;
            }
            if dup {
                let mut e = String::new();
                e.append("Duplicate listener id: ");
                e.append(server.id.as_str());
                proof {
                    let k2 = choose|k2: int|
                        0 <= k2 < servers@.len() && (#[trigger] servers@[k2]).id@ == server.id@;
                    assert(self.listeners@[k2].id@ == self.listeners@[i as int].id@);
                }
                return Err(e);
            }
            proof {
                assert forall|k2: int|
                    0 <= k2 < i implies (#[trigger] self.listeners@[k2]).id@
                    != self.listeners@[i as int].id@ by {
                    assert(server_built(servers@[k2], self.listeners@[k2], self.global));
                    assert(servers@[k2].id@ == self.listeners@[k2].id@);
                    assert(servers@[k2].id@ != server.id@);
                }
            }
            server.internal_id = i as u64;
            servers.push(server);
            i = i + 1;
        }
        if servers.len() == 0 {
            let mut e = String::new();
            e.append("No server directives found in config file.");
            return Err(e);
        }
        Ok(servers)
    }
}

proof fn lemma_proto_flags_prefix_none(protos: Seq<String>, i: int)
    requires
        0 <= i < protos.len(),
        spec_proto_flags(protos.take(i)) is Some,
        protos[i]@ != "TLSv1.2"@,
        protos[i]@ != "0x0303"@,
        protos[i]@ != "TLSv1.3"@,
        protos[i]@ != "0x0304"@,
    ensures
        spec_proto_flags(protos) is None,
    decreases protos.len(),
{
    if i == protos.len() - 1 {
        assert(protos.drop_last() =~= protos.take(i));
    } else {
        assert(protos.drop_last().take(i) =~= protos.take(i));
        assert(protos.drop_last()[i] == protos[i]);
        lemma_proto_flags_prefix_none(protos.drop_last(), i);
    }
}

} // verus!
