//! The NMX-C client side: endpoints, errors, TLS settings and the client pool
//! builder, with the decisions made when connecting.

use vstd::prelude::*;
use crate::time::Duration;

verus! {

#[verifier::external_type_specification]
#[verifier::external_body]
pub struct ExStatus(tonic::Status);

#[verifier::external_type_specification]
#[verifier::external_body]
pub struct ExTransportError(tonic::transport::Error);

#[verifier::external_type_specification]
#[verifier::external_body]
pub struct ExUri(http::Uri);

#[verifier::external_type_specification]
#[verifier::external_body]
pub struct ExInvalidUri(http::uri::InvalidUri);

/// `gateway_id` sent on NMX-C gRPC requests.
pub const NMX_C_GATEWAY_ID: &'static str = "carbide";

/// Seconds a connection attempt may take unless configured otherwise.
pub const DEFAULT_TIMEOUT_SECS: u64 = 30;

/// The context sent with an NMX-C request.
#[derive(Debug)]
pub struct Context {
    pub context: String,
}

/// The context sent when the caller gives none: an empty one.
pub fn default_context() -> (c: Context)
    ensures
        c.context@ == Seq::<char>::empty(),
{
    Context { context: String::new() }
}

/// The caller's context, or the default one.
pub fn context_or_default(c: Option<Context>) -> (r: Context)
    ensures
        r.context@ == match c {
            Some(x) => x.context@,
            None => Seq::<char>::empty(),
        },
{
    match c {
        Some(x) => x,
        None => default_context(),
    }
}

/// Errors of the NMX-C client.
#[derive(Debug)]
pub enum NmxcError {
    InvalidEndpoint(String),
    Transport(tonic::transport::Error),
    Status(tonic::Status),
    Uninitialized,
}

/// The status `tonic::Status::unknown` builds for message `msg`: code
/// `Unknown`, that message, no details, no metadata and no source.
pub uninterp spec fn unknown_status_for(msg: Seq<char>) -> tonic::Status;

/// `tonic::Status::unknown`: the status it builds depends on the message
/// alone (`unknown_status_for`). Its code and message are not stated here:
/// a status is opaque to the library.
#[verifier::external_body]
fn unknown_status(msg: String) -> (s: tonic::Status)
    ensures
        s == unknown_status_for(msg@),
{
    tonic::Status::unknown(msg)
}

impl NmxcError {
    /// An error for an invalid or missing response from the server: a gRPC
    /// status of code `Unknown` carrying `msg`.
    pub fn invalid_response(msg: String) -> (e: NmxcError)
        ensures
            e == NmxcError::Status(unknown_status_for(msg@)),
    {
        NmxcError::Status(unknown_status(msg))
    }
}

/// The `Display` text of a gRPC status (its code, its message and, when
/// there is one, its source; details and metadata are left out); it depends
/// on the status alone.
pub uninterp spec fn status_display(s: tonic::Status) -> Seq<char>;

/// `tonic::Status`'s `Display` text, `status_display`. What it says is not
/// stated here.
#[verifier::external_body]
pub(crate) fn status_text(s: &tonic::Status) -> (t: String)
    ensures
        t@ == status_display(*s),
{
    s.to_string()
}

/// The `Display` text of a transport error; it depends on the error alone.
pub uninterp spec fn transport_display(e: tonic::transport::Error) -> Seq<char>;

/// `tonic::transport::Error`'s `Display` text, `transport_display`. What it
/// says is not stated here.
#[verifier::external_body]
fn transport_text(e: &tonic::transport::Error) -> (t: String)
    ensures
        t@ == transport_display(*e),
{
    e.to_string()
}

impl NmxcError {
    /// The error's message.
    pub fn message(&self) -> (m: String)
        ensures
            self matches NmxcError::InvalidEndpoint(u) ==> m@ == "Invalid endpoint URL: "@ + u@,
            self is Uninitialized ==> m@ == "Connection not initialized"@,
            *self matches NmxcError::Transport(t) ==> m@ == "Transport error: "@ + transport_display(t),
            *self matches NmxcError::Status(st) ==> m@ == "gRPC status: "@ + status_display(st),
    {
        match self {
            NmxcError::InvalidEndpoint(u) => String::from_str("Invalid endpoint URL: ").concat(u.as_str()),
            NmxcError::Transport(e) => String::from_str("Transport error: ").concat(transport_text(e).as_str()),
            NmxcError::Status(s) => String::from_str("gRPC status: ").concat(status_text(s).as_str()),
            NmxcError::Uninitialized => String::from_str("Connection not initialized"),
        }
    }
}

/// What parsing `text` as an `http::Uri` gives; it depends on the text alone.
pub uninterp spec fn uri_parse(text: Seq<char>) -> Result<http::Uri, http::uri::InvalidUri>;

/// Whether `http::Uri` accepts `text` as a URI.
pub open spec fn uri_accepts(text: Seq<char>) -> bool {
    uri_parse(text) is Ok
}

/// The URI parsed from an accepted `text`.
pub open spec fn parsed_uri(text: Seq<char>) -> http::Uri {
    match uri_parse(text) {
        Ok(u) => u,
        Err(_) => arbitrary(),
    }
}

/// `str::parse::<http::Uri>`, `uri_parse`.
#[verifier::external_body]
fn parse_uri(url: &str) -> (r: Result<http::Uri, http::uri::InvalidUri>)
    ensures
        r == uri_parse(url@),
{
    url.parse::<http::Uri>()
}

/// The `Display` text of a URI parse error: a fixed description of the
/// kind of error; it depends on the error alone.
pub uninterp spec fn invalid_uri_display(e: http::uri::InvalidUri) -> Seq<char>;

/// The description of why `text` is not a URI.
pub open spec fn parse_error_text(text: Seq<char>) -> Seq<char> {
    match uri_parse(text) {
        Ok(_) => Seq::empty(),
        Err(e) => invalid_uri_display(e),
    }
}

/// `InvalidUri`'s `Display` text, `invalid_uri_display`.
#[verifier::external_body]
fn invalid_uri_text(e: &http::uri::InvalidUri) -> (t: String)
    ensures
        t@ == invalid_uri_display(*e),
{
    e.to_string()
}

/// An NMX-C gRPC endpoint.
pub struct Endpoint {
    /// Base URI of the NMX-C gRPC service (e.g. `https://host:50051`).
    pub uri: http::Uri,
    /// The text the URI was parsed from.
    pub text: Ghost<Seq<char>>,
}

impl Endpoint {
    /// Parse `url`; an unparsable URL gives `InvalidEndpoint` with the URL,
    /// ": " and why it is not a URI.
    pub fn new(url: &str) -> (r: Result<Endpoint, NmxcError>)
        ensures
            r is Ok <==> uri_accepts(url@),
            r matches Ok(e) ==> e.uri == parsed_uri(url@) && e.text@ == url@,
            r matches Err(e) ==> (e matches NmxcError::InvalidEndpoint(msg) && msg@ == url@ + ": "@ + parse_error_text(url@)),
    {
        match parse_uri(url) {
            Ok(uri) => Ok(Endpoint { uri, text: Ghost(url@) }),
            Err(e) => {
                let detail = invalid_uri_text(&e);
                let msg = String::from_str(url).concat(": ").concat(detail.as_str());
                Err(NmxcError::InvalidEndpoint(msg))
            },
        }
    }
}

/// Optional TLS settings for HTTPS connections to NMX-C: an extra CA bundle,
/// a client certificate and key for mutual TLS, and the server name to verify.
#[derive(Debug)]
pub struct NmxcTlsConfig {
    pub ca_cert_path: Option<String>,
    pub client_cert_path: Option<String>,
    pub client_key_path: Option<String>,
    pub authority: Option<String>,
}

pub struct TlsView {
    pub ca_cert_path: Option<Seq<char>>,
    pub client_cert_path: Option<Seq<char>>,
    pub client_key_path: Option<Seq<char>>,
    pub authority: Option<Seq<char>>,
}

pub open spec fn opt_text(o: Option<String>) -> Option<Seq<char>> {
    match o {
        Some(s) => Some(s@),
        None => None,
    }
}

impl View for NmxcTlsConfig {
    type V = TlsView;

    open spec fn view(&self) -> TlsView {
        TlsView {
            ca_cert_path: opt_text(self.ca_cert_path),
            client_cert_path: opt_text(self.client_cert_path),
            client_key_path: opt_text(self.client_key_path),
            authority: opt_text(self.authority),
        }
    }
}

pub fn copy_opt_string(o: &Option<String>) -> (r: Option<String>)
    ensures
        opt_text(r) == opt_text(*o),
{
    match o {
        Some(s) => Some(s.clone()),
        None => None,
    }
}

impl NmxcTlsConfig {
    pub fn duplicate(&self) -> (r: NmxcTlsConfig)
        ensures
            r@ == self@,
    {
        NmxcTlsConfig {
            ca_cert_path: copy_opt_string(&self.ca_cert_path),
            client_cert_path: copy_opt_string(&self.client_cert_path),
            client_key_path: copy_opt_string(&self.client_key_path),
            authority: copy_opt_string(&self.authority),
        }
    }
}

pub open spec fn opt_tls(o: Option<NmxcTlsConfig>) -> Option<TlsView> {
    match o {
        Some(t) => Some(t@),
        None => None,
    }
}

/// Settings for an `NmxcClientPool`.
#[derive(Debug)]
pub struct NmxcClientPoolBuilder {
    pub timeout: Duration,
    pub tls: Option<NmxcTlsConfig>,
}

impl NmxcClientPoolBuilder {
    /// The default settings: a 30 second connect timeout and no TLS settings.
    pub fn default_settings() -> (b: NmxcClientPoolBuilder)
        ensures
            b.timeout@ == 30_000_000_000,
            b.tls is None,
    {
        NmxcClientPoolBuilder { timeout: Duration::from_secs(DEFAULT_TIMEOUT_SECS), tls: None }
    }

    /// The pool with these settings.
    pub fn build(self) -> (r: Result<NmxcClientPool, NmxcError>)
        ensures
            r matches Ok(pool) && pool.timeout_spec() == self.timeout && opt_tls(pool.tls_spec())
                == opt_tls(self.tls),
    {
        Ok(NmxcClientPool { timeout: self.timeout, tls: self.tls })
    }

    pub fn timeout(self, timeout: Duration) -> (b: NmxcClientPoolBuilder)
        ensures
            b.timeout == timeout,
            opt_tls(b.tls) == opt_tls(self.tls),
    {
        let mut b = self;
        b.timeout = timeout;
        b
    }

    pub fn tls(self, tls: NmxcTlsConfig) -> (b: NmxcClientPoolBuilder)
        ensures
            b.timeout == self.timeout,
            opt_tls(b.tls) == Some(tls@),
    {
        let mut b = self;
        b.tls = Some(tls);
        b
    }
}

impl Default for NmxcClientPoolBuilder {
    fn default() -> (b: NmxcClientPoolBuilder)
        ensures
            b.timeout@ == 30_000_000_000,
            b.tls is None,
    {
        NmxcClientPoolBuilder::default_settings()
    }
}

/// Creates NMX-C clients with fixed connection settings.
#[derive(Debug)]
pub struct NmxcClientPool {
    timeout: Duration,
    tls: Option<NmxcTlsConfig>,
}

impl NmxcClientPool {
    pub closed spec fn timeout_spec(&self) -> Duration {
        self.timeout
    }

    pub closed spec fn tls_spec(&self) -> Option<NmxcTlsConfig> {
        self.tls
    }

    pub fn builder() -> (b: NmxcClientPoolBuilder)
        ensures
            b.timeout@ == 30_000_000_000,
            b.tls is None,
    {
        NmxcClientPoolBuilder::default_settings()
    }

    pub fn connect_timeout(&self) -> (d: Duration)
        ensures
            d == self.timeout_spec(),
    {
        self.timeout
    }

    pub fn tls_settings(&self) -> (t: Option<NmxcTlsConfig>)
        ensures
            opt_tls(t) == opt_tls(self.tls_spec()),
    {
        match &self.tls {
            Some(t) => Some(t.duplicate()),
            None => None,
        }
    }
}

/// The code of ASCII-lower-cased character code `u`.
pub open spec fn ascii_lower_code(u: u32) -> u32 {
    if 65 <= u <= 90 {
        (u + 32) as u32
    } else {
        u
    }
}

/// The character codes of "https".
pub open spec fn https_codes() -> Seq<u32> {
    seq![104u32, 116u32, 116u32, 112u32, 115u32]
}

/// `str::eq_ignore_ascii_case(s, "https")`.
pub open spec fn is_https(s: Seq<char>) -> bool {
    s.len() == 5 && forall|i: int| 0 <= i < 5 ==> ascii_lower_code(#[trigger] s[i] as u32) == https_codes()[i]
}

/// Whether a connection to a URI with scheme `scheme` (none counts as "http") uses TLS.
pub open spec fn uses_tls(scheme: Option<Seq<char>>) -> bool {
    match scheme {
        Some(s) => is_https(s),
        None => false,
    }
}

/// Whether connecting to a URI with scheme `scheme` goes over TLS: the scheme
/// is "https" in any ASCII case; a URI without scheme is taken as "http".
pub fn connection_uses_tls(scheme: Option<&str>) -> (b: bool)
    ensures
        b == uses_tls(match scheme {
            Some(s) => Some(s@),
            None => None,
        }),
{
    let s = match scheme {
        Some(s) => s,
        None => {
            return false;
        },
    };
    if s.unicode_len() != 5 {
        return false;
    }
    let codes: [u32; 5] = [104, 116, 116, 112, 115];
    assert(codes@ =~= https_codes());
    let mut i: usize = 0;
    while i < 5
        invariant
            s@.len() == 5,
            scheme matches Some(x) && x@ == s@,
            codes@ == https_codes(),
            i <= 5,
            forall|j: int| 0 <= j < i ==> ascii_lower_code(#[trigger] s@[j] as u32) == https_codes()[j],
        decreases 5 - i,
    {
        let u = s.get_char(i) as u32;
        let lower = if 65 <= u && u <= 90 {
            u + 32
        } else {
            u
        };
        assert(lower == ascii_lower_code(s@[i as int] as u32));
        if lower != codes[i] {
            assert(codes@[i as int] == https_codes()[i as int]);
            assert(ascii_lower_code(s@[i as int] as u32) != https_codes()[i as int]);
            assert(!is_https(s@));
            return false;
        }
        i = i + 1;
    }
    true
}

/// Why a client certificate and key could not be used together.
pub open spec fn mtls_pair_message() -> Seq<char> {
    "NMX-C TLS client cert path and key path must both be set for mTLS"@
}

/// The client certificate and key paths to present for mutual TLS: both or
/// neither must be set.
pub fn client_identity_paths(cert: &Option<String>, key: &Option<String>) -> (r: Result<Option<(String, String)>, NmxcError>)
    ensures
        match (*cert, *key) {
            (Some(c), Some(k)) => r matches Ok(Some(p)) && p.0@ == c@ && p.1@ == k@,
            (None, None) => r matches Ok(None),
            _ => r matches Err(NmxcError::InvalidEndpoint(m)) && m@ == mtls_pair_message(),
        },
{
    match (cert, key) {
        (Some(c), Some(k)) => Ok(Some((c.clone(), k.clone()))),
        (None, None) => Ok(None),
        _ => Err(NmxcError::InvalidEndpoint(String::from_str("NMX-C TLS client cert path and key path must both be set for mTLS"))),
    }
}

/// The TLS server name to verify: the configured authority, else the URI's
/// host; an empty name means none.
pub open spec fn tls_domain(authority: Option<Seq<char>>, host: Option<Seq<char>>) -> Option<Seq<char>> {
    let d = match authority {
        Some(a) => Some(a),
        None => host,
    };
    match d {
        Some(x) => if x.len() > 0 {
            Some(x)
        } else {
            None
        },
        None => None,
    }
}

pub fn tls_domain_name(authority: &Option<String>, host: Option<&str>) -> (r: Option<String>)
    ensures
        opt_text(r) == tls_domain(opt_text(*authority), match host {
            Some(h) => Some(h@),
            None => None,
        }),
{
    let d = match authority {
        Some(a) => Some(a.clone()),
        None => match host {
            Some(h) => Some(String::from_str(h)),
            None => None,
        },
    };
    match d {
        Some(x) => if x.as_str().unicode_len() > 0 {
            Some(x)
        } else {
            None
        },
        None => None,
    }
}

} // verus!
