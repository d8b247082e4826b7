//! Pinned, bounded HTTPS acquisition for signed declarative Skill packages.

use vstd::prelude::*;

use crate::error::{settles, ErrorView, HarnessError};
use crate::runtime::route::invalid_configuration;
use crate::secret::SecretValue;
use crate::text::{byte_len, same_text, utf8_len};
use crate::time::{Duration, NANOS_PER_MILLI};

verus! {

/// Longest accepted endpoint, in bytes.
pub const MAX_HTTPS_SKILL_URL_BYTES: usize = 8_192;

/// Largest number of response bytes that may be retained.
pub const MAX_HTTPS_SKILL_RESPONSE_BYTES: usize = 16_777_216;

/// Largest number of requests at the same time.
pub const MAX_HTTPS_SKILL_CONCURRENCY: usize = 64;

/// Longest request time, in milliseconds.
pub const MAX_HTTPS_SKILL_TIMEOUT_MS: u64 = 300_000;

/// Largest certificate bundle, in bytes.
pub const MAX_ROOT_CA_PEM_BYTES: usize = 1_048_576;

/// Largest number of certificates in a bundle.
pub const MAX_ROOT_CA_CERTIFICATES: usize = 64;

/// Default request time, in milliseconds.
pub const DEFAULT_REQUEST_TIMEOUT_MS: u64 = 30_000;

/// Default connect time, in milliseconds.
pub const DEFAULT_CONNECT_TIMEOUT_MS: u64 = 10_000;

/// Default number of requests at the same time.
pub const DEFAULT_MAX_CONCURRENCY: usize = 8;

/// Parts of a URL that the policy looks at.
#[derive(Debug)]
pub struct UrlParts {
    /// Scheme in lower case.
    pub scheme: String,
    /// Whether there is a host.
    pub has_host: bool,
    /// User name, empty where there is none.
    pub username: String,
    /// Whether there is a password.
    pub has_password: bool,
    /// Whether there is a query.
    pub has_query: bool,
    /// Whether there is a fragment.
    pub has_fragment: bool,
}

/// Scheme, host, user name, password, query and fragment of a text, where it
/// is an absolute URL.
pub uninterp spec fn url_parts(text: Seq<char>) -> Option<(Seq<char>, bool, Seq<char>, bool, bool, bool)>;

/// Parts as values.
pub open spec fn parts_view(parts: UrlParts) -> (Seq<char>, bool, Seq<char>, bool, bool, bool) {
    (parts.scheme@, parts.has_host, parts.username@, parts.has_password, parts.has_query, parts.has_fragment)
}

/// `reqwest::Url::parse`, and the accessors of the URL. Which texts are URLs,
/// and what their parts are, is left unsaid.
#[verifier::external_body]
fn parse_url(text: &str) -> (parts: Option<UrlParts>)
    ensures
        match parts {
            Some(parts) => url_parts(text@) == Some(parts_view(parts)),
            None => url_parts(text@) is None,
        },
{
    let url = reqwest::Url::parse(text).ok()?;
    Some(UrlParts {
        scheme: url.scheme().to_owned(),
        has_host: url.host_str().is_some(),
        username: url.username().to_owned(),
        has_password: url.password().is_some(),
        has_query: url.query().is_some(),
        has_fragment: url.fragment().is_some(),
    })
}

/// Number of certificates in a PEM bundle, where it is well formed.
pub uninterp spec fn pem_certificates(pem: Seq<u8>) -> Option<nat>;

/// `reqwest::Certificate::from_pem_bundle`: the number of certificates that it
/// finds. Which bundles are well formed is left unsaid.
#[verifier::external_body]
fn count_certificates(pem: &[u8]) -> (count: Option<usize>)
    ensures
        match count {
            Some(count) => pem_certificates(pem@) == Some(count as nat),
            None => pem_certificates(pem@) is None,
        },
{
    reqwest::Certificate::from_pem_bundle(pem).ok().map(|certificates| certificates.len())
}

/// Outcome of holding the parts of an endpoint against the policy.
pub open spec fn endpoint_check(parts: Option<(Seq<char>, bool, Seq<char>, bool, bool, bool)>) -> Result<(), ErrorView> {
    match parts {
        None => Err(ErrorView::InvalidConfiguration("HTTPS Skill source must be an absolute URL"@)),
        Some((scheme, has_host, username, has_password, has_query, has_fragment)) => if scheme != "https"@ || !has_host
            || username.len() > 0 || has_password || has_query || has_fragment {
            Err(
                ErrorView::InvalidConfiguration(
                    "Skill source must use HTTPS with a host and no userinfo, query, or fragment"@,
                ),
            )
        } else {
            Ok(())
        },
    }
}

/// Holds the parts of an endpoint against the policy.
pub fn validate_endpoint(parts: &Option<UrlParts>) -> (result: Result<(), HarnessError>)
    ensures
        settles(
            result,
            endpoint_check(
                match *parts {
                    Some(parts) => Some(parts_view(parts)),
                    None => None,
                },
            ),
        ),
{
    match parts {
        None => Err(invalid_configuration("HTTPS Skill source must be an absolute URL")),
        Some(parts) => {
            if !same_text(parts.scheme.as_str(), "https") || !parts.has_host || parts.username.as_str().unicode_len() > 0
                || parts.has_password || parts.has_query || parts.has_fragment {
                return Err(
                    invalid_configuration(
                        "Skill source must use HTTPS with a host and no userinfo, query, or fragment",
                    ),
                );
            }
            Ok(())
        },
    }
}

/// Outcome of checking the number of certificates in a bundle.
pub open spec fn certificate_count_check(count: Option<nat>) -> Result<(), ErrorView> {
    match count {
        None => Err(ErrorView::InvalidConfiguration("exclusive Skill source root CA bundle is not valid PEM"@)),
        Some(count) => if count == 0 || count > MAX_ROOT_CA_CERTIFICATES {
            Err(
                ErrorView::InvalidConfiguration(
                    "exclusive Skill source root CA bundle must contain 1-64 certificates"@,
                ),
            )
        } else {
            Ok(())
        },
    }
}

/// Checks the number of certificates in a bundle.
pub fn validate_certificate_count(count: Option<usize>) -> (result: Result<(), HarnessError>)
    ensures
        settles(
            result,
            certificate_count_check(
                match count {
                    Some(count) => Some(count as nat),
                    None => None,
                },
            ),
        ),
{
    match count {
        None => Err(invalid_configuration("exclusive Skill source root CA bundle is not valid PEM")),
        Some(count) => {
            if count == 0 || count > MAX_ROOT_CA_CERTIFICATES {
                return Err(
                    invalid_configuration("exclusive Skill source root CA bundle must contain 1-64 certificates"),
                );
            }
            Ok(())
        },
    }
}

/// Outcome of checking a certificate bundle.
pub open spec fn bundle_check(pem: Seq<u8>) -> Result<(), ErrorView> {
    if pem.len() == 0 || pem.len() > MAX_ROOT_CA_PEM_BYTES {
        Err(ErrorView::InvalidConfiguration("exclusive Skill source root CA bundle must be 1-1048576 bytes"@))
    } else {
        certificate_count_check(pem_certificates(pem))
    }
}

fn validate_bundle(pem: &Vec<u8>) -> (result: Result<(), HarnessError>)
    ensures
        settles(result, bundle_check(pem@)),
{
    if pem.len() == 0 || pem.len() > MAX_ROOT_CA_PEM_BYTES {
        return Err(invalid_configuration("exclusive Skill source root CA bundle must be 1-1048576 bytes"));
    }
    validate_certificate_count(count_certificates(pem.as_slice()))
}

/// Validated policy for one exact remote signed-package URL.
pub struct HttpsSkillSourceConfig {
    endpoint: String,
    request_timeout: Duration,
    connect_timeout: Duration,
    max_response_bytes: usize,
    max_concurrency: usize,
    exclusive_root_ca_pem: Option<Vec<u8>>,
}

/// Policy as values.
pub struct ConfigView {
    /// Exact endpoint.
    pub endpoint: Seq<char>,
    /// Total time of a request.
    pub request_timeout: Duration,
    /// Time for connecting.
    pub connect_timeout: Duration,
    /// Largest number of retained response bytes.
    pub max_response_bytes: usize,
    /// Largest number of requests at the same time.
    pub max_concurrency: usize,
    /// Certificates that are trusted exclusively.
    pub exclusive_root_ca_pem: Option<Seq<u8>>,
}

impl View for HttpsSkillSourceConfig {
    type V = ConfigView;

    closed spec fn view(&self) -> ConfigView {
        ConfigView {
            endpoint: self.endpoint@,
            request_timeout: self.request_timeout,
            connect_timeout: self.connect_timeout,
            max_response_bytes: self.max_response_bytes,
            max_concurrency: self.max_concurrency,
            exclusive_root_ca_pem: optional_bytes(self.exclusive_root_ca_pem),
        }
    }
}

/// Optional bytes as a value.
pub open spec fn optional_bytes(bytes: Option<Vec<u8>>) -> Option<Seq<u8>> {
    match bytes {
        Some(bytes) => Some(bytes@),
        None => None,
    }
}

impl Clone for HttpsSkillSourceConfig {
    fn clone(&self) -> (result: Self)
        ensures
            result@ == self@,
    {
        proof {
            use_type_invariant(self);
        }
        let exclusive_root_ca_pem = match &self.exclusive_root_ca_pem {
            Some(pem) => Some(vstd::slice::slice_to_vec(pem.as_slice())),
            None => None,
        };
        assert(optional_bytes(exclusive_root_ca_pem) == optional_bytes(self.exclusive_root_ca_pem));
        HttpsSkillSourceConfig {
            endpoint: self.endpoint.clone(),
            request_timeout: self.request_timeout,
            connect_timeout: self.connect_timeout,
            max_response_bytes: self.max_response_bytes,
            max_concurrency: self.max_concurrency,
            exclusive_root_ca_pem,
        }
    }
}

/// Outcome of checking a policy: the first check that fails decides.
pub open spec fn config_check(config: ConfigView) -> Result<(), ErrorView> {
    if utf8_len(config.endpoint) > MAX_HTTPS_SKILL_URL_BYTES {
        Err(ErrorView::InvalidConfiguration("Skill source URL exceeds 8192 bytes"@))
    } else if endpoint_check(url_parts(config.endpoint)) is Err {
        endpoint_check(url_parts(config.endpoint))
    } else if config.request_timeout.nanos() < NANOS_PER_MILLI || config.request_timeout.nanos() > MAX_HTTPS_SKILL_TIMEOUT_MS
        * NANOS_PER_MILLI || config.connect_timeout.nanos() < NANOS_PER_MILLI || config.connect_timeout.nanos()
        > config.request_timeout.nanos() {
        Err(
            ErrorView::InvalidConfiguration(
                "Skill source timeouts require 1 millisecond <= connect <= request <= 300 seconds"@,
            ),
        )
    } else if !(1 <= config.max_response_bytes <= MAX_HTTPS_SKILL_RESPONSE_BYTES) {
        Err(ErrorView::InvalidConfiguration("Skill response limit must be 1-16777216 bytes"@))
    } else if !(1 <= config.max_concurrency <= MAX_HTTPS_SKILL_CONCURRENCY) {
        Err(ErrorView::InvalidConfiguration("Skill source concurrency must be 1-64"@))
    } else {
        match config.exclusive_root_ca_pem {
            Some(pem) => bundle_check(pem),
            None => Ok(()),
        }
    }
}

/// Policy that a source has by default.
pub open spec fn is_default_config(config: ConfigView, endpoint: Seq<char>) -> bool {
    &&& config.endpoint == endpoint
    &&& config.request_timeout.nanos() == DEFAULT_REQUEST_TIMEOUT_MS * NANOS_PER_MILLI
    &&& config.connect_timeout.nanos() == DEFAULT_CONNECT_TIMEOUT_MS * NANOS_PER_MILLI
    &&& config.max_response_bytes == MAX_HTTPS_SKILL_RESPONSE_BYTES
    &&& config.max_concurrency == DEFAULT_MAX_CONCURRENCY
    &&& config.exclusive_root_ca_pem is None
}

impl HttpsSkillSourceConfig {
    #[verifier::type_invariant]
    spec fn accepted(self) -> bool {
        config_check(self@) is Ok
    }

    /// Creates conservative defaults for one operator-configured HTTPS URL.
    pub fn new(endpoint: String) -> (result: Result<Self, HarnessError>)
        ensures
            exists|config: ConfigView| #[trigger]
                is_default_config(config, endpoint@) && match result {
                    Ok(accepted) => config_check(config) is Ok && accepted@ == config,
                    Err(error) => config_check(config) == Err::<(), ErrorView>(error@),
                },
    {
        let request_timeout = Duration::from_millis(DEFAULT_REQUEST_TIMEOUT_MS);
        let connect_timeout = Duration::from_millis(DEFAULT_CONNECT_TIMEOUT_MS);
        proof {
            let config = ConfigView {
                endpoint: endpoint@,
                request_timeout,
                connect_timeout,
                max_response_bytes: MAX_HTTPS_SKILL_RESPONSE_BYTES,
                max_concurrency: DEFAULT_MAX_CONCURRENCY,
                exclusive_root_ca_pem: None,
            };
            assert(is_default_config(config, endpoint@));
        }
        Self::checked(
            endpoint,
            request_timeout,
            connect_timeout,
            MAX_HTTPS_SKILL_RESPONSE_BYTES,
            DEFAULT_MAX_CONCURRENCY,
            None,
        )
    }

    fn checked(
        endpoint: String,
        request_timeout: Duration,
        connect_timeout: Duration,
        max_response_bytes: usize,
        max_concurrency: usize,
        exclusive_root_ca_pem: Option<Vec<u8>>,
    ) -> (result: Result<Self, HarnessError>)
        ensures
            ({
                let config = ConfigView {
                    endpoint: endpoint@,
                    request_timeout,
                    connect_timeout,
                    max_response_bytes,
                    max_concurrency,
                    exclusive_root_ca_pem: optional_bytes(exclusive_root_ca_pem),
                };
                match result {
                    Ok(accepted) => config_check(config) is Ok && accepted@ == config,
                    Err(error) => config_check(config) == Err::<(), ErrorView>(error@),
                }
            }),
    {
        match validate_config(
            endpoint.as_str(),
            request_timeout,
            connect_timeout,
            max_response_bytes,
            max_concurrency,
            &exclusive_root_ca_pem,
        ) {
            Ok(()) => Ok(
                HttpsSkillSourceConfig {
                    endpoint,
                    request_timeout,
                    connect_timeout,
                    max_response_bytes,
                    max_concurrency,
                    exclusive_root_ca_pem,
                },
            ),
            Err(error) => Err(error),
        }
    }

    /// Replaces transport time, response-retention, and concurrency bounds.
    pub fn with_limits(
        self,
        request_timeout: Duration,
        connect_timeout: Duration,
        max_response_bytes: usize,
        max_concurrency: usize,
    ) -> (result: Result<Self, HarnessError>)
        ensures
            match result {
                Ok(config) => config_check(
                    (ConfigView { request_timeout, connect_timeout, max_response_bytes, max_concurrency, ..self@ }),
                ) is Ok && config@ == (ConfigView {
                    request_timeout,
                    connect_timeout,
                    max_response_bytes,
                    max_concurrency,
                    ..self@
                }),
                Err(error) => config_check(
                    (ConfigView { request_timeout, connect_timeout, max_response_bytes, max_concurrency, ..self@ }),
                ) == Err::<(), ErrorView>(error@),
            },
    {
        Self::checked(
            self.endpoint,
            request_timeout,
            connect_timeout,
            max_response_bytes,
            max_concurrency,
            self.exclusive_root_ca_pem,
        )
    }

    /// Trusts only the supplied bounded PEM CA bundle for this source.
    ///
    /// This is intended for an operator-configured private Registry. Ambient
    /// native and WebPKI roots are disabled when this option is present.
    pub fn with_exclusive_root_certificates_pem(self, pem: Vec<u8>) -> (result: Result<Self, HarnessError>)
        ensures
            match result {
                Ok(config) => config_check((ConfigView { exclusive_root_ca_pem: Some(pem@), ..self@ })) is Ok && config@ == (
                ConfigView { exclusive_root_ca_pem: Some(pem@), ..self@ }),
                Err(error) => config_check((ConfigView { exclusive_root_ca_pem: Some(pem@), ..self@ })) == Err::<
                    (),
                    ErrorView,
                >(error@),
            },
    {
        Self::checked(
            self.endpoint,
            self.request_timeout,
            self.connect_timeout,
            self.max_response_bytes,
            self.max_concurrency,
            Some(pem),
        )
    }

    /// Returns the exact credential-free endpoint.
    pub fn endpoint(&self) -> (endpoint: &str)
        ensures
            endpoint@ == self@.endpoint,
    {
        self.endpoint.as_str()
    }

    /// Returns the total time of a request.
    pub fn request_timeout(&self) -> (timeout: Duration)
        ensures
            timeout == self@.request_timeout,
    {
        self.request_timeout
    }

    /// Returns the time for connecting.
    pub fn connect_timeout(&self) -> (timeout: Duration)
        ensures
            timeout == self@.connect_timeout,
    {
        self.connect_timeout
    }

    /// Returns the largest number of retained response bytes.
    pub fn max_response_bytes(&self) -> (limit: usize)
        ensures
            limit == self@.max_response_bytes,
    {
        self.max_response_bytes
    }

    /// Returns the largest number of requests at the same time.
    pub fn max_concurrency(&self) -> (limit: usize)
        ensures
            limit == self@.max_concurrency,
    {
        self.max_concurrency
    }

    /// Returns the certificates that are trusted exclusively.
    pub fn exclusive_root_ca_pem(&self) -> (pem: Option<&Vec<u8>>)
        ensures
            match pem {
                Some(pem) => self@.exclusive_root_ca_pem == Some(pem@),
                None => self@.exclusive_root_ca_pem is None,
            },
    {
        match &self.exclusive_root_ca_pem {
            Some(pem) => Some(pem),
            None => None,
        }
    }

    /// Checks the policy again. It never fails: a policy that would is not
    /// created.
    pub fn validate(&self) -> (result: Result<(), HarnessError>)
        ensures
            settles(result, config_check(self@)),
            result is Ok,
    {
        proof {
            use_type_invariant(self);
        }
        validate_config(
            self.endpoint.as_str(),
            self.request_timeout,
            self.connect_timeout,
            self.max_response_bytes,
            self.max_concurrency,
            &self.exclusive_root_ca_pem,
        )
    }
}

fn validate_config(
    endpoint: &str,
    request_timeout: Duration,
    connect_timeout: Duration,
    max_response_bytes: usize,
    max_concurrency: usize,
    exclusive_root_ca_pem: &Option<Vec<u8>>,
) -> (result: Result<(), HarnessError>)
    ensures
        settles(
            result,
            config_check(
                (ConfigView {
                    endpoint: endpoint@,
                    request_timeout,
                    connect_timeout,
                    max_response_bytes,
                    max_concurrency,
                    exclusive_root_ca_pem: optional_bytes(*exclusive_root_ca_pem),
                }),
            ),
        ),
{
    if byte_len(endpoint) > MAX_HTTPS_SKILL_URL_BYTES {
        return Err(invalid_configuration("Skill source URL exceeds 8192 bytes"));
    }
    if let Err(error) = validate_endpoint(&parse_url(endpoint)) {
        return Err(error);
    }
    let request: u128 = request_timeout.as_nanos();
    let connect: u128 = connect_timeout.as_nanos();
    if request < NANOS_PER_MILLI || request > MAX_HTTPS_SKILL_TIMEOUT_MS as u128 * NANOS_PER_MILLI || connect
        < NANOS_PER_MILLI || connect > request {
        return Err(
            invalid_configuration("Skill source timeouts require 1 millisecond <= connect <= request <= 300 seconds"),
        );
    }
    if max_response_bytes < 1 || max_response_bytes > MAX_HTTPS_SKILL_RESPONSE_BYTES {
        return Err(invalid_configuration("Skill response limit must be 1-16777216 bytes"));
    }
    if max_concurrency < 1 || max_concurrency > MAX_HTTPS_SKILL_CONCURRENCY {
        return Err(invalid_configuration("Skill source concurrency must be 1-64"));
    }
    match exclusive_root_ca_pem {
        Some(pem) => validate_bundle(pem),
        None => Ok(()),
    }
}

/// One request-scoped credential for a pinned Skill source.
///
/// The value is intentionally neither cloneable nor serializable. Callers
/// should resolve it immediately before one request so rotation and tenant
/// authority are re-evaluated for every network operation.
#[derive(Debug)]
pub enum HttpSkillAuthorization {
    /// RFC 6750-style Bearer authorization.
    Bearer(SecretValue),
}

/// One bounded GET issued to a trusted HTTPS transport implementation.
#[derive(Debug)]
pub struct HttpSkillRequest {
    /// Exact validated package URL.
    pub endpoint: String,
    /// Total operation bound.
    pub timeout: Duration,
    /// Maximum retained response bytes.
    pub max_response_bytes: usize,
    /// Optional request-scoped authorization selected by the trusted host.
    pub authorization: Option<HttpSkillAuthorization>,
}

/// Content-free metadata plus retained successful response bytes.
#[derive(Debug)]
pub struct HttpSkillResponse {
    /// Numeric HTTP status.
    pub status: u16,
    /// Response media type when present.
    pub content_type: Option<String>,
    /// Retained body; transports leave this empty for non-success statuses.
    pub body: Vec<u8>,
}

/// Makes the request for a source.
pub fn skill_request(config: &HttpsSkillSourceConfig, authorization: Option<HttpSkillAuthorization>) -> (request: HttpSkillRequest)
    ensures
        request.endpoint@ == config@.endpoint,
        request.timeout == config@.request_timeout,
        request.max_response_bytes == config@.max_response_bytes,
        request.authorization == authorization,
{
    HttpSkillRequest {
        endpoint: config.endpoint.clone(),
        timeout: config.request_timeout,
        max_response_bytes: config.max_response_bytes,
        authorization,
    }
}

/// A source asks for at most 16 MiB within thirty seconds, ten of them to
/// connect, eight requests at a time, unless it is told otherwise.
pub proof fn law_sources_have_defaults(config: ConfigView, endpoint: Seq<char>)
    ensures
        is_default_config(config, endpoint) <==> {
            &&& config.endpoint == endpoint
            &&& config.request_timeout.nanos() == 30_000_000_000
            &&& config.connect_timeout.nanos() == 10_000_000_000
            &&& config.max_response_bytes == 16_777_216
            &&& config.max_concurrency == 8
            &&& config.exclusive_root_ca_pem is None
        },
{
}

} // verus!
