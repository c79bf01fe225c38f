//! Classification of configuration-probe failures: the error text of a
//! failed completion call is sorted into authentication, model
//! availability, network, or unknown trouble, each with a remediation
//! hint. The probe call itself is the caller's concern; here its error
//! text is classified.

use vstd::prelude::*;

use crate::text::{contains_sub, has_sub, trim_spec, trim_str};

verus! {

/// Categories of validation failure.
#[derive(Debug, Clone, Copy, PartialEq, Eq, Structural)]
pub enum ValidationErrorKind {
    /// Config file missing, unreadable, or malformed.
    ConfigLoad,
    /// Provider rejected credentials.
    AuthFailure,
    /// Network, connection, DNS, TLS or timeout error.
    NetworkFailure,
    /// The requested model does not exist or is unavailable.
    ModelNotAvailable,
    /// Anything else.
    Unknown,
}

impl ValidationErrorKind {
    /// The user-facing label of the category.
    pub fn label(&self) -> (r: String)
        ensures
            r@ == self.label_spec(),
    {
        match self {
            ValidationErrorKind::ConfigLoad => String::from_str("configuration error"),
            ValidationErrorKind::AuthFailure => String::from_str("authentication error"),
            ValidationErrorKind::NetworkFailure => String::from_str("network/endpoint error"),
            ValidationErrorKind::ModelNotAvailable => String::from_str("model not available"),
            ValidationErrorKind::Unknown => String::from_str("unknown error"),
        }
    }

    pub open spec fn label_spec(&self) -> Seq<char> {
        match self {
            ValidationErrorKind::ConfigLoad => "configuration error"@,
            ValidationErrorKind::AuthFailure => "authentication error"@,
            ValidationErrorKind::NetworkFailure => "network/endpoint error"@,
            ValidationErrorKind::ModelNotAvailable => "model not available"@,
            ValidationErrorKind::Unknown => "unknown error"@,
        }
    }
}

/// A classified validation failure.
#[derive(Debug)]
pub struct ValidationError {
    pub kind: ValidationErrorKind,
    pub message: String,
    pub hint: String,
    pub provider: Option<String>,
    pub model: Option<String>,
}

/// A successful validation probe.
#[derive(Debug)]
pub struct ValidationSuccess {
    pub provider: String,
    pub model: String,
    pub response_snippet: String,
}

/// Whether lower-cased error text names an authentication problem.
pub open spec fn auth_text(lower: Seq<char>) -> bool {
    ||| has_sub(lower, "401"@)
    ||| has_sub(lower, "unauthorized"@)
    ||| has_sub(lower, "authentication"@)
    ||| has_sub(lower, "invalid api key"@)
    ||| has_sub(lower, "invalid x-api-key"@)
    ||| has_sub(lower, "incorrect api key"@)
    ||| (has_sub(lower, "permission"@) && has_sub(lower, "denied"@))
    ||| has_sub(lower, "forbidden"@)
    ||| has_sub(lower, "403"@)
}

/// Whether lower-cased error text names a missing model.
pub open spec fn model_text(lower: Seq<char>) -> bool {
    ||| (has_sub(lower, "model"@) && (has_sub(lower, "not found"@) || has_sub(lower, "not_found"@)
        || has_sub(lower, "does not exist"@) || has_sub(lower, "not available"@)))
    ||| (has_sub(lower, "404"@) && has_sub(lower, "model"@))
    ||| has_sub(lower, "no such model"@)
    ||| has_sub(lower, "invalid model"@)
}

/// Whether lower-cased error text names a network problem.
pub open spec fn network_text(lower: Seq<char>) -> bool {
    ||| has_sub(lower, "connect"@)
    ||| has_sub(lower, "timeout"@)
    ||| has_sub(lower, "timed out"@)
    ||| has_sub(lower, "dns"@)
    ||| has_sub(lower, "network"@)
    ||| has_sub(lower, "unreachable"@)
    ||| has_sub(lower, "connection refused"@)
    ||| has_sub(lower, "connection reset"@)
    ||| has_sub(lower, "broken pipe"@)
    ||| has_sub(lower, "tls"@)
    ||| has_sub(lower, "ssl"@)
    ||| has_sub(lower, "certificate"@)
    ||| has_sub(lower, "resolve"@)
}

/// The classification of lower-cased error text: authentication wins
/// over model availability, which wins over network trouble.
pub open spec fn classify_spec(lower: Seq<char>) -> ValidationErrorKind {
    if auth_text(lower) {
        ValidationErrorKind::AuthFailure
    } else if model_text(lower) {
        ValidationErrorKind::ModelNotAvailable
    } else if network_text(lower) {
        ValidationErrorKind::NetworkFailure
    } else {
        ValidationErrorKind::Unknown
    }
}

/// The remediation hint of each classification.
pub open spec fn hint_spec(kind: ValidationErrorKind) -> Seq<char> {
    match kind {
        ValidationErrorKind::AuthFailure => "Check that api_key in config.json is valid and not expired."@,
        ValidationErrorKind::ModelNotAvailable => "Verify the model name is correct and available for your provider."@,
        ValidationErrorKind::NetworkFailure => "Check network connectivity and that api_base URL is reachable."@,
        _ => "Check config.json and provider documentation."@,
    }
}

/// Classify lower-cased error text into a category and a hint.
pub fn classify_error_text(lower: &str) -> (r: (ValidationErrorKind, String))
    ensures
        r.0 == classify_spec(lower@),
        r.1@ == hint_spec(classify_spec(lower@)),
{
    let auth = contains_sub(lower, "401") || contains_sub(lower, "unauthorized") || contains_sub(
        lower,
        "authentication",
    ) || contains_sub(lower, "invalid api key") || contains_sub(lower, "invalid x-api-key")
        || contains_sub(lower, "incorrect api key") || (contains_sub(lower, "permission")
        && contains_sub(lower, "denied")) || contains_sub(lower, "forbidden") || contains_sub(
        lower,
        "403",
    );
    if auth {
        return (
            ValidationErrorKind::AuthFailure,
            String::from_str("Check that api_key in config.json is valid and not expired."),
        );
    }
    let model = (contains_sub(lower, "model") && (contains_sub(lower, "not found") || contains_sub(
        lower,
        "not_found",
    ) || contains_sub(lower, "does not exist") || contains_sub(lower, "not available"))) || (
    contains_sub(lower, "404") && contains_sub(lower, "model")) || contains_sub(
        lower,
        "no such model",
    ) || contains_sub(lower, "invalid model");
    if model {
        return (
            ValidationErrorKind::ModelNotAvailable,
            String::from_str("Verify the model name is correct and available for your provider."),
        );
    }
    let network = contains_sub(lower, "connect") || contains_sub(lower, "timeout") || contains_sub(
        lower,
        "timed out",
    ) || contains_sub(lower, "dns") || contains_sub(lower, "network") || contains_sub(
        lower,
        "unreachable",
    ) || contains_sub(lower, "connection refused") || contains_sub(lower, "connection reset")
        || contains_sub(lower, "broken pipe") || contains_sub(lower, "tls") || contains_sub(
        lower,
        "ssl",
    ) || contains_sub(lower, "certificate") || contains_sub(lower, "resolve");
    if network {
        return (
            ValidationErrorKind::NetworkFailure,
            String::from_str("Check network connectivity and that api_base URL is reachable."),
        );
    }
    (ValidationErrorKind::Unknown, String::from_str("Check config.json and provider documentation."))
}

/// The lower-case image of a text, as `str::to_lowercase` computes it.
pub uninterp spec fn lower_of(s: Seq<char>) -> Seq<char>;

/// Relies on `str::to_lowercase`: the result depends on the characters
/// alone.
#[verifier::external_body]
pub fn lowercase(s: &str) -> (r: String)
    ensures
        r@ == lower_of(s@),
{
    s.to_lowercase()
}

/// Classify the error text of a failed completion call. The text is
/// lower-cased first; the message is kept verbatim.
pub fn classify_prompt_error(message: &str, provider: &str, model: &str) -> (r: ValidationError)
    ensures
        r.kind == classify_spec(lower_of(message@)),
        r.message@ == message@,
        r.hint@ == hint_spec(classify_spec(lower_of(message@))),
        r.provider matches Some(p) && p@ == provider@,
        r.model matches Some(m) && m@ == model@,
{
    let lower = lowercase(message);
    let (kind, hint) = classify_error_text(lower.as_str());
    ValidationError {
        kind,
        message: String::from_str(message),
        hint,
        provider: Some(String::from_str(provider)),
        model: Some(String::from_str(model)),
    }
}

/// Classify the error text of a failed agent construction: anything
/// naming a URL or a parse problem is network trouble, the rest is
/// unknown.
pub fn classify_agent_build_error(message: &str, provider: &str, model: &str) -> (r:
    ValidationError)
    ensures
        ({
            let lower = lower_of(message@);
            let is_net = has_sub(lower, "url"@) || has_sub(lower, "parse"@);
            &&& r.kind == if is_net {
                ValidationErrorKind::NetworkFailure
            } else {
                ValidationErrorKind::Unknown
            }
            &&& is_net ==> r.hint@ == "Check that api_base in config.json is a valid URL."@
            &&& !is_net ==> r.hint@ == "Check config.json and provider documentation."@
            &&& r.message@ == message@
            &&& r.provider matches Some(p) && p@ == provider@
            &&& r.model matches Some(m) && m@ == model@
        }),
{
    let lower = lowercase(message);
    let is_net = contains_sub(lower.as_str(), "url") || contains_sub(lower.as_str(), "parse");
    let (kind, hint) = if is_net {
        (
            ValidationErrorKind::NetworkFailure,
            String::from_str("Check that api_base in config.json is a valid URL."),
        )
    } else {
        (
            ValidationErrorKind::Unknown,
            String::from_str("Check config.json and provider documentation."),
        )
    };
    ValidationError {
        kind,
        message: String::from_str(message),
        hint,
        provider: Some(String::from_str(provider)),
        model: Some(String::from_str(model)),
    }
}

/// Trim the response and cut it to at most `max_len` bytes of content,
/// marking a cut with an ellipsis: the trimmed text when it fits,
/// otherwise its longest prefix within the budget.
pub fn truncate_response(response: &str, max_len: usize) -> (r: String)
    ensures
        ({
            let t = trim_spec(response@);
            &&& vstd::utf8::encode_utf8(t).len() <= max_len ==> r@ == t
            &&& vstd::utf8::encode_utf8(t).len() > max_len ==> exists|k: int|
                {
                    &&& 0 <= k < t.len()
                    &&& vstd::utf8::encode_utf8(t.subrange(0, k)).len() <= max_len
                    &&& vstd::utf8::encode_utf8(t.subrange(0, k + 1)).len() > max_len
                    &&& r@ == #[trigger] t.subrange(0, k) + "…"@
                }
        }),
{
    let trimmed = trim_str(response);
    let total = trimmed.as_str().as_bytes().len();
    if total <= max_len {
        return trimmed;
    }
    let ghost t = trim_spec(response@);
    let n = trimmed.as_str().unicode_len();
    proof {
        assert(t.subrange(0, n as int) =~= t);
    }
    let mut k: usize = 0;
    while k < n && trimmed.as_str().substring_char(0, k + 1).as_bytes().len() <= max_len
        invariant
            k <= n,
            n == t.len(),
            trimmed@ == t,
            vstd::utf8::encode_utf8(t.subrange(0, k as int)).len() <= max_len,
        decreases n - k,
    {
        k = k + 1;
    }
    proof {
        if k == n {
            assert(t.subrange(0, k as int) =~= t);
            assert(false);
        }
    }
    let mut out = String::new();
    out.append(trimmed.as_str().substring_char(0, k));
    out.append("…");
    proof {
        assert(out@ == t.subrange(0, k as int) + "…"@);
    }
    out
}

} // verus!
