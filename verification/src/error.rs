//! The error type of the crate and its stable codes.
use vstd::prelude::*;

verus! {

/// The stable code of an error.
#[derive(Debug, Clone, Copy, PartialEq, Eq, Structural)]
pub enum ErrorCode {
    Success,
    InvalidArgument,
    ParseFailed,
    NetworkFailed,
    Unauthorized,
    ChallengeRequired,
    InvalidState,
    CryptoFailed,
    NotFound,
    Unsupported,
    Internal,
}

/// The number of a code, as callers outside Rust see it.
pub open spec fn code_number(code: ErrorCode) -> int {
    match code {
        ErrorCode::Success => 0,
        ErrorCode::InvalidArgument => 1,
        ErrorCode::ParseFailed => 2,
        ErrorCode::NetworkFailed => 3,
        ErrorCode::Unauthorized => 4,
        ErrorCode::ChallengeRequired => 5,
        ErrorCode::InvalidState => 6,
        ErrorCode::CryptoFailed => 7,
        ErrorCode::NotFound => 8,
        ErrorCode::Unsupported => 9,
        ErrorCode::Internal => 255,
    }
}

/// The name of a code in IPC responses.
pub open spec fn code_name(code: ErrorCode) -> Seq<char> {
    match code {
        ErrorCode::Success => "ok"@,
        ErrorCode::InvalidArgument => "invalidargument"@,
        ErrorCode::ParseFailed => "parsefailed"@,
        ErrorCode::NetworkFailed => "networkfailed"@,
        ErrorCode::Unauthorized => "unauthorized"@,
        ErrorCode::ChallengeRequired => "challengerequired"@,
        ErrorCode::InvalidState => "invalidstate"@,
        ErrorCode::CryptoFailed => "cryptofailed"@,
        ErrorCode::NotFound => "notfound"@,
        ErrorCode::Unsupported => "unsupported"@,
        ErrorCode::Internal => "internal"@,
    }
}

impl ErrorCode {
    /// The number of the code.
    pub fn number(self) -> (r: i32)
        ensures
            r == code_number(self),
            self == ErrorCode::Success <==> r == 0,
            self == ErrorCode::InvalidArgument <==> r == 1,
            self == ErrorCode::ParseFailed <==> r == 2,
            self == ErrorCode::NetworkFailed <==> r == 3,
            self == ErrorCode::Unauthorized <==> r == 4,
            self == ErrorCode::ChallengeRequired <==> r == 5,
            self == ErrorCode::InvalidState <==> r == 6,
            self == ErrorCode::CryptoFailed <==> r == 7,
            self == ErrorCode::NotFound <==> r == 8,
            self == ErrorCode::Unsupported <==> r == 9,
            self == ErrorCode::Internal <==> r == 255,
    {
        match self {
            ErrorCode::Success => 0,
            ErrorCode::InvalidArgument => 1,
            ErrorCode::ParseFailed => 2,
            ErrorCode::NetworkFailed => 3,
            ErrorCode::Unauthorized => 4,
            ErrorCode::ChallengeRequired => 5,
            ErrorCode::InvalidState => 6,
            ErrorCode::CryptoFailed => 7,
            ErrorCode::NotFound => 8,
            ErrorCode::Unsupported => 9,
            ErrorCode::Internal => 255,
        }
    }

    /// The name of the code in IPC responses.
    pub fn name(self) -> (r: &'static str)
        ensures
            r@ == code_name(self),
            self == ErrorCode::Success ==> r@ == "ok"@,
            self == ErrorCode::InvalidArgument ==> r@ == "invalidargument"@,
            self == ErrorCode::ParseFailed ==> r@ == "parsefailed"@,
            self == ErrorCode::NetworkFailed ==> r@ == "networkfailed"@,
            self == ErrorCode::Unauthorized ==> r@ == "unauthorized"@,
            self == ErrorCode::ChallengeRequired ==> r@ == "challengerequired"@,
            self == ErrorCode::InvalidState ==> r@ == "invalidstate"@,
            self == ErrorCode::CryptoFailed ==> r@ == "cryptofailed"@,
            self == ErrorCode::NotFound ==> r@ == "notfound"@,
            self == ErrorCode::Unsupported ==> r@ == "unsupported"@,
            self == ErrorCode::Internal ==> r@ == "internal"@,
    {
        match self {
            ErrorCode::Success => "ok",
            ErrorCode::InvalidArgument => "invalidargument",
            ErrorCode::ParseFailed => "parsefailed",
            ErrorCode::NetworkFailed => "networkfailed",
            ErrorCode::Unauthorized => "unauthorized",
            ErrorCode::ChallengeRequired => "challengerequired",
            ErrorCode::InvalidState => "invalidstate",
            ErrorCode::CryptoFailed => "cryptofailed",
            ErrorCode::NotFound => "notfound",
            ErrorCode::Unsupported => "unsupported",
            ErrorCode::Internal => "internal",
        }
    }
}

/// An error of the helper, with its message.
#[derive(Debug)]
pub enum AtrError {
    InvalidArgument(String),
    ParseFailed(String),
    NetworkFailed(String),
    Unauthorized(String),
    ChallengeRequired(String),
    InvalidState(String),
    CryptoFailed(String),
    NotFound(String),
    Unsupported(String),
    Internal(String),
}

/// The result type of the crate.
pub type AtrResult<T> = Result<T, AtrError>;

impl Clone for AtrError {
    fn clone(&self) -> (r: Self)
        ensures
            r == *self,
    {
        match self {
            AtrError::InvalidArgument(m) => AtrError::InvalidArgument(m.clone()),
            AtrError::ParseFailed(m) => AtrError::ParseFailed(m.clone()),
            AtrError::NetworkFailed(m) => AtrError::NetworkFailed(m.clone()),
            AtrError::Unauthorized(m) => AtrError::Unauthorized(m.clone()),
            AtrError::ChallengeRequired(m) => AtrError::ChallengeRequired(m.clone()),
            AtrError::InvalidState(m) => AtrError::InvalidState(m.clone()),
            AtrError::CryptoFailed(m) => AtrError::CryptoFailed(m.clone()),
            AtrError::NotFound(m) => AtrError::NotFound(m.clone()),
            AtrError::Unsupported(m) => AtrError::Unsupported(m.clone()),
            AtrError::Internal(m) => AtrError::Internal(m.clone()),
        }
    }
}

impl AtrError {
    /// The code of an error.
    pub open spec fn spec_code(self) -> ErrorCode {
        match self {
            AtrError::InvalidArgument(_) => ErrorCode::InvalidArgument,
            AtrError::ParseFailed(_) => ErrorCode::ParseFailed,
            AtrError::NetworkFailed(_) => ErrorCode::NetworkFailed,
            AtrError::Unauthorized(_) => ErrorCode::Unauthorized,
            AtrError::ChallengeRequired(_) => ErrorCode::ChallengeRequired,
            AtrError::InvalidState(_) => ErrorCode::InvalidState,
            AtrError::CryptoFailed(_) => ErrorCode::CryptoFailed,
            AtrError::NotFound(_) => ErrorCode::NotFound,
            AtrError::Unsupported(_) => ErrorCode::Unsupported,
            AtrError::Internal(_) => ErrorCode::Internal,
        }
    }

    /// The message that an error carries.
    pub open spec fn message(self) -> Seq<char> {
        match self {
            AtrError::InvalidArgument(m) => m@,
            AtrError::ParseFailed(m) => m@,
            AtrError::NetworkFailed(m) => m@,
            AtrError::Unauthorized(m) => m@,
            AtrError::ChallengeRequired(m) => m@,
            AtrError::InvalidState(m) => m@,
            AtrError::CryptoFailed(m) => m@,
            AtrError::NotFound(m) => m@,
            AtrError::Unsupported(m) => m@,
            AtrError::Internal(m) => m@,
        }
    }

    /// The words that introduce the message of an error.
    pub open spec fn label(self) -> Seq<char> {
        match self {
            AtrError::InvalidArgument(_) => "invalid argument: "@,
            AtrError::ParseFailed(_) => "parse failed: "@,
            AtrError::NetworkFailed(_) => "network failed: "@,
            AtrError::Unauthorized(_) => "unauthorized: "@,
            AtrError::ChallengeRequired(_) => "challenge required: "@,
            AtrError::InvalidState(_) => "invalid state: "@,
            AtrError::CryptoFailed(_) => "crypto failed: "@,
            AtrError::NotFound(_) => "not found: "@,
            AtrError::Unsupported(_) => "unsupported: "@,
            AtrError::Internal(_) => "internal error: "@,
        }
    }

    /// The text of an error: its label and its message.
    pub open spec fn shown(self) -> Seq<char> {
        self.label() + self.message()
    }

    /// Whether the error has a code and a message.
    pub open spec fn says(self, code: ErrorCode, message: Seq<char>) -> bool {
        self.spec_code() == code && self.message() == message
    }

    /// The code of the error.
    pub fn code(&self) -> (r: ErrorCode)
        ensures
            r == self.spec_code(),
            *self is InvalidArgument <==> r == ErrorCode::InvalidArgument,
            *self is ParseFailed <==> r == ErrorCode::ParseFailed,
            *self is NetworkFailed <==> r == ErrorCode::NetworkFailed,
            *self is Unauthorized <==> r == ErrorCode::Unauthorized,
            *self is ChallengeRequired <==> r == ErrorCode::ChallengeRequired,
            *self is InvalidState <==> r == ErrorCode::InvalidState,
            *self is CryptoFailed <==> r == ErrorCode::CryptoFailed,
            *self is NotFound <==> r == ErrorCode::NotFound,
            *self is Unsupported <==> r == ErrorCode::Unsupported,
            *self is Internal <==> r == ErrorCode::Internal,
    {
        match self {
            AtrError::InvalidArgument(_) => ErrorCode::InvalidArgument,
            AtrError::ParseFailed(_) => ErrorCode::ParseFailed,
            AtrError::NetworkFailed(_) => ErrorCode::NetworkFailed,
            AtrError::Unauthorized(_) => ErrorCode::Unauthorized,
            AtrError::ChallengeRequired(_) => ErrorCode::ChallengeRequired,
            AtrError::InvalidState(_) => ErrorCode::InvalidState,
            AtrError::CryptoFailed(_) => ErrorCode::CryptoFailed,
            AtrError::NotFound(_) => ErrorCode::NotFound,
            AtrError::Unsupported(_) => ErrorCode::Unsupported,
            AtrError::Internal(_) => ErrorCode::Internal,
        }
    }

    /// The text of the error.
    pub fn to_text(&self) -> (r: String)
        ensures
            r@ == self.shown(),
            *self is InvalidArgument ==> r@ == "invalid argument: "@ + self->InvalidArgument_0@,
            *self is ParseFailed ==> r@ == "parse failed: "@ + self->ParseFailed_0@,
            *self is NetworkFailed ==> r@ == "network failed: "@ + self->NetworkFailed_0@,
            *self is Unauthorized ==> r@ == "unauthorized: "@ + self->Unauthorized_0@,
            *self is ChallengeRequired ==> r@ == "challenge required: "@ + self->ChallengeRequired_0@,
            *self is InvalidState ==> r@ == "invalid state: "@ + self->InvalidState_0@,
            *self is CryptoFailed ==> r@ == "crypto failed: "@ + self->CryptoFailed_0@,
            *self is NotFound ==> r@ == "not found: "@ + self->NotFound_0@,
            *self is Unsupported ==> r@ == "unsupported: "@ + self->Unsupported_0@,
            *self is Internal ==> r@ == "internal error: "@ + self->Internal_0@,
    {
        match self {
            AtrError::InvalidArgument(m) => "invalid argument: ".to_owned().concat(m.as_str()),
            AtrError::ParseFailed(m) => "parse failed: ".to_owned().concat(m.as_str()),
            AtrError::NetworkFailed(m) => "network failed: ".to_owned().concat(m.as_str()),
            AtrError::Unauthorized(m) => "unauthorized: ".to_owned().concat(m.as_str()),
            AtrError::ChallengeRequired(m) => "challenge required: ".to_owned().concat(m.as_str()),
            AtrError::InvalidState(m) => "invalid state: ".to_owned().concat(m.as_str()),
            AtrError::CryptoFailed(m) => "crypto failed: ".to_owned().concat(m.as_str()),
            AtrError::NotFound(m) => "not found: ".to_owned().concat(m.as_str()),
            AtrError::Unsupported(m) => "unsupported: ".to_owned().concat(m.as_str()),
            AtrError::Internal(m) => "internal error: ".to_owned().concat(m.as_str()),
        }
    }

}

/// Different codes have different numbers.
pub proof fn code_numbers_are_distinct(a: ErrorCode, b: ErrorCode)
    ensures
        code_number(a) == code_number(b) ==> a == b,
{
}

/// No error has the code that stands for success.
pub proof fn errors_never_have_code_ok(e: AtrError)
    ensures
        e.spec_code() != ErrorCode::Success,
        code_number(e.spec_code()) != 0,
{
}

// ---------------------------------------------------------------------------
// Errors of other crates
// ---------------------------------------------------------------------------

#[verifier::external_type_specification]
#[verifier::external_body]
pub struct ExReqwestError(reqwest::Error);

#[verifier::external_type_specification]
#[verifier::external_body]
pub struct ExJsonError(serde_json::Error);

#[verifier::external_type_specification]
pub struct ExUrlError(url::ParseError);

#[verifier::external_type_specification]
#[verifier::external_body]
pub struct ExRsaError(rsa::errors::Error);

#[verifier::external_type_specification]
#[verifier::external_body]
pub struct ExIoError(std::io::Error);

/// `serde_json::Error::to_string`. Nothing is claimed of the text: an error
/// that wraps a failed read is worded by the operating system.
#[verifier::external_body]
fn json_error_string(err: &serde_json::Error) -> (r: String) {
    err.to_string()
}

/// `std::io::Error::to_string`. Nothing is claimed of the text: it is worded
/// by the operating system.
#[verifier::external_body]
fn io_error_string(err: &std::io::Error) -> (r: String) {
    err.to_string()
}

/// The text that a `reqwest::Error` displays.
pub uninterp spec fn reqwest_error_text(err: reqwest::Error) -> Seq<char>;

/// `reqwest::Error::to_string`: the text is determined by the error's kind,
/// status and URL.
#[verifier::external_body]
fn reqwest_error_string(err: &reqwest::Error) -> (r: String)
    ensures
        r@ == reqwest_error_text(*err),
{
    err.to_string()
}

/// The text that a `url::ParseError` displays.
pub open spec fn url_error_text(err: url::ParseError) -> Seq<char> {
    match err {
        url::ParseError::EmptyHost => "empty host"@,
        url::ParseError::IdnaError => "invalid international domain name"@,
        url::ParseError::InvalidPort => "invalid port number"@,
        url::ParseError::InvalidIpv4Address => "invalid IPv4 address"@,
        url::ParseError::InvalidIpv6Address => "invalid IPv6 address"@,
        url::ParseError::InvalidDomainCharacter => "invalid domain character"@,
        url::ParseError::RelativeUrlWithoutBase => "relative URL without a base"@,
        url::ParseError::RelativeUrlWithCannotBeABaseBase =>
            "relative URL with a cannot-be-a-base base"@,
        url::ParseError::SetHostOnCannotBeABaseUrl =>
            "a cannot-be-a-base URL doesn’t have a host to set"@,
        _ => "URLs more than 4 GB are not supported"@,
    }
}

/// `url::ParseError::to_string`: each variant has a fixed text.
#[verifier::external_body]
fn url_error_string(err: &url::ParseError) -> (r: String)
    ensures
        r@ == url_error_text(*err),
{
    err.to_string()
}

/// The text that an `rsa::errors::Error` displays.
pub uninterp spec fn rsa_error_text(err: rsa::errors::Error) -> Seq<char>;

/// `rsa::errors::Error::to_string`: the text is determined by the variant and
/// the wrapped error.
#[verifier::external_body]
fn rsa_error_string(err: &rsa::errors::Error) -> (r: String)
    ensures
        r@ == rsa_error_text(*err),
{
    err.to_string()
}

impl vstd::std_specs::convert::FromSpecImpl<reqwest::Error> for AtrError {
    open spec fn obeys_from_spec() -> bool {
        false
    }

    open spec fn from_spec(err: reqwest::Error) -> Self {
        arbitrary()
    }
}

impl From<reqwest::Error> for AtrError {
    fn from(err: reqwest::Error) -> (r: Self)
        ensures
            r is NetworkFailed,
            r.message() == reqwest_error_text(err),
    {
        AtrError::NetworkFailed(reqwest_error_string(&err))
    }
}

impl vstd::std_specs::convert::FromSpecImpl<serde_json::Error> for AtrError {
    open spec fn obeys_from_spec() -> bool {
        false
    }

    open spec fn from_spec(err: serde_json::Error) -> Self {
        arbitrary()
    }
}

impl From<serde_json::Error> for AtrError {
    fn from(err: serde_json::Error) -> (r: Self)
        ensures
            r is ParseFailed,
    {
        AtrError::ParseFailed(json_error_string(&err))
    }
}

impl vstd::std_specs::convert::FromSpecImpl<url::ParseError> for AtrError {
    open spec fn obeys_from_spec() -> bool {
        false
    }

    open spec fn from_spec(err: url::ParseError) -> Self {
        arbitrary()
    }
}

impl From<url::ParseError> for AtrError {
    fn from(err: url::ParseError) -> (r: Self)
        ensures
            r is ParseFailed,
            r.message() == url_error_text(err),
    {
        AtrError::ParseFailed(url_error_string(&err))
    }
}

impl vstd::std_specs::convert::FromSpecImpl<rsa::errors::Error> for AtrError {
    open spec fn obeys_from_spec() -> bool {
        false
    }

    open spec fn from_spec(err: rsa::errors::Error) -> Self {
        arbitrary()
    }
}

impl From<rsa::errors::Error> for AtrError {
    fn from(err: rsa::errors::Error) -> (r: Self)
        ensures
            r is CryptoFailed,
            r.message() == rsa_error_text(err),
    {
        AtrError::CryptoFailed(rsa_error_string(&err))
    }
}

impl vstd::std_specs::convert::FromSpecImpl<std::io::Error> for AtrError {
    open spec fn obeys_from_spec() -> bool {
        false
    }

    open spec fn from_spec(err: std::io::Error) -> Self {
        arbitrary()
    }
}

impl From<std::io::Error> for AtrError {
    fn from(err: std::io::Error) -> (r: Self)
        ensures
            r is NetworkFailed,
    {
        AtrError::NetworkFailed(io_error_string(&err))
    }
}

/// What an error says is what it was made with: its code is that of its kind,
/// and its message is the one that it carries.
pub proof fn an_error_says_its_message(e: AtrError, code: ErrorCode, message: Seq<char>)
    requires
        e.says(code, message),
    ensures
        code == ErrorCode::InvalidArgument <==> e is InvalidArgument,
        e is InvalidArgument ==> e->InvalidArgument_0@ == message,
        code == ErrorCode::ParseFailed <==> e is ParseFailed,
        e is ParseFailed ==> e->ParseFailed_0@ == message,
        code == ErrorCode::NetworkFailed <==> e is NetworkFailed,
        e is NetworkFailed ==> e->NetworkFailed_0@ == message,
        code == ErrorCode::Unauthorized <==> e is Unauthorized,
        e is Unauthorized ==> e->Unauthorized_0@ == message,
        code == ErrorCode::ChallengeRequired <==> e is ChallengeRequired,
        e is ChallengeRequired ==> e->ChallengeRequired_0@ == message,
        code == ErrorCode::InvalidState <==> e is InvalidState,
        e is InvalidState ==> e->InvalidState_0@ == message,
        code == ErrorCode::CryptoFailed <==> e is CryptoFailed,
        e is CryptoFailed ==> e->CryptoFailed_0@ == message,
        code == ErrorCode::NotFound <==> e is NotFound,
        e is NotFound ==> e->NotFound_0@ == message,
        code == ErrorCode::Unsupported <==> e is Unsupported,
        e is Unsupported ==> e->Unsupported_0@ == message,
        code == ErrorCode::Internal <==> e is Internal,
        e is Internal ==> e->Internal_0@ == message,
        code != ErrorCode::Success,
{
}

/// An error says exactly one thing.
pub proof fn an_error_says_one_thing(
    e: AtrError,
    a: ErrorCode,
    x: Seq<char>,
    b: ErrorCode,
    y: Seq<char>,
)
    requires
        e.says(a, x),
        e.says(b, y),
    ensures
        a == b,
        x == y,
{
}

} // verus!
