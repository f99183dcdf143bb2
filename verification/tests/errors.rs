use nulconnect_helper::error::{AtrError, ErrorCode};

fn every_error() -> Vec<AtrError> {
    let m = || "cause".to_string();
    vec![
        AtrError::InvalidArgument(m()),
        AtrError::ParseFailed(m()),
        AtrError::NetworkFailed(m()),
        AtrError::Unauthorized(m()),
        AtrError::ChallengeRequired(m()),
        AtrError::InvalidState(m()),
        AtrError::CryptoFailed(m()),
        AtrError::NotFound(m()),
        AtrError::Unsupported(m()),
        AtrError::Internal(m()),
    ]
}

#[test]
fn codes_have_their_numbers() {
    let numbers: Vec<i32> = every_error().iter().map(|e| e.code().number()).collect();
    assert_eq!(numbers, vec![1, 2, 3, 4, 5, 6, 7, 8, 9, 255]);
    assert_eq!(ErrorCode::Success.number(), 0);
}

#[test]
fn codes_have_lower_case_names() {
    let names: Vec<&str> = every_error().iter().map(|e| e.code().name()).collect();
    assert_eq!(
        names,
        vec![
            "invalidargument",
            "parsefailed",
            "networkfailed",
            "unauthorized",
            "challengerequired",
            "invalidstate",
            "cryptofailed",
            "notfound",
            "unsupported",
            "internal",
        ]
    );
    assert_eq!(ErrorCode::Success.name(), "ok");
}

#[test]
fn errors_are_shown_with_their_labels() {
    let texts: Vec<String> = every_error().iter().map(|e| e.to_text()).collect();
    assert_eq!(
        texts,
        vec![
            "invalid argument: cause",
            "parse failed: cause",
            "network failed: cause",
            "unauthorized: cause",
            "challenge required: cause",
            "invalid state: cause",
            "crypto failed: cause",
            "not found: cause",
            "unsupported: cause",
            "internal error: cause",
        ]
    );
}

#[test]
fn a_clone_says_the_same() {
    for e in every_error() {
        assert_eq!(e.clone().to_text(), e.to_text());
    }
}

#[test]
fn a_json_error_is_a_failed_parse() {
    let cause = serde_json::from_str::<u8>("x").unwrap_err();
    let text = cause.to_string();
    let e = AtrError::from(cause);
    assert_eq!(e.code(), ErrorCode::ParseFailed);
    assert_eq!(e.to_text(), format!("parse failed: {text}"));
}

#[test]
fn a_url_error_is_a_failed_parse() {
    let cause = url::Url::parse("::").unwrap_err();
    let e = AtrError::from(cause);
    assert_eq!(e.code(), ErrorCode::ParseFailed);
    assert_eq!(e.to_text(), "parse failed: relative URL without a base");
    let texts = [
        (url::ParseError::EmptyHost, "empty host"),
        (url::ParseError::IdnaError, "invalid international domain name"),
        (url::ParseError::InvalidPort, "invalid port number"),
        (url::ParseError::InvalidIpv4Address, "invalid IPv4 address"),
        (url::ParseError::InvalidIpv6Address, "invalid IPv6 address"),
        (url::ParseError::InvalidDomainCharacter, "invalid domain character"),
        (
            url::ParseError::RelativeUrlWithCannotBeABaseBase,
            "relative URL with a cannot-be-a-base base",
        ),
        (
            url::ParseError::SetHostOnCannotBeABaseUrl,
            "a cannot-be-a-base URL doesn’t have a host to set",
        ),
        (url::ParseError::Overflow, "URLs more than 4 GB are not supported"),
    ];
    for (cause, text) in texts {
        assert_eq!(AtrError::from(cause).to_text(), format!("parse failed: {text}"));
    }
}

#[test]
fn an_io_error_keeps_its_text() {
    let cause = std::io::Error::new(std::io::ErrorKind::Other, "disk on fire");
    let e = AtrError::from(cause);
    assert_eq!(e.to_text(), "network failed: disk on fire");
}

#[test]
fn an_rsa_error_is_a_failure_of_cryptography() {
    let e = AtrError::from(rsa::errors::Error::Decryption);
    assert_eq!(e.code(), ErrorCode::CryptoFailed);
    assert_eq!(e.to_text(), "crypto failed: decryption error");
}

#[test]
fn an_http_error_is_a_failure_of_the_network() {
    let cause = reqwest::Client::new().get("not a url").build().unwrap_err();
    let text = cause.to_string();
    let e = AtrError::from(cause);
    assert_eq!(e.code(), ErrorCode::NetworkFailed);
    assert_eq!(e.to_text(), format!("network failed: {text}"));
}
