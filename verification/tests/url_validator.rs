use sims4modorganizer::url_validator::{validation_from, URLValidator, Validation};

fn reason(validation: Validation) -> Option<String> {
    match validation {
        Validation::Valid => None,
        Validation::Invalid(message) => Some(message),
    }
}

#[test]
fn absolute_urls_are_valid() {
    let validator = URLValidator::new();
    assert!(validator.validate("https://myshuno.web/mod").is_valid());
    assert!(validator.validate("http://example.net").is_valid());
    assert!(validator.validate("file:///tmp/mods").is_valid());
    assert!(URLValidator::default().validate("https://example.net/a?b=c#d").is_valid());
}

#[test]
fn other_texts_are_refused_with_the_parsers_message() {
    let validator = URLValidator::new();
    assert_eq!(
        reason(validator.validate("not a url")),
        Some("Failed to validate URL: relative URL without a base".to_string())
    );
    assert_eq!(
        reason(validator.validate("")),
        Some("Failed to validate URL: relative URL without a base".to_string())
    );
    assert_eq!(
        reason(validator.validate("http://")),
        Some("Failed to validate URL: empty host".to_string())
    );
    assert_eq!(
        reason(validator.validate("https://example.net:99999")),
        Some("Failed to validate URL: invalid port number".to_string())
    );
    assert!(!validator.validate("example.net/mod").is_valid());
}

#[test]
fn validation_follows_the_parse_outcome() {
    assert!(validation_from(None).is_valid());
    assert_eq!(
        reason(validation_from(Some("empty host".to_string()))),
        Some("Failed to validate URL: empty host".to_string())
    );
    assert_eq!(
        reason(validation_from(Some(String::new()))),
        Some("Failed to validate URL: ".to_string())
    );
}

#[test]
fn validation_agrees_with_the_url_crate() {
    let validator = URLValidator::new();
    for input in ["https://a.b", "a.b", "mailto:x@y.z", "://", "http://[::1]", "http://[::1"] {
        match url::Url::parse(input) {
            Ok(_) => assert!(validator.validate(input).is_valid()),
            Err(error) => assert_eq!(
                reason(validator.validate(input)),
                Some(format!("Failed to validate URL: {}", error))
            ),
        }
    }
}
