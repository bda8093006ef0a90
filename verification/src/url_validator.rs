//! Validation of the source URL of a mod.

use vstd::prelude::*;
use vstd::string::*;

verus! {

/// Why the `url` crate rejects a text as an absolute URL: the message of its
/// parse error, or `None` where it accepts the text.
pub uninterp spec fn url_parse_failure(input: Seq<char>) -> Option<Seq<char>>;

/// Calls `url::Url::parse` and hands back the message of the error, if
/// there is one. Whether a text parses, and with which error it fails,
/// depends on the text alone; nothing else is claimed.
#[verifier::external_body]
fn parse_failure(input: &str) -> (failure: Option<String>)
    ensures
        match failure {
            Some(message) => url_parse_failure(input@) == Some(message@),
            None => url_parse_failure(input@) is None,
        },
{
    url::Url::parse(input).err().map(|error| error.to_string())
}

/// What a validator says of an input.
#[derive(Debug)]
pub enum Validation {
    /// The input is accepted.
    Valid,
    /// The input is refused, with the reason to show to the user.
    Invalid(String),
}

/// What the validator says of an input that failed to parse with the given
/// message, or that parsed.
pub open spec fn validation_of(failure: Option<Seq<char>>) -> Option<Seq<char>> {
    match failure {
        Some(message) => Some("Failed to validate URL: "@ + message),
        None => None,
    }
}

impl Validation {
    /// The reason for which the input is refused, if it is.
    pub open spec fn reason(self) -> Option<Seq<char>> {
        match self {
            Validation::Valid => None,
            Validation::Invalid(message) => Some(message@),
        }
    }

    /// Whether the input is accepted.
    pub fn is_valid(&self) -> (valid: bool)
        ensures
            valid == (self.reason() is None),
    {
        match self {
            Validation::Valid => true,
            Validation::Invalid(_) => false,
        }
    }
}

/// Turns the outcome of parsing a URL into a validation: a text that parsed
/// is valid, one that did not is refused with the parser's message.
pub fn validation_from(failure: Option<String>) -> (validation: Validation)
    ensures
        validation.reason() == validation_of(
            match failure {
                Some(message) => Some(message@),
                None => None,
            },
        ),
{
    match failure {
        Some(message) => Validation::Invalid(
            String::from_str("Failed to validate URL: ").concat(message.as_str()),
        ),
        None => Validation::Valid,
    }
}

/// Accepts the texts that are absolute URLs.
#[derive(Clone, Copy, Debug)]
pub struct URLValidator {}

impl URLValidator {
    /// Creates a validator.
    pub fn new() -> (validator: Self) {
        Self {  }
    }

    /// Checks that `input` is an absolute URL.
    pub fn validate(&self, input: &str) -> (validation: Validation)
        ensures
            validation.reason() == validation_of(url_parse_failure(input@)),
    {
        validation_from(parse_failure(input))
    }
}

impl Default for URLValidator {
    /// Creates a validator.
    fn default() -> (validator: Self) {
        Self::new()
    }
}

} // verus!
