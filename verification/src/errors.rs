use vstd::prelude::*;

verus! {

/// Why the federation flow failed.
///
/// User-correctable failures (a wrong password, an expired MFA code) are
/// reported to the UI collaborator and retried inside the protocol; they
/// never appear here.  Every variant of this type is fatal.
#[derive(Debug)]
pub enum Error {
    /// The authentication endpoint accepted the call but answered with a
    /// status other than the MFA challenge.
    UnsupportedAuthFlow { status: String },
    /// An MFA factor in the authentication response carried no
    /// verification link.
    MissingVerifyLink,
    /// The authentication response offered no usable MFA factor.
    NoUsableMfaFactor,
    /// The application page held no hidden SAMLResponse form field.
    MissingSamlField,
    /// The SAMLResponse field was not base64-encoded UTF-8 text.
    MalformedAssertionEncoding,
    /// The assertion lacked the roles attribute, yielded no role entry,
    /// or held an entry that could not be split into a role and a
    /// federation principal.
    MalformedAssertion,
    /// The token-exchange endpoint refused the assertion/role pair.
    ExchangeRejected { code: u16, body: String },
    /// The token-exchange response lacked the expected credentials
    /// substructure.
    MalformedResponse,
    /// A network call could not be completed.
    Transport { message: String },
    /// The credentials file could not be read or written.
    Io { message: String },
    /// The injected retry bound ran out.
    AttemptsExhausted,
}

/// A failed network call, as the transport reports it.
#[derive(Debug)]
pub struct TransportFailure {
    pub message: String,
}

/// A failed file operation, as the store reports it.
#[derive(Debug)]
pub struct IoFailure {
    pub message: String,
}

} // verus!
