//! The interactive collaborator that the protocol consults: prompts
//! for credentials, MFA codes and selections, and non-fatal error
//! reporting inside the retry loops.

use vstd::prelude::*;

use crate::identity_provider::MfaFactor;
use crate::saml::AwsRole;

verus! {

/// The interactive collaborator.  The production implementation is a
/// terminal; scripted implementations stand in for it in tests.  The
/// protocol never consults `get_mfa_factor` or `get_aws_role` when
/// only one candidate is offered.
pub trait UI {
    /// A username and a password, prompted afresh on every call.
    fn get_username_and_password(&self) -> (String, String);

    /// A one-time code for the prompted factor.
    fn get_mfa_code(&self, prompt: &str) -> String;

    /// The user's choice among two or more offered factors.
    fn get_mfa_factor<'a>(&self, factors: &'a [MfaFactor]) -> &'a MfaFactor;

    /// The user's choice among two or more offered roles.
    fn get_aws_role<'a>(&self, roles: &'a [AwsRole]) -> &'a AwsRole;

    /// Non-fatal reporting: the flow goes on after the call.
    fn error(&self, message: &str);
}

} // verus!
