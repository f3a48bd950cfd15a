//! The identity-provider abstraction: anything that can produce a SAML
//! assertion, and the MFA factor data the protocol selects from.

use vstd::prelude::*;

use crate::errors::Error;
use crate::saml::SAMLAssertion;

verus! {

/// An identity provider that can run its authentication flow to a
/// signed assertion.
pub trait IdentityProvider {
    /// The assertion obtained by the provider's own flow.
    fn get_saml_assertion(&self) -> Result<SAMLAssertion, Error>;
}

/// A registered second-factor method offered by the identity provider.
pub struct MfaFactor {
    pub provider: String,
    pub factor_type: String,
    pub link: String,
}

/// The mathematical content of an `MfaFactor`.
pub struct MfaFactorView {
    pub provider: Seq<char>,
    pub factor_type: Seq<char>,
    pub link: Seq<char>,
}

impl View for MfaFactor {
    type V = MfaFactorView;

    open spec fn view(&self) -> MfaFactorView {
        MfaFactorView {
            provider: self.provider@,
            factor_type: self.factor_type@,
            link: self.link@,
        }
    }
}

impl DeepView for MfaFactor {
    type V = MfaFactorView;

    open spec fn deep_view(&self) -> MfaFactorView {
        self.view()
    }
}

impl MfaFactor {
    pub fn new(provider: &str, factor_type: &str, link: &str) -> (r: Self)
        ensures
            r@.provider == provider@,
            r@.factor_type == factor_type@,
            r@.link == link@,
    {
        Self {
            provider: provider.to_owned(),
            factor_type: factor_type.to_owned(),
            link: link.to_owned(),
        }
    }
}

} // verus!
