//! The identity-provider session protocol: the password loop, the MFA
//! challenge loop, session materialization and assertion retrieval,
//! driven against the provider's HTTP API through a port trait.

use vstd::prelude::*;
use vstd::seq_lib::*;
use vstd::string::StringExecFns;

use crate::errors::{Error, TransportFailure};
use crate::identity_provider::{IdentityProvider, MfaFactor, MfaFactorView};
use crate::saml::{b64_of, decode_base64, SAMLAssertion, MAX_ASSERTION_CHARS};
use crate::text::{chars_string, str_eq, u64_dec_chars};
use crate::ui::UI;

verus! {

/// An MFA factor as the authentication response lists it.  The verify
/// link may be missing there; the protocol treats that as fatal.
pub struct OktaMfaFactor {
    pub provider: String,
    pub factor_type: String,
    pub verify_link: Option<String>,
}

/// The mathematical content of an `OktaMfaFactor`.
pub struct OktaMfaFactorView {
    pub provider: Seq<char>,
    pub factor_type: Seq<char>,
    pub verify_link: Option<Seq<char>>,
}

impl View for OktaMfaFactor {
    type V = OktaMfaFactorView;

    open spec fn view(&self) -> OktaMfaFactorView {
        OktaMfaFactorView {
            provider: self.provider@,
            factor_type: self.factor_type@,
            verify_link: match self.verify_link {
                Some(l) => Some(l@),
                None => None,
            },
        }
    }
}

impl DeepView for OktaMfaFactor {
    type V = OktaMfaFactorView;

    open spec fn deep_view(&self) -> OktaMfaFactorView {
        self.view()
    }
}

/// A successful authentication answer: the protocol status, the state
/// token for the MFA step, and the offered factors.
pub struct AuthnResponseData {
    pub status: String,
    pub state_token: String,
    pub factors: Vec<OktaMfaFactor>,
}

/// What one authentication call came to: an HTTP rejection with its
/// status and body, or a decoded answer.
pub enum AuthnCallResult {
    Rejected { code: u16, body: String },
    Accepted(AuthnResponseData),
}

/// What one MFA verification call came to: an HTTP rejection with its
/// status and body, or the session token.
pub enum VerifyCallResult {
    Rejected { code: u16, body: String },
    Accepted { session_token: String },
}

/// The identity provider's HTTP API, one method per endpoint.  The
/// production implementation performs the calls and decodes the JSON
/// answers into plain values; scripted implementations stand in for it
/// in tests.
pub trait OktaApi {
    /// `POST {base}/api/v1/authn` with a username and a password.
    fn post_authn(&self, username: &String, password: &String) -> Result<
        AuthnCallResult,
        TransportFailure,
    >;

    /// `POST {verify-link}` with the state token and a one-time code.
    fn post_verify(&self, verify_link: &String, state_token: &String, code: &String) -> Result<
        VerifyCallResult,
        TransportFailure,
    >;

    /// `POST {base}/api/v1/sessions` with the session token; the
    /// session identifier comes back.
    fn create_session(&self, session_token: &String) -> Result<String, TransportFailure>;

    /// `GET {app-link}` with the session identifier as a cookie; the
    /// HTML page comes back.
    fn get_app_page(&self, session_id: &String) -> Result<String, TransportFailure>;
}

/// How many rejected attempts a retry loop tolerates before it gives
/// up: an explicit bound, or none.  The protocol's own default is no
/// explicit bound: a mistyped password or an expired code is the
/// user's to correct, as often as it takes (the loops still provably
/// terminate, after more attempts than a lifetime holds).
#[derive(Clone, Copy)]
pub struct RetryPolicy {
    pub max_attempts: Option<u64>,
}

impl RetryPolicy {
    /// The unbounded policy.
    pub fn unlimited() -> (r: RetryPolicy)
        ensures
            r.max_attempts is None,
    {
        RetryPolicy { max_attempts: None }
    }
}

/// The value attribute of the first `input` element of the document
/// with the given `name` attribute, or `None` when there is none.
pub uninterp spec fn input_value_of(html: Seq<char>, name: Seq<char>) -> Option<Seq<char>>;

/// Relies on scraper (`Html::parse_document`, `Selector::parse` and
/// `ElementRef::attr`): the `value` attribute of the first `input`
/// element whose `name` attribute is `name`, or `None` when the
/// document has no such element or no selector can be built from
/// `name`.
#[verifier::external_body]
fn html_input_value(html: &str, name: &str) -> (r: Option<String>)
    ensures
        match input_value_of(html@, name@) {
            Some(v) => r matches Some(x) && x@ == v,
            None => r is None,
        },
{
    let document = scraper::Html::parse_document(html);
    let selector = scraper::Selector::parse(&format!("input[name=\"{}\"]", name)).ok()?;
    let element = document.select(&selector).next()?;
    Some(element.value().attr("value")?.to_string())
}

/// The assertion carried in an application page: the hidden
/// SAMLResponse form field, base64-decoded to text.  Fails with the
/// missing-field error exactly when the page holds no such field, and
/// with the malformed-encoding error when the field does not decode as
/// base64-encoded UTF-8 text of an acceptable length.
pub fn assertion_from_html(html: &String) -> (r: Result<SAMLAssertion, Error>)
    ensures
        (input_value_of(html@, "SAMLResponse"@) is None) <==> (r matches Err(e) && e
            is MissingSamlField),
        forall|t: Seq<char>|
            input_value_of(html@, "SAMLResponse"@) == Some(#[trigger] b64_of(t)) && t.len()
                <= MAX_ASSERTION_CHARS ==> (r matches Ok(a) && a@ == t),
        r matches Ok(a) ==> a@.len() <= MAX_ASSERTION_CHARS,
        r matches Err(e) ==> e is MissingSamlField || e is MalformedAssertionEncoding,
{
    let field = match html_input_value(html.as_str(), "SAMLResponse") {
        None => {
            return Err(Error::MissingSamlField);
        },
        Some(f) => f,
    };
    match decode_base64(field.as_str()) {
        None => Err(Error::MalformedAssertionEncoding),
        Some(text) => {
            let n = text.as_str().unicode_len();
            if n as u64 <= MAX_ASSERTION_CHARS {
                Ok(SAMLAssertion { assertion: text })
            } else {
                Err(Error::MalformedAssertionEncoding)
            }
        },
    }
}

/// Whether a factor is of the one supported type, software TOTP.
pub open spec fn is_totp(f: MfaFactorView) -> bool {
    f.factor_type == "token:software:totp"@
}

/// The factors of the supported type, in their offered order: factors
/// of any other type are never offered for selection.
pub fn totp_candidates(factors: Vec<MfaFactor>) -> (r: Vec<MfaFactor>)
    ensures
        r.deep_view() == factors.deep_view().filter(|f: MfaFactorView| is_totp(f)),
{
    let ghost dv = factors.deep_view();
    let ghost pred = |f: MfaFactorView| is_totp(f);
    let mut r: Vec<MfaFactor> = Vec::new();
    let mut i: usize = 0;
    proof {
        assert(dv.take(0) =~= Seq::<MfaFactorView>::empty());
        reveal(Seq::filter);
    }
    while i < factors.len()
        invariant
            i <= dv.len(),
            dv.len() == factors@.len(),
            dv == factors.deep_view(),
            r.deep_view() == dv.take(i as int).filter(pred),
            pred == (|f: MfaFactorView| is_totp(f)),
        decreases dv.len() - i,
    {
        let ghost dv0 = r.deep_view();
        let is_match = str_eq(factors[i].factor_type.as_str(), "token:software:totp");
        proof {
            assert(dv.take(i + 1).drop_last() =~= dv.take(i as int));
            assert(dv.take(i + 1).last() == dv[i as int]);
            assert(factors@[i as int].deep_view() == dv[i as int]);
            reveal(Seq::filter);
        }
        if is_match {
            let f = MfaFactor::new(
                factors[i].provider.as_str(),
                factors[i].factor_type.as_str(),
                factors[i].link.as_str(),
            );
            proof {
                assert(f.deep_view() == dv[i as int]);
            }
            r.push(f);
            proof {
                assert(r.deep_view() =~= dv0.push(dv[i as int]));
                assert(dv.take(i + 1).filter(pred) == dv.take(i as int).filter(pred).push(
                    dv[i as int],
                ));
            }
        } else {
            proof {
                assert(dv.take(i + 1).filter(pred) == dv.take(i as int).filter(pred));
            }
        }
        i = i + 1;
    }
    proof {
        assert(dv.take(dv.len() as int) =~= dv);
    }
    r
}

/// The usable form of the response's factor list: every factor must
/// carry its verify link, and one without it is a protocol violation.
pub fn collect_factors(raw: Vec<OktaMfaFactor>) -> (r: Result<Vec<MfaFactor>, Error>)
    ensures
        match r {
            Ok(fs) => {
                &&& fs.deep_view().len() == raw.deep_view().len()
                &&& forall|j: int|
                    0 <= j < raw.deep_view().len() ==> ((#[trigger] raw.deep_view()[j]).verify_link
                        matches Some(l) && fs.deep_view()[j] == (MfaFactorView {
                        provider: raw.deep_view()[j].provider,
                        factor_type: raw.deep_view()[j].factor_type,
                        link: l,
                    }))
            },
            Err(e) => e is MissingVerifyLink && exists|j: int|
                0 <= j < raw.deep_view().len() && (#[trigger] raw.deep_view()[j]).verify_link
                    is None,
        },
{
    let ghost dv = raw.deep_view();
    let mut out: Vec<MfaFactor> = Vec::new();
    let mut i: usize = 0;
    while i < raw.len()
        invariant
            i <= dv.len(),
            dv.len() == raw@.len(),
            dv == raw.deep_view(),
            out.deep_view().len() == i,
            forall|j: int|
                0 <= j < i ==> ((#[trigger] dv[j]).verify_link matches Some(l)
                    && out.deep_view()[j] == (MfaFactorView {
                    provider: dv[j].provider,
                    factor_type: dv[j].factor_type,
                    link: l,
                })),
        decreases dv.len() - i,
    {
        assert(raw@[i as int].deep_view() == dv[i as int]);
        let ghost dv0 = out.deep_view();
        match &raw[i].verify_link {
            None => {
                assert(dv[i as int].verify_link is None);
                return Err(Error::MissingVerifyLink);
            },
            Some(link) => {
                let f = MfaFactor::new(
                    raw[i].provider.as_str(),
                    raw[i].factor_type.as_str(),
                    link.as_str(),
                );
                let ghost fv = f.deep_view();
                out.push(f);
                assert(out.deep_view() =~= dv0.push(fv));
            },
        }
        i = i + 1;
    }
    Ok(out)
}

/// Resolves the factor to verify: no candidate at all is a protocol
/// violation, a single candidate is taken without asking, and a wider
/// choice is the UI collaborator's.
pub fn select_factor<'a, U: UI>(ui: &U, candidates: &'a Vec<MfaFactor>) -> (r: Result<
    &'a MfaFactor,
    Error,
>)
    ensures
        r is Err <==> candidates@.len() == 0,
        r matches Err(e) ==> e is NoUsableMfaFactor,
        candidates@.len() == 1 ==> (r matches Ok(f) && f@ == candidates@[0]@),
{
    if candidates.len() == 0 {
        Err(Error::NoUsableMfaFactor)
    } else if candidates.len() == 1 {
        Ok(&candidates[0])
    } else {
        Ok(ui.get_mfa_factor(candidates.as_slice()))
    }
}

/// The protocol driver: the UI collaborator, the provider's HTTP API,
/// and the retry policy of the two user-correctable loops.
pub struct Okta<'a, U: UI, A: OktaApi> {
    pub ui: &'a U,
    pub api: &'a A,
    pub policy: RetryPolicy,
}

impl<'a, U: UI, A: OktaApi> Okta<'a, U, A> {
    /// One accepted authentication answer, after any number of
    /// rejected password attempts.  A rejected call is reported to the
    /// UI collaborator and retried with freshly prompted credentials;
    /// only a transport failure or an exhausted retry bound ends the
    /// loop, never a rejection.
    pub fn authn(&self) -> (r: Result<AuthnResponseData, Error>)
        ensures
            r matches Err(e) ==> e is Transport || e is AttemptsExhausted,
    {
        let mut attempts: u64 = 0;
        let bound: u64 = match self.policy.max_attempts {
            Some(m) => m,
            None => u64::MAX,
        };
        loop
            invariant
                attempts <= bound,
            decreases bound - attempts,
        {
            if attempts >= bound {
                return Err(Error::AttemptsExhausted);
            }
            let (username, password) = self.ui.get_username_and_password();
            match self.api.post_authn(&username, &password) {
                Err(t) => {
                    return Err(Error::Transport { message: t.message });
                },
                Ok(AuthnCallResult::Accepted(data)) => {
                    return Ok(data);
                },
                Ok(AuthnCallResult::Rejected { code, body }) => {
                    let mut msg = String::new();
                    msg.append("Authentication failed! (status_code: ");
                    let digits = chars_string(&u64_dec_chars(code as u64));
                    msg.append(digits.as_str());
                    msg.append(")");
                    self.ui.error(msg.as_str());
                    self.ui.error(body.as_str());
                    attempts = attempts + 1;
                },
            }
        }
    }

    /// One verified MFA exchange, after any number of rejected codes,
    /// carried through to the assertion.  A rejected verification is
    /// reported to the UI collaborator and retried with a freshly
    /// prompted code, so an expired one-time code never restarts the
    /// whole login.
    pub fn verify_mfa_code(&self, state_token: &String, mfa_factor: &MfaFactor) -> (r: Result<
        SAMLAssertion,
        Error,
    >)
        ensures
            r matches Err(e) ==> e is Transport || e is AttemptsExhausted || e is MissingSamlField
                || e is MalformedAssertionEncoding,
            r matches Ok(a) ==> a@.len() <= MAX_ASSERTION_CHARS,
    {
        let mut attempts: u64 = 0;
        let bound: u64 = match self.policy.max_attempts {
            Some(m) => m,
            None => u64::MAX,
        };
        loop
            invariant
                attempts <= bound,
            decreases bound - attempts,
        {
            if attempts >= bound {
                return Err(Error::AttemptsExhausted);
            }
            let mut prompt = String::new();
            prompt.append("MFA Code(");
            prompt.append(mfa_factor.provider.as_str());
            prompt.append(" - ");
            prompt.append(mfa_factor.factor_type.as_str());
            prompt.append("): ");
            let code = self.ui.get_mfa_code(prompt.as_str());
            match self.api.post_verify(&mfa_factor.link, state_token, &code) {
                Err(t) => {
                    return Err(Error::Transport { message: t.message });
                },
                Ok(VerifyCallResult::Accepted { session_token }) => {
                    let session_id = match self.get_session_id(&session_token) {
                        Ok(id) => id,
                        Err(e) => {
                            return Err(e);
                        },
                    };
                    return self.get_saml(&session_id);
                },
                Ok(VerifyCallResult::Rejected { code, body }) => {
                    let mut msg = String::new();
                    msg.append("MFA code verification failed! (status_code: ");
                    let digits = chars_string(&u64_dec_chars(code as u64));
                    msg.append(digits.as_str());
                    msg.append(")");
                    self.ui.error(msg.as_str());
                    self.ui.error(body.as_str());
                    attempts = attempts + 1;
                },
            }
        }
    }

    /// The session identifier for a session token, from the
    /// session-creation endpoint.
    pub fn get_session_id(&self, session_token: &String) -> (r: Result<String, Error>)
        ensures
            r matches Err(e) ==> e is Transport,
    {
        match self.api.create_session(session_token) {
            Err(t) => Err(Error::Transport { message: t.message }),
            Ok(id) => Ok(id),
        }
    }

    /// The assertion behind the application link: fetches the page
    /// with the session identifier and reads the hidden SAMLResponse
    /// field out of it.
    pub fn get_saml(&self, session_id: &String) -> (r: Result<SAMLAssertion, Error>)
        ensures
            r matches Err(e) ==> e is Transport || e is MissingSamlField || e
                is MalformedAssertionEncoding,
            r matches Ok(a) ==> a@.len() <= MAX_ASSERTION_CHARS,
    {
        match self.api.get_app_page(session_id) {
            Err(t) => Err(Error::Transport { message: t.message }),
            Ok(html) => assertion_from_html(&html),
        }
    }

    /// The whole authentication flow: the password loop, then — on the
    /// one supported status, the MFA challenge — factor collection and
    /// selection, the MFA loop, and assertion retrieval.  Any other
    /// status is an unsupported flow, a fatal error carrying that
    /// status: the error never arises on the MFA-challenge status
    /// itself.
    pub fn primary_auth(&self) -> (r: Result<SAMLAssertion, Error>)
        ensures
            r matches Err(e) ==> e is Transport || e is AttemptsExhausted || e
                is UnsupportedAuthFlow || e is MissingVerifyLink || e is NoUsableMfaFactor || e
                is MissingSamlField || e is MalformedAssertionEncoding,
            r matches Err(Error::UnsupportedAuthFlow { status }) ==> status@ != "MFA_REQUIRED"@,
            r matches Ok(a) ==> a@.len() <= MAX_ASSERTION_CHARS,
    {
        let data = self.authn()?;
        if !str_eq(data.status.as_str(), "MFA_REQUIRED") {
            return Err(Error::UnsupportedAuthFlow { status: data.status });
        }
        let factors = collect_factors(data.factors)?;
        let candidates = totp_candidates(factors);
        let mfa_factor = match select_factor(self.ui, &candidates) {
            Ok(f) => f,
            Err(e) => {
                return Err(e);
            },
        };
        self.verify_mfa_code(&data.state_token, mfa_factor)
    }

    /// The provider's whole flow, as the orchestrator calls it.
    pub fn get_saml_assertion(&self) -> (r: Result<SAMLAssertion, Error>)
        ensures
            r matches Err(e) ==> e is Transport || e is AttemptsExhausted || e
                is UnsupportedAuthFlow || e is MissingVerifyLink || e is NoUsableMfaFactor || e
                is MissingSamlField || e is MalformedAssertionEncoding,
            r matches Err(Error::UnsupportedAuthFlow { status }) ==> status@ != "MFA_REQUIRED"@,
            r matches Ok(a) ==> a@.len() <= MAX_ASSERTION_CHARS,
    {
        self.primary_auth()
    }
}

impl<'a, U: UI, A: OktaApi> IdentityProvider for Okta<'a, U, A> {
    fn get_saml_assertion(&self) -> Result<SAMLAssertion, Error> {
        self.primary_auth()
    }
}

} // verus!
