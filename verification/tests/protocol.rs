use std::cell::RefCell;

use aws_auth::errors::{Error, TransportFailure};
use aws_auth::identity_provider::MfaFactor;
use aws_auth::okta::{
    assertion_from_html, collect_factors, select_factor, totp_candidates, AuthnCallResult,
    AuthnResponseData, Okta, OktaApi, OktaMfaFactor, RetryPolicy, VerifyCallResult,
};
use aws_auth::saml::AwsRole;
use aws_auth::ui::UI;

struct ScriptedUI {
    mfa_factor_calls: RefCell<u32>,
    errors: RefCell<Vec<String>>,
}

impl ScriptedUI {
    fn new() -> Self {
        ScriptedUI { mfa_factor_calls: RefCell::new(0), errors: RefCell::new(Vec::new()) }
    }
}

impl UI for ScriptedUI {
    fn get_username_and_password(&self) -> (String, String) {
        (String::from("user"), String::from("secret"))
    }

    fn get_mfa_code(&self, _prompt: &str) -> String {
        String::from("123456")
    }

    fn get_mfa_factor<'a>(&self, factors: &'a [MfaFactor]) -> &'a MfaFactor {
        *self.mfa_factor_calls.borrow_mut() += 1;
        &factors[0]
    }

    fn get_aws_role<'a>(&self, roles: &'a [AwsRole]) -> &'a AwsRole {
        &roles[0]
    }

    fn error(&self, message: &str) {
        self.errors.borrow_mut().push(String::from(message));
    }
}

fn totp_factor(link: &str) -> OktaMfaFactor {
    OktaMfaFactor {
        provider: String::from("OKTA"),
        factor_type: String::from("token:software:totp"),
        verify_link: Some(String::from(link)),
    }
}

struct ScriptedApi {
    authn_calls: RefCell<u32>,
    authn_failures: u32,
    authn_status: String,
    verify_calls: RefCell<u32>,
    verify_failures: u32,
    saml_b64: String,
}

impl ScriptedApi {
    fn new(authn_failures: u32, verify_failures: u32, assertion: &str) -> Self {
        ScriptedApi {
            authn_calls: RefCell::new(0),
            authn_failures,
            authn_status: String::from("MFA_REQUIRED"),
            verify_calls: RefCell::new(0),
            verify_failures,
            saml_b64: base64::Engine::encode(
                &base64::engine::general_purpose::STANDARD,
                assertion,
            ),
        }
    }
}

impl OktaApi for ScriptedApi {
    fn post_authn(
        &self,
        _username: &String,
        _password: &String,
    ) -> Result<AuthnCallResult, TransportFailure> {
        *self.authn_calls.borrow_mut() += 1;
        if *self.authn_calls.borrow() <= self.authn_failures {
            return Ok(AuthnCallResult::Rejected {
                code: 401,
                body: String::from("authentication failed"),
            });
        }
        Ok(AuthnCallResult::Accepted(AuthnResponseData {
            status: self.authn_status.clone(),
            state_token: String::from("state-token-1"),
            factors: vec![totp_factor("https://idp.example/verify")],
        }))
    }

    fn post_verify(
        &self,
        verify_link: &String,
        state_token: &String,
        _code: &String,
    ) -> Result<VerifyCallResult, TransportFailure> {
        assert_eq!(verify_link, "https://idp.example/verify");
        assert_eq!(state_token, "state-token-1");
        *self.verify_calls.borrow_mut() += 1;
        if *self.verify_calls.borrow() <= self.verify_failures {
            return Ok(VerifyCallResult::Rejected { code: 403, body: String::from("bad code") });
        }
        Ok(VerifyCallResult::Accepted { session_token: String::from("session-token-1") })
    }

    fn create_session(&self, session_token: &String) -> Result<String, TransportFailure> {
        assert_eq!(session_token, "session-token-1");
        Ok(String::from("sid-1"))
    }

    fn get_app_page(&self, session_id: &String) -> Result<String, TransportFailure> {
        assert_eq!(session_id, "sid-1");
        let mut page = String::from("<html><body><form><input name=\"SAMLResponse\" value=\"");
        page.push_str(&self.saml_b64);
        page.push_str("\"/></form></body></html>");
        Ok(page)
    }
}

struct DownApi;

impl OktaApi for DownApi {
    fn post_authn(
        &self,
        _username: &String,
        _password: &String,
    ) -> Result<AuthnCallResult, TransportFailure> {
        Err(TransportFailure { message: String::from("dns failure") })
    }

    fn post_verify(
        &self,
        _verify_link: &String,
        _state_token: &String,
        _code: &String,
    ) -> Result<VerifyCallResult, TransportFailure> {
        Err(TransportFailure { message: String::from("dns failure") })
    }

    fn create_session(&self, _session_token: &String) -> Result<String, TransportFailure> {
        Err(TransportFailure { message: String::from("dns failure") })
    }

    fn get_app_page(&self, _session_id: &String) -> Result<String, TransportFailure> {
        Err(TransportFailure { message: String::from("dns failure") })
    }
}

#[test]
fn authn_surfaces_transport_failure_at_once() {
    let ui = ScriptedUI::new();
    let okta = Okta { ui: &ui, api: &DownApi, policy: RetryPolicy::unlimited() };
    match okta.authn() {
        Err(Error::Transport { message }) => assert_eq!(message, "dns failure"),
        _ => panic!("expected a transport failure"),
    }
}

#[test]
fn verify_bounded_policy_gives_up() {
    let ui = ScriptedUI::new();
    let api = ScriptedApi::new(0, 100, "<a/>");
    let okta = Okta { ui: &ui, api: &api, policy: RetryPolicy { max_attempts: Some(3) } };
    let factor = MfaFactor::new("OKTA", "token:software:totp", "https://idp.example/verify");
    let r = okta.verify_mfa_code(&String::from("state-token-1"), &factor);
    assert!(matches!(r, Err(Error::AttemptsExhausted)));
    assert_eq!(*api.verify_calls.borrow(), 3);
}

#[test]
fn authn_reaches_mfa_after_exactly_three_calls() {
    let ui = ScriptedUI::new();
    let api = ScriptedApi::new(2, 0, "<a/>");
    let okta = Okta { ui: &ui, api: &api, policy: RetryPolicy::unlimited() };
    let data = okta.authn().unwrap();
    assert_eq!(*api.authn_calls.borrow(), 3);
    assert_eq!(data.status, "MFA_REQUIRED");
    assert_eq!(ui.errors.borrow().len(), 4);
    assert_eq!(ui.errors.borrow()[0], "Authentication failed! (status_code: 401)");
}

#[test]
fn authn_bounded_policy_gives_up() {
    let ui = ScriptedUI::new();
    let api = ScriptedApi::new(10, 0, "<a/>");
    let okta = Okta { ui: &ui, api: &api, policy: RetryPolicy { max_attempts: Some(2) } };
    assert!(matches!(okta.authn(), Err(Error::AttemptsExhausted)));
    assert_eq!(*api.authn_calls.borrow(), 2);
}

#[test]
fn primary_auth_runs_to_the_assertion() {
    let ui = ScriptedUI::new();
    let api = ScriptedApi::new(0, 1, "<saml2:Assertion>body</saml2:Assertion>");
    let okta = Okta { ui: &ui, api: &api, policy: RetryPolicy::unlimited() };
    let assertion = okta.primary_auth().unwrap();
    assert_eq!(assertion.assertion, "<saml2:Assertion>body</saml2:Assertion>");
    // The one offered factor is auto-selected: the UI is never asked.
    assert_eq!(*ui.mfa_factor_calls.borrow(), 0);
    // One rejected code, reported and retried.
    assert_eq!(*api.verify_calls.borrow(), 2);
    assert_eq!(ui.errors.borrow()[0], "MFA code verification failed! (status_code: 403)");
}

#[test]
fn primary_auth_rejects_unsupported_status() {
    let ui = ScriptedUI::new();
    let mut api = ScriptedApi::new(0, 0, "<a/>");
    api.authn_status = String::from("SUCCESS");
    let okta = Okta { ui: &ui, api: &api, policy: RetryPolicy::unlimited() };
    match okta.primary_auth() {
        Err(Error::UnsupportedAuthFlow { status }) => assert_eq!(status, "SUCCESS"),
        other => panic!("unexpected: {:?}", other.map(|a| a.assertion)),
    }
}

#[test]
fn collect_factors_requires_verify_links() {
    let raw = vec![OktaMfaFactor {
        provider: String::from("OKTA"),
        factor_type: String::from("token:software:totp"),
        verify_link: None,
    }];
    assert!(matches!(collect_factors(raw), Err(Error::MissingVerifyLink)));
}

#[test]
fn collect_factors_keeps_fields() {
    let fs = collect_factors(vec![totp_factor("https://x/verify")]).unwrap();
    assert_eq!(fs.len(), 1);
    assert_eq!(fs[0].provider, "OKTA");
    assert_eq!(fs[0].factor_type, "token:software:totp");
    assert_eq!(fs[0].link, "https://x/verify");
}

#[test]
fn totp_candidates_excludes_other_factor_types() {
    let fs = vec![
        MfaFactor::new("OKTA", "sms", "https://x/1"),
        MfaFactor::new("OKTA", "token:software:totp", "https://x/2"),
        MfaFactor::new("GOOGLE", "token:software:totp", "https://x/3"),
    ];
    let cands = totp_candidates(fs);
    assert_eq!(cands.len(), 2);
    assert_eq!(cands[0].link, "https://x/2");
    assert_eq!(cands[1].link, "https://x/3");
}

#[test]
fn select_factor_fails_on_no_candidate() {
    let ui = ScriptedUI::new();
    let none: Vec<MfaFactor> = Vec::new();
    assert!(matches!(select_factor(&ui, &none), Err(Error::NoUsableMfaFactor)));
}

#[test]
fn select_factor_asks_only_for_a_real_choice() {
    let ui = ScriptedUI::new();
    let two = vec![
        MfaFactor::new("OKTA", "token:software:totp", "https://x/1"),
        MfaFactor::new("GOOGLE", "token:software:totp", "https://x/2"),
    ];
    let chosen = select_factor(&ui, &two).unwrap();
    assert_eq!(chosen.link, "https://x/1");
    assert_eq!(*ui.mfa_factor_calls.borrow(), 1);
}

#[test]
fn assertion_from_html_reads_the_hidden_field() {
    let b64 = base64::Engine::encode(&base64::engine::general_purpose::STANDARD, "<x/>");
    let mut page = String::from("<html><body><input type=\"hidden\" name=\"SAMLResponse\" value=\"");
    page.push_str(&b64);
    page.push_str("\"/></body></html>");
    let a = assertion_from_html(&page).unwrap();
    assert_eq!(a.assertion, "<x/>");
}

#[test]
fn assertion_from_html_without_field_is_missing() {
    let page = String::from("<html><body><input name=\"other\" value=\"zzz\"/></body></html>");
    assert!(matches!(assertion_from_html(&page), Err(Error::MissingSamlField)));
}

#[test]
fn assertion_from_html_with_bad_base64_is_malformed() {
    let page =
        String::from("<html><body><input name=\"SAMLResponse\" value=\"!!!not-base64!!!\"/></body></html>");
    assert!(matches!(assertion_from_html(&page), Err(Error::MalformedAssertionEncoding)));
}
