//! The orchestrator: checks for valid cached credentials first and
//! short-circuits when they still hold, otherwise runs the federation
//! handshake end to end, and persists whatever credentials came out.

use vstd::prelude::*;

use crate::aws::{
    assume_role, ensure_exists, get_credentials_by_assume_role_with_saml, load, save, Credentials,
    CredentialsFile, StsPort,
};
use crate::errors::Error;
use crate::okta::{Okta, OktaApi, RetryPolicy};
use crate::saml::AwsRole;
use crate::ui::UI;

verus! {

/// Resolves the role to assume: an empty set is the broken-assertion
/// invariant violation, a single role is taken without asking, and a
/// wider choice is the UI collaborator's.
pub fn select_role<'a, U: UI>(ui: &U, roles: &'a Vec<AwsRole>) -> (r: Result<&'a AwsRole, Error>)
    ensures
        r is Err <==> roles@.len() == 0,
        r matches Err(e) ==> e is MalformedAssertion,
        roles@.len() == 1 ==> (r matches Ok(x) && x@ == roles@[0]@),
{
    if roles.len() == 0 {
        Err(Error::MalformedAssertion)
    } else if roles.len() == 1 {
        Ok(&roles[0])
    } else {
        Ok(ui.get_aws_role(roles.as_slice()))
    }
}

/// How a successful flow ended: whether the cached credentials were
/// still valid, and whether the secondary role was assumed.
pub struct FlowOutcome {
    pub used_cached: bool,
    pub assumed_role: bool,
}

/// The whole flow.  The credentials file is brought into existence and
/// read; credentials found there are probed against the identity
/// endpoint, and when the probe answers, the handshake is skipped
/// entirely.  Otherwise the session protocol runs to an assertion, a
/// role is resolved, the federation exchange is performed, and the
/// result is written back.  When a secondary role identifier is
/// supplied, a role-assumption call follows on either path, and its
/// credentials overwrite the stored ones.
pub fn run<U: UI, A: OktaApi, S: StsPort, F: CredentialsFile>(
    ui: &U,
    api: &A,
    sts: &S,
    file: &F,
    policy: RetryPolicy,
    role_to_assume: Option<&String>,
) -> (r: Result<FlowOutcome, Error>)
    ensures
        r matches Ok(o) ==> (o.assumed_role <==> role_to_assume is Some),
{
    ensure_exists(file)?;
    let cached = load(file)?;
    let mut valid_cached: Option<Credentials> = None;
    if let Some(c) = cached {
        if sts.get_caller_arn(&c).is_some() {
            valid_cached = Some(c);
        }
    }
    match valid_cached {
        Some(credentials) => {
            match role_to_assume {
                Some(role) => {
                    let assumed = assume_role(sts, &credentials, role)?;
                    save(file, &assumed)?;
                    Ok(FlowOutcome { used_cached: true, assumed_role: true })
                },
                None => Ok(FlowOutcome { used_cached: true, assumed_role: false }),
            }
        },
        None => {
            let okta = Okta { ui, api, policy };
            let saml_assertion = okta.get_saml_assertion()?;
            let roles = saml_assertion.extract_roles()?;
            let selected_role = match select_role(ui, &roles) {
                Ok(x) => x,
                Err(e) => {
                    return Err(e);
                },
            };
            let credentials = get_credentials_by_assume_role_with_saml(
                sts,
                &saml_assertion,
                selected_role,
            )?;
            save(file, &credentials)?;
            match role_to_assume {
                Some(role) => {
                    let assumed = assume_role(sts, &credentials, role)?;
                    save(file, &assumed)?;
                    Ok(FlowOutcome { used_cached: false, assumed_role: true })
                },
                None => Ok(FlowOutcome { used_cached: false, assumed_role: false }),
            }
        },
    }
}

} // verus!
