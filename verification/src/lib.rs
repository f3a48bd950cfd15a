//! Verified core of a SAML federation sign-in tool.
//!
//! The library drives the identity-provider session protocol
//! (password login, MFA challenge, session creation, assertion fetch),
//! extracts the authorized role pairs from the assertion, performs the
//! token exchange against the cloud federation endpoint, and reads and
//! writes the local credentials file.  All network and file I/O is
//! reached through traits whose production implementations live outside
//! the library.

pub mod errors;
pub mod text;
pub mod saml;
pub mod aws;
pub mod identity_provider;
pub mod okta;
pub mod orchestrator;
pub mod ui;
