use aws_auth::errors::Error;
use aws_auth::saml::{base64_round_trip, roles_from_values, parse_pair_value, SAMLAssertion};

fn assertion_with_roles(values: &[&str]) -> SAMLAssertion {
    let mut body = String::new();
    for v in values {
        body.push_str(&format!("<saml2:AttributeValue>{}</saml2:AttributeValue>", v));
    }
    let mut xml = String::from(
        "<saml2:Assertion xmlns:saml2=\"urn:oasis:names:tc:SAML:2.0:assertion\"><saml2:AttributeStatement><saml2:Attribute Name=\"https://aws.amazon.com/SAML/Attributes/Role\">",
    );
    xml.push_str(&body);
    xml.push_str("</saml2:Attribute></saml2:AttributeStatement></saml2:Assertion>");
    SAMLAssertion { assertion: xml }
}

#[test]
fn extracts_single_role_pair() {
    let a = assertion_with_roles(&["arn:aws:iam::111:role/Dev,arn:aws:iam::111:saml-provider/Okta"]);
    let roles = a.extract_roles().unwrap();
    assert_eq!(roles.len(), 1);
    assert_eq!(roles[0].role_arn, "arn:aws:iam::111:role/Dev");
    assert_eq!(roles[0].provider_arn, "arn:aws:iam::111:saml-provider/Okta");
}

#[test]
fn extracts_pair_with_tokens_in_either_order() {
    let a = assertion_with_roles(&["arn:aws:iam::1:saml-provider/Okta,arn:aws:iam::1:role/Dev"]);
    let roles = a.extract_roles().unwrap();
    assert_eq!(roles.len(), 1);
    assert_eq!(roles[0].role_arn, "arn:aws:iam::1:role/Dev");
    assert_eq!(roles[0].provider_arn, "arn:aws:iam::1:saml-provider/Okta");
}

#[test]
fn extraction_is_identical_when_every_pair_is_swapped() {
    let a1 = assertion_with_roles(&[
        "arn:aws:iam::1:role/A,arn:aws:iam::1:saml-provider/P",
        "arn:aws:iam::2:role/B,arn:aws:iam::2:saml-provider/Q",
    ]);
    let a2 = assertion_with_roles(&[
        "arn:aws:iam::1:saml-provider/P,arn:aws:iam::1:role/A",
        "arn:aws:iam::2:saml-provider/Q,arn:aws:iam::2:role/B",
    ]);
    let r1 = a1.extract_roles().unwrap();
    let r2 = a2.extract_roles().unwrap();
    assert_eq!(r1.len(), r2.len());
    for (one, other) in r1.iter().zip(r2.iter()) {
        assert_eq!(one.role_arn, other.role_arn);
        assert_eq!(one.provider_arn, other.provider_arn);
    }
}

#[test]
fn extracts_one_entry_per_value() {
    let a = assertion_with_roles(&[
        "arn:aws:iam::1:role/A,arn:aws:iam::1:saml-provider/P",
        "arn:aws:iam::2:role/B,arn:aws:iam::2:saml-provider/P",
        "arn:aws:iam::3:role/C,arn:aws:iam::3:saml-provider/P",
    ]);
    let roles = a.extract_roles().unwrap();
    assert_eq!(roles.len(), 3);
    assert_eq!(roles[0].role_arn, "arn:aws:iam::1:role/A");
    assert_eq!(roles[1].role_arn, "arn:aws:iam::2:role/B");
    assert_eq!(roles[2].role_arn, "arn:aws:iam::3:role/C");
}

#[test]
fn extract_trims_surrounding_whitespace() {
    let a = assertion_with_roles(&[
        "\n      arn:aws:iam::1:role/A,arn:aws:iam::1:saml-provider/P\n    ",
    ]);
    let roles = a.extract_roles().unwrap();
    assert_eq!(roles.len(), 1);
    assert_eq!(roles[0].role_arn, "arn:aws:iam::1:role/A");
}

#[test]
fn missing_roles_attribute_is_malformed() {
    let a = SAMLAssertion {
        assertion: String::from(
            "<saml2:Assertion xmlns:saml2=\"urn:x\"><saml2:Attribute Name=\"other\"/></saml2:Assertion>",
        ),
    };
    assert!(matches!(a.extract_roles(), Err(Error::MalformedAssertion)));
}

#[test]
fn unparsable_document_is_malformed() {
    let a = SAMLAssertion { assertion: String::from("this is no xml <<<") };
    assert!(matches!(a.extract_roles(), Err(Error::MalformedAssertion)));
}

#[test]
fn empty_roles_attribute_is_malformed_not_empty() {
    let a = assertion_with_roles(&[]);
    assert!(matches!(a.extract_roles(), Err(Error::MalformedAssertion)));
}

#[test]
fn value_without_both_markers_is_malformed() {
    let a = assertion_with_roles(&["arn:aws:iam::1:role/A,arn:aws:iam::1:nothing/P"]);
    assert!(matches!(a.extract_roles(), Err(Error::MalformedAssertion)));
}

#[test]
fn encoded_as_base64_exact_value() {
    let a = SAMLAssertion { assertion: String::from("abc") };
    assert_eq!(a.encoded_as_base64(), "YWJj");
}

#[test]
fn encoding_then_standard_decoding_restores_the_text() {
    let text = "<saml2:Assertion>some assertion body</saml2:Assertion>";
    let a = SAMLAssertion { assertion: String::from(text) };
    let decoded =
        base64::Engine::decode(&base64::engine::general_purpose::STANDARD, a.encoded_as_base64())
            .unwrap();
    assert_eq!(String::from_utf8(decoded).unwrap(), text);
}

#[test]
fn library_round_trip_restores_the_text() {
    let a = SAMLAssertion { assertion: String::from("round trip body \u{e9}") };
    assert_eq!(base64_round_trip(&a).unwrap(), "round trip body \u{e9}");
}

#[test]
fn parse_pair_value_picks_tokens_by_marker() {
    let v = String::from("arn:aws:iam::9:saml-provider/P,arn:aws:iam::9:role/R");
    let role = parse_pair_value(&v).unwrap();
    assert_eq!(role.role_arn, "arn:aws:iam::9:role/R");
    assert_eq!(role.provider_arn, "arn:aws:iam::9:saml-provider/P");
}

#[test]
fn parse_pair_value_rejects_missing_marker() {
    assert!(parse_pair_value(&String::from("a,b")).is_none());
}

#[test]
fn roles_from_values_rejects_empty_list() {
    let r = roles_from_values(&Vec::new());
    assert!(matches!(r, Err(Error::MalformedAssertion)));
}

#[test]
fn roles_from_values_collects_each_value() {
    let values = vec![
        String::from("arn:aws:iam::1:role/A,arn:aws:iam::1:saml-provider/P"),
        String::from("arn:aws:iam::2:saml-provider/Q,arn:aws:iam::2:role/B"),
    ];
    let roles = roles_from_values(&values).unwrap();
    assert_eq!(roles.len(), 2);
    assert_eq!(roles[0].provider_arn, "arn:aws:iam::1:saml-provider/P");
    assert_eq!(roles[1].role_arn, "arn:aws:iam::2:role/B");
}
