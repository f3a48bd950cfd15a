use aws_auth::aws::{lookup_credentials, render_credentials, Credentials};

fn sample() -> Credentials {
    Credentials {
        access_key_id: String::from("AKIAEXAMPLE"),
        secret_access_key: String::from("wJalrXUtnFEMI/K7MDENG+bPxRfiCYEXAMPLEKEY="),
        session_token: String::from("FwoGZXIvYXdzEBYaDO=="),
        expiration: 1700000000,
    }
}

#[test]
fn render_exact_file_text() {
    let text = render_credentials(&Credentials {
        access_key_id: String::from("AK"),
        secret_access_key: String::from("SK"),
        session_token: String::from("ST"),
        expiration: 42,
    });
    assert_eq!(
        text,
        "\n[default]\naws_access_key_id = AK\naws_secret_access_key = SK\naws_session_token = ST\nexpiration = 42\n"
    );
}

#[test]
fn save_then_load_round_trip() {
    let c = sample();
    let text = render_credentials(&c);
    let back = lookup_credentials(&text).unwrap();
    assert_eq!(back.access_key_id, c.access_key_id);
    assert_eq!(back.secret_access_key, c.secret_access_key);
    assert_eq!(back.session_token, c.session_token);
    assert_eq!(back.expiration, c.expiration);
}

#[test]
fn load_missing_access_key_is_empty() {
    let text = "\n[default]\naws_secret_access_key = SK\naws_session_token = ST\nexpiration = 1\n";
    assert!(lookup_credentials(&String::from(text)).is_none());
}

#[test]
fn load_missing_secret_key_is_empty() {
    let text = "\n[default]\naws_access_key_id = AK\naws_session_token = ST\nexpiration = 1\n";
    assert!(lookup_credentials(&String::from(text)).is_none());
}

#[test]
fn load_missing_session_token_is_empty() {
    let text = "\n[default]\naws_access_key_id = AK\naws_secret_access_key = SK\nexpiration = 1\n";
    assert!(lookup_credentials(&String::from(text)).is_none());
}

#[test]
fn load_missing_expiration_reads_as_zero() {
    let text = "\n[default]\naws_access_key_id = AK\naws_secret_access_key = SK\naws_session_token = ST\n";
    let c = lookup_credentials(&String::from(text)).unwrap();
    assert_eq!(c.expiration, 0);
}

#[test]
fn load_unreadable_expiration_reads_as_zero() {
    let text =
        "\n[default]\naws_access_key_id = AK\naws_secret_access_key = SK\naws_session_token = ST\nexpiration = soon\n";
    let c = lookup_credentials(&String::from(text)).unwrap();
    assert_eq!(c.expiration, 0);
}

#[test]
fn load_oversized_expiration_reads_as_zero() {
    let text =
        "\n[default]\naws_access_key_id = AK\naws_secret_access_key = SK\naws_session_token = ST\nexpiration = 99999999999999999999999\n";
    let c = lookup_credentials(&String::from(text)).unwrap();
    assert_eq!(c.expiration, 0);
}

#[test]
fn load_empty_file_is_empty() {
    assert!(lookup_credentials(&String::new()).is_none());
}

#[test]
fn load_ignores_other_sections() {
    let text = "[other]\naws_access_key_id = NO\n[default]\naws_access_key_id = AK\naws_secret_access_key = SK\naws_session_token = ST\nexpiration = 7\n[more]\naws_session_token = NO\n";
    let c = lookup_credentials(&String::from(text)).unwrap();
    assert_eq!(c.access_key_id, "AK");
    assert_eq!(c.expiration, 7);
}

#[test]
fn load_value_keeps_padding_characters() {
    let text = "\n[default]\naws_access_key_id = AK\naws_secret_access_key = a=b=c\naws_session_token = tok==\nexpiration = 1\n";
    let c = lookup_credentials(&String::from(text)).unwrap();
    assert_eq!(c.secret_access_key, "a=b=c");
    assert_eq!(c.session_token, "tok==");
}
