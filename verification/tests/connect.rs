use tuta_calendar::connect::{
    connect_step, credential_fields, required_credential, ConnectData, ConnectStep,
    CredentialError, DataValue, FieldType,
};

fn data(entries: &[(&str, DataValue)]) -> ConnectData {
    ConnectData { entries: entries.iter().map(|(k, v)| (k.to_string(), v.clone())).collect() }
}

#[test]
fn initial_step_requests_credentials() {
    let step = connect_step(&data(&[])).unwrap();
    assert_eq!(step, ConnectStep::AskCredentials);
    let fields = credential_fields();
    assert_eq!(fields[0].id, "email");
    assert_eq!(fields[1].field_type, FieldType::Password);
    assert_eq!(fields.len(), 2);
}

#[test]
fn login_step_needs_both_credentials() {
    let text = |s: &str| DataValue::Text(s.to_string());
    assert_eq!(
        connect_step(&data(&[("email", text("a@tuta.com")), ("passphrase", text("pw"))])),
        Ok(ConnectStep::Login { email: "a@tuta.com".to_string(), passphrase: "pw".to_string() })
    );
    let missing = connect_step(&data(&[("email", text("a@tuta.com"))])).unwrap_err();
    assert_eq!(missing, CredentialError::Missing { field: "passphrase".to_string() });
    assert_eq!(missing.message(), "Missing 'passphrase' in credentials");
    let empty = connect_step(&data(&[("email", text("")), ("passphrase", text("pw"))])).unwrap_err();
    assert_eq!(empty.message(), "'email' cannot be empty");
    assert_eq!(
        connect_step(&data(&[("email", DataValue::Other)])),
        Err(CredentialError::Missing { field: "email".to_string() })
    );
    assert_eq!(
        required_credential(&data(&[("passphrase", text("x"))]), "passphrase"),
        Ok("x".to_string())
    );
}
