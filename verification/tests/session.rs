use tuta_calendar::remote_config::{ConfigError, ParamValue, RemoteConfigParams, TutaRemoteConfig};
use tuta_calendar::session::{CredentialType, Credentials, LoginFailure, Session, SessionError};

fn credentials() -> Credentials {
    Credentials {
        login: "alice@tuta.com".to_string(),
        user_id: "user-id".to_string(),
        access_token: "token".to_string(),
        encrypted_passphrase_key: vec![1, 2, 3],
        credential_type: CredentialType::Internal,
    }
}

#[test]
fn credentials_round_trip() {
    let session = Session::from_credentials(&credentials());
    let restored = session.credentials().unwrap();
    assert_eq!(restored.login, "alice@tuta.com");
    assert_eq!(restored.user_id.to_string(), "user-id");
    assert_eq!(restored.encrypted_passphrase_key, vec![1, 2, 3]);
}

#[test]
fn round_trips() {
    let original = TutaRemoteConfig::new("alice@tuta.com@mail.tutanota.com", "group-id");
    let restored = TutaRemoteConfig::try_from(&original.clone().into_remote_config_params()).unwrap();
    assert_eq!(restored.tuta_account, original.tuta_account);
    assert_eq!(restored.tuta_calendar, original.tuta_calendar);
}

#[test]
fn stored_session_holds_base64_key_and_type() {
    let session = Session::from_credentials(&credentials());
    assert_eq!(session.encrypted_passphrase_key, "AQID");
    assert_eq!(session.credential_type, "internal");
    let mut external = credentials();
    external.credential_type = CredentialType::External;
    let session = Session::from_credentials(&external);
    assert_eq!(session.credential_type, "external");
    assert_eq!(session.credentials().unwrap(), external);
}

#[test]
fn broken_sessions_are_refused() {
    let mut session = Session::from_credentials(&credentials());
    session.credential_type = "guest".to_string();
    assert_eq!(session.credentials(), Err(SessionError::UnsupportedCredentialType));
    let mut session = Session::from_credentials(&credentials());
    session.encrypted_passphrase_key = "not base64!".to_string();
    assert_eq!(session.credentials(), Err(SessionError::InvalidPassphraseKey));
}

#[test]
fn session_files_are_named_by_slug() {
    assert_eq!(Session::slug("alice@tuta.com"), "alice_tuta_com");
    assert_eq!(Session::slug("a/b\\c:d"), "a_b_c_d");
    assert_eq!(Session::file_name("alice@tuta.com"), "alice_tuta_com.toml");
}

#[test]
fn login_failures_explain_themselves() {
    assert_eq!(
        LoginFailure::InvalidAccessToken.message(),
        "Tuta session expired - run `caldir connect tuta` again"
    );
    assert_eq!(LoginFailure::Other.message(), "Failed to resume Tuta session");
}

#[test]
fn remote_config_needs_both_texts() {
    let mut params = RemoteConfigParams::new();
    assert_eq!(TutaRemoteConfig::try_from(&params), Err(ConfigError::MissingAccount));
    params.insert("tuta_account".to_string(), ParamValue::Text("a".to_string()));
    assert_eq!(TutaRemoteConfig::try_from(&params), Err(ConfigError::MissingCalendar));
    params.insert("tuta_calendar".to_string(), ParamValue::Other);
    assert_eq!(TutaRemoteConfig::try_from(&params), Err(ConfigError::MissingCalendar));
    params.insert("tuta_calendar".to_string(), ParamValue::Text("c".to_string()));
    let config = TutaRemoteConfig::try_from(&params).unwrap();
    assert_eq!(config.tuta_account, "a");
    assert_eq!(config.tuta_calendar, "c");
    params.insert("tuta_account".to_string(), ParamValue::Text("later".to_string()));
    assert_eq!(params.get_text("tuta_account"), Some("later"));
}

#[test]
fn sessions_made_again_from_their_credentials_are_unchanged() {
    let stored = Session {
        email: "bob@tuta.com".to_string(),
        user_id: "uid".to_string(),
        access_token: "tok".to_string(),
        encrypted_passphrase_key: "AQI=".to_string(),
        credential_type: "external".to_string(),
    };
    let credentials = stored.credentials().unwrap();
    assert_eq!(credentials.encrypted_passphrase_key, vec![1, 2]);
    assert_eq!(Session::from_credentials(&credentials), stored);
    for key in ["AQJ=", "AQI", "AQI==", " AQI="] {
        let mut other = stored.clone();
        other.encrypted_passphrase_key = key.to_string();
        assert_eq!(other.credentials(), Err(SessionError::InvalidPassphraseKey));
    }
}
