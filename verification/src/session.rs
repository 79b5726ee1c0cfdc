//! The session that is stored for a Tuta account: the credentials that let
//! the provider resume it, with the passphrase key in base64.

use base64::Engine;
use vstd::prelude::*;

use crate::text::{append_str, chars_eq_str, chars_of, string_of};

verus! {

/// Whether a Tuta account is an internal one or an external one.
#[derive(Debug, Clone, Copy, PartialEq, Eq)]
pub enum CredentialType {
    Internal,
    External,
}

/// The credentials that resume a Tuta session.
#[derive(Debug, Clone, PartialEq, Eq)]
pub struct Credentials {
    pub login: String,
    pub user_id: String,
    pub access_token: String,
    pub encrypted_passphrase_key: Vec<u8>,
    pub credential_type: CredentialType,
}

pub struct CredentialsView {
    pub login: Seq<char>,
    pub user_id: Seq<char>,
    pub access_token: Seq<char>,
    pub encrypted_passphrase_key: Seq<u8>,
    pub credential_type: CredentialType,
}

impl View for Credentials {
    type V = CredentialsView;

    open spec fn view(&self) -> CredentialsView {
        CredentialsView {
            login: self.login@,
            user_id: self.user_id@,
            access_token: self.access_token@,
            encrypted_passphrase_key: self.encrypted_passphrase_key@,
            credential_type: self.credential_type,
        }
    }
}

/// A stored Tuta session.
#[derive(Debug, Clone, PartialEq, Eq)]
pub struct Session {
    pub email: String,
    pub user_id: String,
    pub access_token: String,
    /// The encrypted passphrase key, in standard base64.
    pub encrypted_passphrase_key: String,
    /// `internal` or `external`.
    pub credential_type: String,
}

pub struct SessionView {
    pub email: Seq<char>,
    pub user_id: Seq<char>,
    pub access_token: Seq<char>,
    pub encrypted_passphrase_key: Seq<char>,
    pub credential_type: Seq<char>,
}

impl View for Session {
    type V = SessionView;

    open spec fn view(&self) -> SessionView {
        SessionView {
            email: self.email@,
            user_id: self.user_id@,
            access_token: self.access_token@,
            encrypted_passphrase_key: self.encrypted_passphrase_key@,
            credential_type: self.credential_type@,
        }
    }
}

/// Why a stored session holds no usable credentials.
#[derive(Debug, Clone, Copy, PartialEq, Eq)]
pub enum SessionError {
    UnsupportedCredentialType,
    InvalidPassphraseKey,
}

/// The standard base64 text of the bytes.
pub uninterp spec fn spec_base64_encode(data: Seq<u8>) -> Seq<char>;

/// The bytes that a standard base64 text denotes, if it is one.
pub uninterp spec fn spec_base64_decode(text: Seq<char>) -> Option<Seq<u8>>;

/// Encodes bytes in standard base64 (`base64::engine::general_purpose::STANDARD.encode`);
/// the encoder panics only when the encoded length overflows `usize`.
#[verifier::external_body]
fn base64_encode(data: &[u8]) -> (r: String)
    requires
        data@.len() <= usize::MAX / 2,
    ensures
        r@ == spec_base64_encode(data@),
{
    base64::engine::general_purpose::STANDARD.encode(data)
}

pub open spec fn bytes_view(o: Option<Vec<u8>>) -> Option<Seq<u8>> {
    match o {
        Some(v) => Some(v@),
        None => None,
    }
}

/// Decodes standard base64 (`base64::engine::general_purpose::STANDARD.decode`);
/// the text that the encoder writes for some bytes decodes to those bytes.
/// The standard engine requires canonical padding and refuses set trailing
/// bits, so the text that it accepts is the one that the encoder writes
/// for the decoded bytes.
#[verifier::external_body]
fn base64_decode(text: &str) -> (r: Option<Vec<u8>>)
    ensures
        bytes_view(r) == spec_base64_decode(text@),
        r is None ==> forall|data: Seq<u8>|
            #![trigger spec_base64_encode(data)]
            text@ != spec_base64_encode(data),
        r matches Some(v) ==> forall|data: Seq<u8>|
            #![trigger spec_base64_encode(data)]
            text@ == spec_base64_encode(data) ==> v@ == data,
        r matches Some(v) ==> spec_base64_encode(v@) == text@,
{
    base64::engine::general_purpose::STANDARD.decode(text).ok()
}

pub open spec fn credential_type_text(t: CredentialType) -> Seq<char> {
    match t {
        CredentialType::Internal => "internal"@,
        CredentialType::External => "external"@,
    }
}

/// The session that stores the credentials.
pub open spec fn session_of(c: CredentialsView) -> SessionView {
    SessionView {
        email: c.login,
        user_id: c.user_id,
        access_token: c.access_token,
        encrypted_passphrase_key: spec_base64_encode(c.encrypted_passphrase_key),
        credential_type: credential_type_text(c.credential_type),
    }
}

/// The credentials that a session stores, or why it stores none.
pub open spec fn credentials_of(s: SessionView) -> Result<CredentialsView, SessionError> {
    let t = if s.credential_type == "internal"@ {
        Some(CredentialType::Internal)
    } else if s.credential_type == "external"@ {
        Some(CredentialType::External)
    } else {
        None
    };
    match t {
        None => Err(SessionError::UnsupportedCredentialType),
        Some(t) => match spec_base64_decode(s.encrypted_passphrase_key) {
            None => Err(SessionError::InvalidPassphraseKey),
            Some(key) => Ok(
                CredentialsView {
                    login: s.email,
                    user_id: s.user_id,
                    access_token: s.access_token,
                    encrypted_passphrase_key: key,
                    credential_type: t,
                },
            ),
        },
    }
}

pub open spec fn slug_char(c: char) -> char {
    if c == '/' || c == '\\' || c == ':' || c == '@' || c == '.' {
        '_'
    } else {
        c
    }
}

/// The account's name as a file name: `/`, `\`, `:`, `@` and `.` become `_`.
pub open spec fn slug_of(email: Seq<char>) -> Seq<char> {
    Seq::new(email.len(), |i: int| slug_char(email[i]))
}

impl Session {
    /// The session that stores the credentials.
    pub fn from_credentials(credentials: &Credentials) -> (r: Session)
        requires
            credentials@.encrypted_passphrase_key.len() <= usize::MAX / 2,
        ensures
            r@ == session_of(credentials@),
    {
        let kind = match credentials.credential_type {
            CredentialType::Internal => "internal",
            CredentialType::External => "external",
        };
        Session {
            email: credentials.login.clone(),
            user_id: credentials.user_id.clone(),
            access_token: credentials.access_token.clone(),
            encrypted_passphrase_key: base64_encode(
                credentials.encrypted_passphrase_key.as_slice(),
            ),
            credential_type: kind.to_owned(),
        }
    }

    /// The credentials that the session stores. A session made from
    /// credentials gives those credentials back, and the session made from
    /// the credentials that a session gives is that session.
    pub fn credentials(&self) -> (r: Result<Credentials, SessionError>)
        ensures
            match credentials_of(self@) {
                Ok(c) => r matches Ok(v) && v@ == c,
                Err(e) => r == Err::<Credentials, SessionError>(e),
            },
            forall|c: CredentialsView|
                #![trigger session_of(c)]
                self@ == session_of(c) ==> (r matches Ok(v) && v@ == c),
            r matches Ok(v) ==> session_of(v@) == self@,
    {
        let t = chars_of(self.credential_type.as_str());
        let credential_type = if chars_eq_str(&t, "internal") {
            CredentialType::Internal
        } else if chars_eq_str(&t, "external") {
            CredentialType::External
        } else {
            return Err(SessionError::UnsupportedCredentialType);
        };
        proof {
            reveal_strlit("internal");
            reveal_strlit("external");
            assert("internal"@ != "external"@) by {
                assert("internal"@[0] != "external"@[0]);
            }
        }
        let key = match base64_decode(self.encrypted_passphrase_key.as_str()) {
            Some(k) => k,
            None => {
                return Err(SessionError::InvalidPassphraseKey);
            },
        };
        Ok(
            Credentials {
                login: self.email.clone(),
                user_id: self.user_id.clone(),
                access_token: self.access_token.clone(),
                encrypted_passphrase_key: key,
                credential_type,
            },
        )
    }

    /// The account's name as a file name.
    pub fn slug(email: &str) -> (r: String)
        ensures
            r@ == slug_of(email@),
    {
        let e = chars_of(email);
        let mut out: Vec<char> = Vec::new();
        for i in 0..e.len()
            invariant
                out@ =~= slug_of(e@.take(i as int)),
        {
            let c = e[i];
            if c == '/' || c == '\\' || c == ':' || c == '@' || c == '.' {
                out.push('_');
            } else {
                out.push(c);
            }
        }
        assert(e@.take(e.len() as int) =~= e@);
        string_of(&out)
    }

    /// The name of the file that stores the account's session.
    pub fn file_name(email: &str) -> (r: String)
        ensures
            r@ == slug_of(email@) + ".toml"@,
    {
        let s = Session::slug(email);
        let mut v = chars_of(s.as_str());
        append_str(&mut v, ".toml");
        string_of(&v)
    }
}

/// How resuming a stored session failed.
#[derive(Debug, Clone, Copy, PartialEq, Eq)]
pub enum LoginFailure {
    /// Tuta refused the access token: the session has expired.
    InvalidAccessToken,
    /// Any other failure.
    Other,
}

pub open spec fn login_failure_text(f: LoginFailure) -> Seq<char> {
    match f {
        LoginFailure::InvalidAccessToken => "Tuta session expired - run `caldir connect tuta` again"@,
        LoginFailure::Other => "Failed to resume Tuta session"@,
    }
}

impl LoginFailure {
    /// What the user is told: to connect again when the session expired,
    /// else that resuming it failed (with the cause attached).
    pub fn message(&self) -> (r: &'static str)
        ensures
            r@ == login_failure_text(*self),
    {
        match self {
            LoginFailure::InvalidAccessToken => "Tuta session expired - run `caldir connect tuta` again",
            LoginFailure::Other => "Failed to resume Tuta session",
        }
    }
}

} // verus!
