//! The connect flow: which credentials the provider asks caldir for, and
//! what a connect request that carries them is turned into.

use vstd::prelude::*;

use crate::text::{append_str, chars_eq, chars_of, string_of};

verus! {

/// A value of the connect request's data: text, or any other JSON value.
#[derive(Debug, Clone, PartialEq, Eq)]
pub enum DataValue {
    Text(String),
    Other,
}

pub enum DataValueView {
    Text(Seq<char>),
    Other,
}

impl View for DataValue {
    type V = DataValueView;

    open spec fn view(&self) -> DataValueView {
        match self {
            DataValue::Text(s) => DataValueView::Text(s@),
            DataValue::Other => DataValueView::Other,
        }
    }
}

/// The data of a connect request: its keys with their values.
#[derive(Debug, Clone, PartialEq, Eq)]
pub struct ConnectData {
    pub entries: Vec<(String, DataValue)>,
}

impl View for ConnectData {
    type V = Seq<(Seq<char>, DataValueView)>;

    open spec fn view(&self) -> Seq<(Seq<char>, DataValueView)> {
        self.entries@.map_values(|e: (String, DataValue)| (e.0@, e.1@))
    }
}

/// The value of the key: that of its first entry.
pub open spec fn data_get(entries: Seq<(Seq<char>, DataValueView)>, key: Seq<char>) -> Option<
    DataValueView,
>
    decreases entries.len(),
{
    if entries.len() == 0 {
        None
    } else if entries[0].0 == key {
        Some(entries[0].1)
    } else {
        data_get(entries.drop_first(), key)
    }
}

/// The text value of the key, if it has one.
pub open spec fn data_text(entries: Seq<(Seq<char>, DataValueView)>, key: Seq<char>) -> Option<
    Seq<char>,
> {
    match data_get(entries, key) {
        Some(DataValueView::Text(s)) => Some(s),
        _ => None,
    }
}

/// Why a credential cannot be used.
#[derive(Debug, Clone, PartialEq, Eq)]
pub enum CredentialError {
    /// The field is absent or holds no text.
    Missing { field: String },
    /// The field holds empty text.
    Empty { field: String },
}

pub enum CredentialErrorView {
    Missing { field: Seq<char> },
    Empty { field: Seq<char> },
}

impl View for CredentialError {
    type V = CredentialErrorView;

    open spec fn view(&self) -> CredentialErrorView {
        match self {
            CredentialError::Missing { field } => CredentialErrorView::Missing { field: field@ },
            CredentialError::Empty { field } => CredentialErrorView::Empty { field: field@ },
        }
    }
}

/// The message that explains the error.
pub open spec fn credential_message(e: CredentialErrorView) -> Seq<char> {
    match e {
        CredentialErrorView::Missing { field } => "Missing '"@ + field + "' in credentials"@,
        CredentialErrorView::Empty { field } => "'"@ + field + "' cannot be empty"@,
    }
}

impl CredentialError {
    /// The message that explains the error.
    pub fn message(&self) -> (r: String)
        ensures
            r@ == credential_message(self@),
    {
        let mut out: Vec<char> = Vec::new();
        match self {
            CredentialError::Missing { field } => {
                append_str(&mut out, "Missing '");
                append_str(&mut out, field.as_str());
                append_str(&mut out, "' in credentials");
            },
            CredentialError::Empty { field } => {
                append_str(&mut out, "'");
                append_str(&mut out, field.as_str());
                append_str(&mut out, "' cannot be empty");
            },
        }
        string_of(&out)
    }
}

/// The credential that the field holds: its text, which must not be empty.
pub open spec fn credential_of(entries: Seq<(Seq<char>, DataValueView)>, field: Seq<char>) -> Result<
    Seq<char>,
    CredentialErrorView,
> {
    match data_text(entries, field) {
        None => Err(CredentialErrorView::Missing { field }),
        Some(v) => if v.len() == 0 {
            Err(CredentialErrorView::Empty { field })
        } else {
            Ok(v)
        },
    }
}

pub open spec fn text_result_view(r: Result<String, CredentialError>) -> Result<
    Seq<char>,
    CredentialErrorView,
> {
    match r {
        Ok(s) => Ok(s@),
        Err(e) => Err(e@),
    }
}

fn lookup<'a>(data: &'a ConnectData, key: &str) -> (r: Option<&'a DataValue>)
    ensures
        match data_get(data@, key@) {
            Some(v) => r matches Some(x) && x@ == v,
            None => r is None,
        },
{
    let k = chars_of(key);
    let ghost all = data@;
    assert(all.skip(0) =~= all);
    for i in 0..data.entries.len()
        invariant
            k@ == key@,
            all == data@,
            data_get(all, key@) == data_get(all.skip(i as int), key@),
    {
        let name = chars_of(data.entries[i].0.as_str());
        assert(all.skip(i as int)[0] == all[i as int]);
        if chars_eq(&name, &k) {
            return Some(&data.entries[i].1);
        }
        assert(all.skip(i as int).drop_first() =~= all.skip(i + 1));
    }
    assert(all.skip(data.entries.len() as int).len() == 0);
    None
}

/// The credential that the field of the request holds.
pub fn required_credential(data: &ConnectData, field: &str) -> (r: Result<String, CredentialError>)
    ensures
        text_result_view(r) == credential_of(data@, field@),
{
    match lookup(data, field) {
        Some(DataValue::Text(v)) => {
            if chars_of(v.as_str()).len() == 0 {
                Err(CredentialError::Empty { field: field.to_owned() })
            } else {
                Ok(v.clone())
            }
        },
        _ => Err(CredentialError::Missing { field: field.to_owned() }),
    }
}

/// How a credential is typed in.
#[derive(Debug, Clone, Copy, PartialEq, Eq)]
pub enum FieldType {
    Text,
    Password,
}

/// A credential that the provider asks for.
#[derive(Debug, Clone, PartialEq, Eq)]
pub struct CredentialField {
    pub id: String,
    pub label: String,
    pub field_type: FieldType,
    pub required: bool,
    pub help: Option<String>,
}

/// The credentials that connecting asks for: the Tuta email as text and
/// the password, both required.
pub fn credential_fields() -> (r: Vec<CredentialField>)
    ensures
        r.len() == 2,
        r[0].id@ == "email"@,
        r[0].label@ == "Tuta email"@,
        r[0].field_type == FieldType::Text,
        r[0].required,
        r[0].help is None,
        r[1].id@ == "passphrase"@,
        r[1].label@ == "Password"@,
        r[1].field_type == FieldType::Password,
        r[1].required,
        r[1].help is None,
{
    let mut fields: Vec<CredentialField> = Vec::new();
    fields.push(
        CredentialField {
            id: "email".to_owned(),
            label: "Tuta email".to_owned(),
            field_type: FieldType::Text,
            required: true,
            help: None,
        },
    );
    fields.push(
        CredentialField {
            id: "passphrase".to_owned(),
            label: "Password".to_owned(),
            field_type: FieldType::Password,
            required: true,
            help: None,
        },
    );
    fields
}

/// What a connect request asks of the provider.
#[derive(Debug, Clone, PartialEq, Eq)]
pub enum ConnectStep {
    /// Log in with these credentials and store the session.
    Login { email: String, passphrase: String },
    /// Ask for the credentials first.
    AskCredentials,
}

pub enum ConnectStepView {
    Login { email: Seq<char>, passphrase: Seq<char> },
    AskCredentials,
}

/// What a connect request with this data asks: a login when it names an
/// email, with the email and the passphrase it must hold; else the
/// credentials.
pub open spec fn connect_step_of(data: Seq<(Seq<char>, DataValueView)>) -> Result<
    ConnectStepView,
    CredentialErrorView,
> {
    if data_get(data, "email"@) is None {
        Ok(ConnectStepView::AskCredentials)
    } else {
        match credential_of(data, "email"@) {
            Err(e) => Err(e),
            Ok(email) => match credential_of(data, "passphrase"@) {
                Err(e) => Err(e),
                Ok(passphrase) => Ok(ConnectStepView::Login { email, passphrase }),
            },
        }
    }
}

pub open spec fn step_result_view(r: Result<ConnectStep, CredentialError>) -> Result<
    ConnectStepView,
    CredentialErrorView,
> {
    match r {
        Ok(ConnectStep::Login { email, passphrase }) => Ok(
            ConnectStepView::Login { email: email@, passphrase: passphrase@ },
        ),
        Ok(ConnectStep::AskCredentials) => Ok(ConnectStepView::AskCredentials),
        Err(e) => Err(e@),
    }
}

/// Decides what a connect request asks.
pub fn connect_step(data: &ConnectData) -> (r: Result<ConnectStep, CredentialError>)
    ensures
        step_result_view(r) == connect_step_of(data@),
{
    if lookup(data, "email").is_none() {
        return Ok(ConnectStep::AskCredentials);
    }
    let email = match required_credential(data, "email") {
        Ok(v) => v,
        Err(e) => {
            return Err(e);
        },
    };
    let passphrase = match required_credential(data, "passphrase") {
        Ok(v) => v,
        Err(e) => {
            return Err(e);
        },
    };
    Ok(ConnectStep::Login { email, passphrase })
}

} // verus!
