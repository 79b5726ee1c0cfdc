//! Which Tuta account and calendar a caldir calendar is linked to, and how
//! that link is stored among caldir's remote parameters.

use vstd::prelude::*;

use crate::text::{chars_of};

verus! {

/// A value among caldir's remote parameters: text, or anything else.
#[derive(Debug, Clone, PartialEq, Eq)]
pub enum ParamValue {
    Text(String),
    Other,
}

pub enum ParamValueView {
    Text(Seq<char>),
    Other,
}

impl View for ParamValue {
    type V = ParamValueView;

    open spec fn view(&self) -> ParamValueView {
        match self {
            ParamValue::Text(s) => ParamValueView::Text(s@),
            ParamValue::Other => ParamValueView::Other,
        }
    }
}

/// Caldir's remote parameters, as a list of entries in which a later entry
/// for a key replaces an earlier one.
#[derive(Debug, Clone, PartialEq, Eq)]
pub struct RemoteConfigParams {
    pub entries: Vec<(String, ParamValue)>,
}

pub open spec fn entries_view(v: Seq<(String, ParamValue)>) -> Seq<(Seq<char>, ParamValueView)> {
    v.map_values(|e: (String, ParamValue)| (e.0@, e.1@))
}

impl View for RemoteConfigParams {
    type V = Seq<(Seq<char>, ParamValueView)>;

    open spec fn view(&self) -> Seq<(Seq<char>, ParamValueView)> {
        entries_view(self.entries@)
    }
}

/// The value of a key: that of its last entry.
pub open spec fn param_get(entries: Seq<(Seq<char>, ParamValueView)>, key: Seq<char>) -> Option<
    ParamValueView,
>
    decreases entries.len(),
{
    if entries.len() == 0 {
        None
    } else if entries.last().0 == key {
        Some(entries.last().1)
    } else {
        param_get(entries.drop_last(), key)
    }
}

/// The text value of a key, if it has one.
pub open spec fn param_text(entries: Seq<(Seq<char>, ParamValueView)>, key: Seq<char>) -> Option<
    Seq<char>,
> {
    match param_get(entries, key) {
        Some(ParamValueView::Text(s)) => Some(s),
        _ => None,
    }
}

impl RemoteConfigParams {
    pub fn new() -> (r: RemoteConfigParams)
        ensures
            r@.len() == 0,
    {
        RemoteConfigParams { entries: Vec::new() }
    }

    /// Sets the key to the value.
    pub fn insert(&mut self, key: String, value: ParamValue)
        ensures
            final(self)@ == old(self)@.push((key@, value@)),
    {
        self.entries.push((key, value));
    }

    /// The text value of the key.
    pub fn get_text(&self, key: &str) -> (r: Option<&str>)
        ensures
            match param_text(self@, key@) {
                Some(s) => r matches Some(v) && v@ == s,
                None => r is None,
            },
    {
        let ghost all = self@;
        let k = chars_of(key);
        let mut i: usize = self.entries.len();
        assert(all.take(i as int) =~= all);
        while i > 0
            invariant
                i <= self.entries.len(),
                all == self@,
                k@ == key@,
                param_get(all, key@) == param_get(all.take(i as int), key@),
            decreases i,
        {
            assert(all.take(i as int).drop_last() =~= all.take(i - 1));
            assert(all.take(i as int).last() == all[i - 1]);
            let entry = &self.entries[i - 1];
            let name = chars_of(entry.0.as_str());
            if crate::text::chars_eq(&name, &k) {
                return match &entry.1 {
                    ParamValue::Text(s) => Some(s.as_str()),
                    ParamValue::Other => None,
                };
            }
            i = i - 1;
        }
        None
    }
}

/// The Tuta account and calendar that a caldir calendar is linked to.
#[derive(Debug, Clone, PartialEq, Eq)]
pub struct TutaRemoteConfig {
    pub tuta_account: String,
    pub tuta_calendar: String,
}

/// Why remote parameters do not name a Tuta calendar.
#[derive(Debug, Clone, Copy, PartialEq, Eq)]
pub enum ConfigError {
    MissingAccount,
    MissingCalendar,
}

/// The entries that store a link.
pub open spec fn params_of(account: Seq<char>, calendar: Seq<char>) -> Seq<
    (Seq<char>, ParamValueView),
> {
    seq![
        ("tuta_account"@, ParamValueView::Text(account)),
        ("tuta_calendar"@, ParamValueView::Text(calendar)),
    ]
}

impl TutaRemoteConfig {
    pub fn new(account: &str, calendar: &str) -> (r: TutaRemoteConfig)
        ensures
            r.tuta_account@ == account@,
            r.tuta_calendar@ == calendar@,
    {
        TutaRemoteConfig { tuta_account: account.to_owned(), tuta_calendar: calendar.to_owned() }
    }

    /// The remote parameters that store this link.
    pub fn into_remote_config_params(self) -> (r: RemoteConfigParams)
        ensures
            r@ == params_of(self.tuta_account@, self.tuta_calendar@),
    {
        let ghost acc = self.tuta_account@;
        let ghost cal = self.tuta_calendar@;
        let mut params = RemoteConfigParams::new();
        params.insert("tuta_account".to_owned(), ParamValue::Text(self.tuta_account));
        params.insert("tuta_calendar".to_owned(), ParamValue::Text(self.tuta_calendar));
        assert(params@ =~= params_of(acc, cal));
        params
    }

    /// The link that remote parameters store: both keys must hold text.
    pub fn try_from(params: &RemoteConfigParams) -> (r: Result<TutaRemoteConfig, ConfigError>)
        ensures
            match param_text(params@, "tuta_account"@) {
                None => r == Err::<TutaRemoteConfig, ConfigError>(ConfigError::MissingAccount),
                Some(a) => match param_text(params@, "tuta_calendar"@) {
                    None => r == Err::<TutaRemoteConfig, ConfigError>(
                        ConfigError::MissingCalendar,
                    ),
                    Some(c) => r matches Ok(cfg) && cfg.tuta_account@ == a && cfg.tuta_calendar@
                        == c,
                },
            },
    {
        let account = match params.get_text("tuta_account") {
            Some(a) => a.to_owned(),
            None => {
                return Err(ConfigError::MissingAccount);
            },
        };
        let calendar = match params.get_text("tuta_calendar") {
            Some(c) => c.to_owned(),
            None => {
                return Err(ConfigError::MissingCalendar);
            },
        };
        Ok(TutaRemoteConfig { tuta_account: account, tuta_calendar: calendar })
    }
}

/// Reading back the parameters that store a link gives the same link.
pub proof fn lemma_remote_config_round_trip(account: Seq<char>, calendar: Seq<char>)
    ensures
        param_text(params_of(account, calendar), "tuta_account"@) == Some(account),
        param_text(params_of(account, calendar), "tuta_calendar"@) == Some(calendar),
{
    let ps = params_of(account, calendar);
    reveal_strlit("tuta_account");
    reveal_strlit("tuta_calendar");
    assert("tuta_account"@ != "tuta_calendar"@) by {
        assert("tuta_account"@[5] != "tuta_calendar"@[5]);
    }
    assert(ps.drop_last() =~= seq![("tuta_account"@, ParamValueView::Text(account))]);
    assert(ps.drop_last().drop_last() =~= Seq::<(Seq<char>, ParamValueView)>::empty());
    assert(ps.last().0 == "tuta_calendar"@);
    assert(param_get(ps.drop_last(), "tuta_account"@) == Some(ParamValueView::Text(account)));
    assert(param_get(ps, "tuta_account"@) == param_get(ps.drop_last(), "tuta_account"@));
}

} // verus!
