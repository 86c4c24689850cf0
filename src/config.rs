use vstd::prelude::*;

use crate::model::ConfigStatus;

verus! {

/// Why a configuration operation failed.
#[derive(Clone, Copy, Debug, PartialEq, Eq, Structural)]
pub enum ConfigError {
    /// The key does not have the provider's format (it must start with "AI").
    InvalidKey,
    /// No key is stored.
    NotConfigured,
}

impl ConfigError {
    pub open spec fn spec_message(self) -> Seq<char> {
        match self {
            ConfigError::InvalidKey => "Invalid API key format. Gemini API keys start with 'AI'."@,
            ConfigError::NotConfigured => "API key not configured"@,
        }
    }

    /// A description for the user; it never holds the key itself.
    pub fn message(&self) -> (r: String)
        ensures
            r@ == self.spec_message(),
    {
        match self {
            ConfigError::InvalidKey => String::from_str(
                "Invalid API key format. Gemini API keys start with 'AI'.",
            ),
            ConfigError::NotConfigured => String::from_str("API key not configured"),
        }
    }
}

/// The provider's key format: the key starts with "AI".
pub open spec fn key_format_ok(key: Seq<char>) -> bool {
    key.len() >= 2 && key[0] == 'A' && key[1] == 'I'
}

/// Display form of a key: its first 2 and last 3 characters around "..." when it
/// is longer than 8 characters, else four asterisks, so that a short key's length
/// is not shown.
pub open spec fn mask_of(key: Seq<char>) -> Seq<char> {
    if key.len() > 8 {
        key.subrange(0, 2) + "..."@ + key.subrange(key.len() - 3, key.len() as int)
    } else {
        "****"@
    }
}

/// The status shown for what is stored: a key only counts when it is non-empty.
pub open spec fn status_matches(r: ConfigStatus, stored: Option<String>) -> bool {
    match stored {
        Some(k) if k@.len() > 0 => r.has_key && (r.masked matches Some(m) && m@ == mask_of(k@)),
        _ => !r.has_key && r.masked is None,
    }
}

/// The masked display form of a key.
pub fn mask_key(key: &str) -> (r: String)
    ensures
        r@ == mask_of(key@),
{
    let n = key.unicode_len();
    if n > 8 {
        let mut m = String::from_str(key.substring_char(0, 2));
        m.append("...");
        m.append(key.substring_char(n - 3, n));
        m
    } else {
        String::from_str("****")
    }
}

/// Checks the provider's key format.
pub fn key_has_valid_format(key: &str) -> (r: bool)
    ensures
        r == key_format_ok(key@),
{
    key.unicode_len() >= 2 && key.get_char(0) == 'A' && key.get_char(1) == 'I'
}

/// The status to display for the stored key, if any.
pub fn status_of(stored: &Option<String>) -> (r: ConfigStatus)
    ensures
        status_matches(r, *stored),
{
    match stored {
        Some(k) => {
            if k.as_str().unicode_len() > 0 {
                ConfigStatus { has_key: true, masked: Some(mask_key(k.as_str())) }
            } else {
                ConfigStatus { has_key: false, masked: None }
            }
        },
        None => ConfigStatus { has_key: false, masked: None },
    }
}

/// The single stored secret: the provider's API key.
pub struct ConfigStore {
    api_key: Option<String>,
}

impl ConfigStore {
    /// The stored key, if any.
    pub closed spec fn stored(&self) -> Option<String> {
        self.api_key
    }

    /// A store holding what was last persisted.
    pub fn new(api_key: Option<String>) -> (r: ConfigStore)
        ensures
            r.stored() == api_key,
    {
        ConfigStore { api_key }
    }

    /// Whether a key is stored, and its masked form.
    pub fn get_config(&self) -> (r: ConfigStatus)
        ensures
            status_matches(r, self.stored()),
    {
        status_of(&self.api_key)
    }

    /// Stores the key, replacing any earlier one; a key of the wrong format is
    /// refused and the stored key stays as it was.
    pub fn save_config(&mut self, api_key: String) -> (r: Result<(), ConfigError>)
        ensures
            r is Ok <==> key_format_ok(api_key@),
            r matches Err(e) ==> e == ConfigError::InvalidKey,
            r is Ok ==> final(self).stored() == Some(api_key),
            r is Err ==> final(self).stored() == old(self).stored(),
    {
        if !key_has_valid_format(api_key.as_str()) {
            return Err(ConfigError::InvalidKey);
        }
        self.api_key = Some(api_key);
        Ok(())
    }

    /// Removes the stored key; removing an absent key is no error.
    pub fn delete_config(&mut self)
        ensures
            final(self).stored() is None,
    {
        self.api_key = None;
    }

    /// The raw stored key, for the generation client only.
    pub fn get_api_key(&self) -> (r: Result<String, ConfigError>)
        ensures
            r matches Ok(k) ==> self.stored() == Some(k),
            r is Err <==> self.stored() is None,
            r matches Err(e) ==> e == ConfigError::NotConfigured,
    {
        match &self.api_key {
            Some(k) => Ok(k.clone()),
            None => Err(ConfigError::NotConfigured),
        }
    }
}

} // verus!
