//! API key checks and masking. Reading the key from the environment is the
//! application's part; these functions take the key it read.
use vstd::prelude::*;

use vstd::string::StringSliceAdditionalSpecFns;

use crate::text::push_str;

verus! {

/// Errors of API key handling.
#[derive(Debug)]
pub enum SecurityError {
    /// No API key is configured.
    KeyNotFound,
    /// The key does not have an acceptable form.
    InvalidKey(String),
    /// The environment could not be read.
    EnvError(String),
}

/// The result of API key handling.
pub type Result<T> = std::result::Result<T, SecurityError>;

/// Checks and masks API keys.
#[derive(Debug, Clone, Copy, PartialEq, Eq, Structural)]
pub struct KeyManager;

/// The masked form of a key: `****` for a key of at most eight characters,
/// otherwise its first four and last four characters around `...`.
pub open spec fn masked(key: Seq<char>) -> Seq<char> {
    if key.len() <= 8 {
        seq!['*', '*', '*', '*']
    } else {
        key.take(4) + seq!['.', '.', '.'] + key.skip(key.len() - 4)
    }
}

impl KeyManager {
    pub fn new() -> (r: KeyManager)
        ensures
            r == KeyManager,
    {
        KeyManager
    }

    /// Accepts a key of at least eight bytes; an empty key and a shorter one
    /// are refused with `InvalidKey`.
    pub fn validate_key(&self, key: &str) -> (r: Result<()>)
        ensures
            r is Ok <==> key.spec_bytes().len() >= 8,
            r matches Err(e) ==> e is InvalidKey,
    {
        if key.is_empty() {
            return Err(SecurityError::InvalidKey("Key is empty".to_string()));
        }
        if key.as_bytes().len() < 8 {
            return Err(SecurityError::InvalidKey("Key must be at least 8 characters".to_string()));
        }
        Ok(())
    }

    /// The masked form of the configured key, `api_key` (as read from the
    /// environment); `KeyNotFound` when none is configured.
    pub fn get_masked_key(&self, api_key: Option<&str>) -> (r: Result<String>)
        ensures
            api_key is None ==> r matches Err(SecurityError::KeyNotFound),
            api_key matches Some(k) ==> r matches Ok(m) && m@ == masked(k@),
    {
        match api_key {
            None => Err(SecurityError::KeyNotFound),
            Some(key) => {
                let n = key.unicode_len();
                if n <= 8 {
                    let r = "****".to_string();
                    proof {
                        reveal_strlit("****");
                        assert(r@ =~= masked(key@));
                    }
                    Ok(r)
                } else {
                    let mut r = key.substring_char(0, 4).to_string();
                    push_str(&mut r, "...");
                    push_str(&mut r, key.substring_char(n - 4, n));
                    proof {
                        reveal_strlit("...");
                        assert(r@ =~= masked(key@));
                    }
                    Ok(r)
                }
            },
        }
    }
}

impl Default for KeyManager {
    fn default() -> (r: KeyManager)
        ensures
            r == KeyManager,
    {
        KeyManager
    }
}

} // verus!
