//! The stored user name.
use vstd::prelude::*;
use vstd::string::*;

use crate::text::{lemma_trim_idempotent, trim, trim_ws};

verus! {

/// The views of an optional string.
pub open spec fn opt_view(o: Option<String>) -> Option<Seq<char>> {
    match o {
        Some(s) => Some(s@),
        None => None,
    }
}

/// The name used when none was given.
pub open spec fn default_username() -> Seq<char> {
    "user"@
}

/// The user name read from the stored text, if any: the text trimmed, or the
/// default name when it is missing or blank.
pub open spec fn username_from(stored: Option<Seq<char>>) -> Seq<char> {
    match stored {
        Some(t) => if trim_ws(t).len() > 0 {
            trim_ws(t)
        } else {
            default_username()
        },
        None => default_username(),
    }
}

/// The user's settings.
pub struct Config {
    pub username: String,
}

impl Config {
    /// The settings from the stored user-name text (`None` when it could not
    /// be read).
    pub fn load(stored: Option<String>) -> (c: Config)
        ensures
            c.username@ == username_from(opt_view(stored)),
    {
        let username = Self::load_username(stored);
        Config { username }
    }

    /// The user name from the stored text (`None` when it could not be read).
    pub fn load_username(stored: Option<String>) -> (name: String)
        ensures
            name@ == username_from(opt_view(stored)),
    {
        if let Some(content) = stored {
            let username = trim(content.as_str());
            if !username.as_str().is_empty() {
                return username;
            }
        }
        String::from_str("user")
    }

    /// The answer to the user-name prompt: `None` when the line could not be
    /// read, else the line trimmed, or the default name when it is blank.
    pub fn prompt_for_username(line: Option<String>) -> (name: Option<String>)
        ensures
            line is None ==> name is None,
            line is Some ==> opt_view(name) == Some(username_from(opt_view(line))),
    {
        let input = line?;
        let username = trim(input.as_str());
        if username.as_str().is_empty() {
            Some(String::from_str("user"))
        } else {
            Some(username)
        }
    }

    /// Whether the name is still the default one, so that the user is asked.
    pub fn needs_username(&self) -> (b: bool)
        ensures
            b == (self.username@ == default_username()),
    {
        self.username == String::from_str("user")
    }
}

/// The user name is never empty.
pub proof fn lemma_username_not_empty(stored: Option<Seq<char>>)
    ensures
        username_from(stored).len() > 0,
{
    reveal_strlit("user");
}

/// Storing a name that `load` produced and loading it again gives the same
/// name: loading is a fixed point of storing.
pub proof fn lemma_load_store_roundtrip(stored: Option<Seq<char>>)
    ensures
        username_from(Some(username_from(stored))) == username_from(stored),
{
    reveal_strlit("user");
    match stored {
        Some(t) => {
            lemma_trim_idempotent(t);
        },
        None => {},
    }
    assert(trim_ws(default_username()) == default_username()) by {
        let u = default_username();
        assert(u.len() == 4);
        assert(trim_ws(u) == crate::text::trim_end_ws(u));
    }
}

} // verus!
