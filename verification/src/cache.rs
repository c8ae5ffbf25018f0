//! The token cache record: a single optional token, scoped to the local
//! user.  Loading and saving the record on disk is the surrounding
//! program's business; the record itself, and what it holds after an
//! update, is specified here.

use vstd::prelude::*;
use crate::auth::opt_view;

verus! {

/// The cached state of one user: at most one token, the one the latest
/// successful login produced.
pub struct Cache {
    last_token: Option<String>,
}

impl View for Cache {
    type V = Option<Seq<char>>;

    closed spec fn view(&self) -> Option<Seq<char>> {
        opt_view(self.last_token)
    }
}

impl Cache {
    /// A cache holding the given token, or an empty one; a record that
    /// could not be read loads as empty.
    pub fn new(last_token: Option<String>) -> (c: Cache)
        ensures
            c@ == opt_view(last_token),
    {
        Cache { last_token }
    }

    /// Store a token, overwriting any previous one: a single slot, not a
    /// history.
    pub fn set_token(&mut self, token: String)
        ensures
            final(self)@ == Some(token@),
    {
        self.last_token = Some(token);
    }

    /// The cached token, if one is held.
    pub fn get_token(&self) -> (r: Option<String>)
        ensures
            opt_view(r) == self@,
    {
        match &self.last_token {
            Some(t) => Some(t.clone()),
            None => None,
        }
    }
}

} // verus!
