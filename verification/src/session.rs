//! The session gate: a single boolean "authenticated" flag, validated
//! against a persisted credential record.

use vstd::prelude::*;

verus! {

/// The persisted credential record: a name/password pair compared for
/// exact equality against login attempts. No hashing — this is a local
/// single-user gate, not a security boundary.
pub struct User {
    pub name: String,
    pub password: String,
}

impl User {
    /// Builds a credential record from the two fields.
    pub fn new(name: &str, password: &str) -> (r: Self)
        ensures
            r.name@ == name@,
            r.password@ == password@,
    {
        User { name: String::from_str(name), password: String::from_str(password) }
    }

    /// Whether `attempt` carries exactly this record's name and password.
    pub fn matches(&self, attempt: &User) -> (r: bool)
        ensures
            r == (self.name@ == attempt.name@ && self.password@ == attempt.password@),
    {
        self.name == attempt.name && self.password == attempt.password
    }
}

/// The process-wide session flag. It starts out `true`, turns `false` on
/// logout, and turns `true` again only on a successful login.
pub struct SessionGate {
    pub authenticated: bool,
}

impl SessionGate {
    /// A fresh session: authenticated by default at process start.
    pub fn new() -> (r: Self)
        ensures
            r.authenticated,
    {
        SessionGate { authenticated: true }
    }

    /// Validates `attempt` against the persisted record. On an exact
    /// name and password match the flag turns true and the call reports
    /// success; otherwise — wrong name, wrong password, or no record in
    /// the store at all — the flag is left untouched and the call
    /// reports failure.
    pub fn login(&mut self, attempt: &User, stored: Option<&User>) -> (r: bool)
        ensures
            r == (stored matches Some(u) && u.name@ == attempt.name@ && u.password@
                == attempt.password@),
            final(self).authenticated == (r || old(self).authenticated),
    {
        match stored {
            None => false,
            Some(u) => {
                if u.matches(attempt) {
                    self.authenticated = true;
                    true
                } else {
                    false
                }
            },
        }
    }

    /// Ends the session unconditionally.
    pub fn logout(&mut self)
        ensures
            !final(self).authenticated,
    {
        self.authenticated = false;
    }

    /// The current flag value.
    pub fn is_authenticated(&self) -> (r: bool)
        ensures
            r == self.authenticated,
    {
        self.authenticated
    }
}

} // verus!
