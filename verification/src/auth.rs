//! The name and password that a client presents to be let in.

use vstd::prelude::*;

verus! {

/// A name and a password.
pub struct Auth {
    /// The name of the user.
    pub username: String,
    /// The password of the user.
    pub password: String,
}

impl Auth {
    /// The given name and password.
    pub fn new(username: &str, password: &str) -> (auth: Auth)
        ensures
            auth.username@ == username@,
            auth.password@ == password@,
    {
        return Auth { username: username.to_owned(), password: password.to_owned() };
    }
}

} // verus!
