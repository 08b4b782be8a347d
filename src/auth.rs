use vstd::prelude::*;
use dashmap::DashMap;

verus! {

/// Credentials of a CONNECT.
#[derive(Clone, Debug, PartialEq, Eq)]
pub struct Login {
    pub username: String,
    pub password: String,
}

/// A user known to the broker.
#[derive(Clone, Debug, PartialEq, Eq)]
pub struct User {
    pub username: String,
    pub password: String,
    pub is_superuser: bool,
}

/// Why an authentication could not be decided.
#[derive(Clone, Debug, PartialEq, Eq)]
pub enum AuthError {
    /// The user store could not be reached.
    Backend(String),
}

/// dashmap's concurrent map, opaque here: it is only handed to the lookup.
#[verifier::external_type_specification]
#[verifier::external_body]
#[verifier::reject_recursive_types(K)]
#[verifier::reject_recursive_types(V)]
#[verifier::reject_recursive_types(S)]
pub struct ExDashMap<K, V, S>(dashmap::DashMap<K, V, S>);

/// Relies on dashmap::DashMap::get: the stored user's password, if the user
/// is in the table. The table is shared and may change between two lookups,
/// so nothing is promised about the result.
#[verifier::external_body]
fn stored_password(users: &DashMap<String, User>, username: &String) -> Option<String> {
    users.get(username).map(|u| u.password.clone())
}

/// A login passes when the user exists and the password is the stored one.
pub fn password_matches(stored: &Option<String>, password: &String) -> (r: bool)
    ensures
        r == (stored matches Some(p) && p@ == password@),
{
    match stored {
        Some(p) => *p == *password,
        None => false,
    }
}

/// Plaintext authentication of a login against the user table.
pub struct Plaintext<'a> {
    login: Login,
    user_info: &'a DashMap<String, User>,
}

impl<'a> Plaintext<'a> {
    pub fn new(login: Login, user_info: &'a DashMap<String, User>) -> (r: Self)
        ensures
            r.login() == login,
    {
        Plaintext { login, user_info }
    }

    pub closed spec fn login(&self) -> Login {
        self.login
    }

    /// Looks the user up and compares passwords; an unknown user is refused,
    /// not an error.
    pub fn apply(&self) -> (r: Result<bool, AuthError>)
        ensures
            r is Ok,
    {
        let stored = stored_password(self.user_info, &self.login.username);
        Ok(password_matches(&stored, &self.login.password))
    }
}

/// Authenticates a login: a blank user name passes at once where the cluster
/// allows secret-free login; otherwise the plaintext check decides.
pub fn authentication_login(
    login: Login,
    user_info: &DashMap<String, User>,
    secret_free_login: bool,
) -> (r: Result<bool, AuthError>)
    ensures
        secret_free_login && login.username@.len() == 0 ==> r == Ok::<bool, AuthError>(true),
        r is Ok,
{
    if secret_free_login && login.username.as_str().is_empty() {
        return Ok(true);
    }
    let plaintext = Plaintext::new(login, user_info);
    plaintext.apply()
}

} // verus!
