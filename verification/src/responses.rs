//! The login service's answers, and the token that the launcher keeps once
//! a login succeeded.
use vstd::prelude::*;
use crate::text::{contains, spec_contains};

verus! {

/// The token saved after a successful login.
#[derive(Hash, PartialEq, Eq, Clone, Debug)]
pub struct LoginResponse {
    pub return_value: bool,
    pub return_code: i32,
    pub msg: String,
    pub character_count: Option<String>,
    pub permission: Option<i32>,
    pub privilege: Option<i32>,
    pub user_no: Option<i32>,
    pub user_name: Option<String>,
    pub auth_key: Option<String>,
}

/// The answer of the authentication endpoint.
#[derive(Clone, Debug)]
pub struct AuthResponse {
    pub return_value: bool,
    pub return_code: i64,
    pub msg: String,
    pub auth_key: String,
}

/// The answer of the account endpoint.
#[derive(Hash, PartialEq, Eq, Clone, Debug)]
pub struct AccountInfoResponse {
    pub return_value: bool,
    pub return_code: i32,
    pub msg: String,
    pub permission: Option<i32>,
    pub privilege: Option<i32>,
    pub user_no: Option<i32>,
    pub user_name: Option<String>,
}

/// The answer of the characters endpoint.
#[derive(Clone, Debug)]
pub struct CharacterResponse {
    pub return_value: bool,
    pub return_code: i64,
    pub msg: String,
    pub character_count: String,
}

/// Why the service refused a session: its return code and message.
#[derive(Clone, Debug)]
pub struct SessionRejection {
    pub return_code: i64,
    pub msg: String,
}

/// The rejection that a refused answer carries, none for an accepted one.
pub open spec fn spec_rejection(return_value: bool, return_code: i64, msg: Seq<char>) -> Option<
    (i64, Seq<char>),
> {
    if return_value {
        None
    } else {
        Some((return_code, msg))
    }
}

/// The view of an optional rejection.
pub open spec fn rejection_view(r: Option<SessionRejection>) -> Option<(i64, Seq<char>)> {
    match r {
        Some(x) => Some((x.return_code, x.msg@)),
        None => None,
    }
}

fn rejection(return_value: bool, return_code: i64, msg: &String) -> (r: Option<SessionRejection>)
    ensures
        rejection_view(r) == spec_rejection(return_value, return_code, msg@),
{
    if return_value {
        None
    } else {
        Some(SessionRejection { return_code, msg: msg.clone() })
    }
}

impl AuthResponse {
    /// The rejection, if the service refused the session.
    pub fn rejection(&self) -> (r: Option<SessionRejection>)
        ensures
            rejection_view(r) == spec_rejection(self.return_value, self.return_code, self.msg@),
    {
        rejection(self.return_value, self.return_code, &self.msg)
    }
}

impl AccountInfoResponse {
    /// The rejection, if the service refused the session.
    pub fn rejection(&self) -> (r: Option<SessionRejection>)
        ensures
            rejection_view(r) == spec_rejection(
                self.return_value,
                self.return_code as i64,
                self.msg@,
            ),
    {
        rejection(self.return_value, self.return_code as i64, &self.msg)
    }
}

impl CharacterResponse {
    /// The rejection, if the service refused the session.
    pub fn rejection(&self) -> (r: Option<SessionRejection>)
        ensures
            rejection_view(r) == spec_rejection(self.return_value, self.return_code, self.msg@),
    {
        rejection(self.return_value, self.return_code, &self.msg)
    }
}

impl LoginResponse {
    /// The token of a successful login, made of the three answers: the
    /// authentication key, the account's details and the character count.
    pub fn from_parts(
        auth: AuthResponse,
        account: AccountInfoResponse,
        characters: CharacterResponse,
    ) -> (r: LoginResponse)
        ensures
            r.return_value,
            r.return_code == 0,
            r.msg@ == "success"@,
            r.character_count == Some(characters.character_count),
            r.permission == account.permission,
            r.privilege == account.privilege,
            r.user_no == account.user_no,
            r.user_name == account.user_name,
            r.auth_key == Some(auth.auth_key),
    {
        LoginResponse {
            return_value: true,
            return_code: 0,
            msg: String::from_str("success"),
            character_count: Some(characters.character_count),
            permission: account.permission,
            privilege: account.privilege,
            user_no: account.user_no,
            user_name: account.user_name,
            auth_key: Some(auth.auth_key),
        }
    }
}

/// Whether one of the cookies, given by name, is the launcher's session
/// cookie: its name contains `launcher`.
pub fn has_launcher_cookie(names: &Vec<String>) -> (r: bool)
    ensures
        r == exists|i: int| 0 <= i < names@.len() && spec_contains(#[trigger] names@[i]@, "launcher"@),
{
    let n = names.len();
    for i in 0..n
        invariant
            n == names@.len(),
            forall|j: int| 0 <= j < i ==> !spec_contains(#[trigger] names@[j]@, "launcher"@),
    {
        if contains(names[i].as_str(), "launcher") {
            return true;
        }
    }
    false
}

} // verus!

verus! {

/// An answer is rejected exactly when its return value is false, and then
/// the rejection carries its return code and message unchanged.
pub proof fn lemma_rejection_laws(return_value: bool, return_code: i64, msg: Seq<char>)
    ensures
        spec_rejection(return_value, return_code, msg) is None <==> return_value,
        !return_value ==> spec_rejection(return_value, return_code, msg) == Some(
            (return_code, msg),
        ),
{
}

} // verus!
