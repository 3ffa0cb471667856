//! User request and response shapes.

use vstd::prelude::*;

use crate::user::User;

verus! {

/// Body of a sign-up: the new account's email address.
pub struct SignUpReq {
    pub email: String,
}

/// Body of a sign-in.
pub struct SignInReq {
    pub email: String,
    pub passwd: String,
}

/// One user as reported to clients.
pub struct UserResp {
    pub id: u64,
    pub name: String,
    pub email: String,
    pub description: Option<String>,
}

impl UserResp {
    pub fn of_user(user: User) -> (r: UserResp)
        ensures
            r.id == user.id,
            r.name == user.name,
            r.email == user.email,
            r.description == user.description,
    {
        UserResp {
            id: user.id,
            name: user.name,
            email: user.email,
            description: user.description,
        }
    }
}

} // verus!
