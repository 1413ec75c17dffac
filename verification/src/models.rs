use vstd::prelude::*;

use crate::text::str_eq;

verus! {

/// The three account roles. Role text is persisted as a string; every
/// policy decision goes through this closed enumeration.
#[derive(Clone, Copy, Debug, PartialEq, Eq, Structural)]
pub enum UserRole {
    Admin,
    User,
    Controller,
}

/// The role that a stored role string denotes, if any.
pub open spec fn spec_role_from_text(s: Seq<char>) -> Option<UserRole> {
    if s == "admin"@ {
        Some(UserRole::Admin)
    } else if s == "user"@ {
        Some(UserRole::User)
    } else if s == "controller"@ {
        Some(UserRole::Controller)
    } else {
        None
    }
}

/// A stored role string is one of the three enumerated values.
pub open spec fn valid_role(s: Seq<char>) -> bool {
    spec_role_from_text(s) is Some
}

impl UserRole {
    /// The text form under which this role is persisted.
    pub open spec fn text(self) -> Seq<char> {
        match self {
            UserRole::Admin => "admin"@,
            UserRole::User => "user"@,
            UserRole::Controller => "controller"@,
        }
    }

    pub fn as_str(&self) -> (r: &'static str)
        ensures
            r@ == self.text(),
    {
        match self {
            UserRole::Admin => "admin",
            UserRole::User => "user",
            UserRole::Controller => "controller",
        }
    }

    pub fn from_str(s: &str) -> (r: Option<UserRole>)
        ensures
            r == spec_role_from_text(s@),
    {
        if str_eq(s, "admin") {
            Some(UserRole::Admin)
        } else if str_eq(s, "user") {
            Some(UserRole::User)
        } else if str_eq(s, "controller") {
            Some(UserRole::Controller)
        } else {
            None
        }
    }
}

/// An account of the store. The password hash never leaves the core in
/// serialized form; omitting it on the way out is the shell's concern.
#[derive(Debug)]
pub struct User {
    pub id: i64,
    pub username: String,
    pub password_hash: String,
    pub role: String,
    pub created_at: String,
}

/// The mathematical content of an account.
pub ghost struct UserV {
    pub id: int,
    pub username: Seq<char>,
    pub password_hash: Seq<char>,
    pub role: Seq<char>,
    pub created_at: Seq<char>,
}

impl View for User {
    type V = UserV;

    open spec fn view(&self) -> UserV {
        UserV {
            id: self.id as int,
            username: self.username@,
            password_hash: self.password_hash@,
            role: self.role@,
            created_at: self.created_at@,
        }
    }
}

impl DeepView for User {
    type V = UserV;

    open spec fn deep_view(&self) -> UserV {
        self.view()
    }
}

impl User {
    pub fn role_enum(&self) -> (r: Option<UserRole>)
        ensures
            r == spec_role_from_text(self.role@),
    {
        UserRole::from_str(self.role.as_str())
    }
}

/// An explicit field-by-field copy; its contract ties the copy to the
/// original, which a derived clone would not.
pub fn copy_user(u: &User) -> (r: User)
    ensures
        r == *u,
{
    User {
        id: u.id,
        username: u.username.clone(),
        password_hash: u.password_hash.clone(),
        role: u.role.clone(),
        created_at: u.created_at.clone(),
    }
}

} // verus!
