//! User accounts, their public projection, and the request shapes of the
//! login and signup calls.

use vstd::prelude::*;

verus! {

/// One user account.  `password` always holds a salted, memory-hard hash,
/// never the plain password.
#[derive(Debug)]
pub struct User {
    pub id: i32,
    pub email: String,
    pub username: String,
    pub name: String,
    pub lastname: String,
    pub role: i8,
    pub password: String,
}

/// The mathematical content of a user account.
pub ghost struct UserView {
    pub id: int,
    pub email: Seq<char>,
    pub username: Seq<char>,
    pub name: Seq<char>,
    pub lastname: Seq<char>,
    pub role: int,
    pub password: Seq<char>,
}

impl View for User {
    type V = UserView;

    open spec fn view(&self) -> UserView {
        UserView {
            id: self.id as int,
            email: self.email@,
            username: self.username@,
            name: self.name@,
            lastname: self.lastname@,
            role: self.role as int,
            password: self.password@,
        }
    }
}

impl Clone for User {
    fn clone(&self) -> (r: Self)
        ensures
            r@ == self@,
    {
        User {
            id: self.id,
            email: self.email.clone(),
            username: self.username.clone(),
            name: self.name.clone(),
            lastname: self.lastname.clone(),
            role: self.role,
            password: self.password.clone(),
        }
    }
}

/// A user as shown to other users: everything but the credentials.
#[derive(Debug)]
pub struct PublicUser {
    pub id: i32,
    pub email: String,
    pub name: String,
    pub lastname: String,
    pub role: i8,
}

/// The mathematical content of a public user.
pub ghost struct PublicUserView {
    pub id: int,
    pub email: Seq<char>,
    pub name: Seq<char>,
    pub lastname: Seq<char>,
    pub role: int,
}

impl View for PublicUser {
    type V = PublicUserView;

    open spec fn view(&self) -> PublicUserView {
        PublicUserView {
            id: self.id as int,
            email: self.email@,
            name: self.name@,
            lastname: self.lastname@,
            role: self.role as int,
        }
    }
}

impl Clone for PublicUser {
    fn clone(&self) -> (r: Self)
        ensures
            r@ == self@,
    {
        PublicUser {
            id: self.id,
            email: self.email.clone(),
            name: self.name.clone(),
            lastname: self.lastname.clone(),
            role: self.role,
        }
    }
}

/// The public projection of a user account.
pub open spec fn public_view_of(u: UserView) -> PublicUserView {
    PublicUserView { id: u.id, email: u.email, name: u.name, lastname: u.lastname, role: u.role }
}

/// The body of an HTTP login call.
pub struct LoginModel {
    pub email: String,
    pub password: String,
}

/// The body of an HTTP signup call.
pub struct SignupModel {
    pub password: String,
    pub email: String,
    pub name: String,
    pub lastname: String,
    pub username: String,
}

} // verus!
