//! The two record types: a name waiting to be inserted, and a
//! persisted row with its store-assigned id.

use vstd::prelude::*;

verus! {

/// A user record before it is persisted: just a name.
#[derive(Debug)]
pub struct User {
    pub name: String,
}

impl User {
    pub fn new(name: String) -> (u: User)
        ensures
            u.name == name,
    {
        User { name }
    }
}

impl Clone for User {
    fn clone(&self) -> (u: Self)
        ensures
            u.name@ == self.name@,
    {
        User { name: self.name.clone() }
    }
}

/// The names of a sequence of user records, in order.
pub open spec fn names_of(users: Seq<User>) -> Seq<Seq<char>> {
    users.map_values(|u: User| u.name@)
}

/// A persisted row: the store-assigned id and the unique name.
#[derive(Debug)]
pub struct DbUser {
    pub id: usize,
    pub name: String,
}

impl DbUser {
    pub fn new(id: usize, name: String) -> (u: DbUser)
        ensures
            u.id == id,
            u.name == name,
    {
        DbUser { id, name }
    }
}

impl Clone for DbUser {
    fn clone(&self) -> (u: Self)
        ensures
            u.id == self.id,
            u.name@ == self.name@,
    {
        DbUser { id: self.id, name: self.name.clone() }
    }
}

} // verus!
