use vstd::prelude::*;

verus! {

/// The data of a user.
#[derive(Debug)]
pub struct UserInner {
    pub id: String,
    pub name: String,
}

/// A user of the exchange, as a value: a copy does not see a later rename of
/// another copy. Where several holders must see one user, the user is recorded in
/// a `UserRegistry` and passed by handle.
#[derive(Debug)]
pub struct User(pub UserInner);

impl User {
    pub fn new(id: String, name: String) -> (u: Self)
        ensures
            u.0.id == id,
            u.0.name == name,
    {
        Self(UserInner { id, name })
    }

    pub fn id(&self) -> (r: String)
        ensures
            r == self.0.id,
    {
        self.0.id.clone()
    }

    pub fn name(&self) -> (r: String)
        ensures
            r == self.0.name,
    {
        self.0.name.clone()
    }

    /// Renames the user; the id is kept.
    pub fn set_name(&mut self, new_name: String)
        ensures
            final(self).0.name == new_name,
            final(self).0.id == old(self).0.id,
    {
        self.0.name = new_name;
    }
}

impl Clone for User {
    fn clone(&self) -> (r: Self)
        ensures
            r == *self,
    {
        User(UserInner { id: self.0.id.clone(), name: self.0.name.clone() })
    }
}

} // verus!
