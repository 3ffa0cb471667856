//! Users: per-tenant accounts.

use vstd::prelude::*;

use crate::folder::clone_opt_text;

verus! {

/// One user row.
pub struct User {
    pub id: u64,
    pub tenant_id: u64,
    pub name: String,
    pub email: String,
    pub password: Option<String>,
    pub owner: bool,
    pub description: Option<String>,
}

impl Clone for User {
    fn clone(&self) -> (r: User)
        ensures
            r == *self,
    {
        User {
            id: self.id,
            tenant_id: self.tenant_id,
            name: self.name.clone(),
            email: self.email.clone(),
            password: clone_opt_text(&self.password),
            owner: self.owner,
            description: clone_opt_text(&self.description),
        }
    }
}

impl User {
    /// A fresh account with the default display name and no password yet.
    /// `id` comes from the identity generator.
    pub fn new(id: u64, tenant_id: u64, email: String, owner: bool) -> (r: User)
        ensures
            r.id == id,
            r.tenant_id == tenant_id,
            r.name@ == "uflow"@,
            r.email == email,
            r.password is None,
            r.owner == owner,
            r.description is None,
    {
        User {
            id,
            tenant_id,
            name: "uflow".to_owned(),
            email,
            password: None,
            owner,
            description: None,
        }
    }
}

/// A row answers a credential check when the email matches and the stored
/// password is present and matches.
pub open spec fn credentials_match(u: User, email: Seq<char>, passwd: Seq<char>) -> bool {
    u.email@ == email && match u.password {
        Some(p) => p@ == passwd,
        None => false,
    }
}

/// The user table.
pub struct UserDao {
    rows: Vec<User>,
}

impl View for UserDao {
    type V = Seq<User>;

    closed spec fn view(&self) -> Seq<User> {
        self.rows@
    }
}

impl UserDao {
    pub fn new() -> (r: UserDao)
        ensures
            r@ == Seq::<User>::empty(),
    {
        let r = UserDao { rows: Vec::new() };
        proof {
            assert(r@ =~= Seq::<User>::empty());
        }
        r
    }

    /// Appends one row as given; returns its id.
    pub fn insert(&mut self, user: User) -> (id: u64)
        ensures
            final(self)@ == old(self)@.push(user),
            id == user.id,
    {
        let id = user.id;
        self.rows.push(user);
        id
    }

    /// All rows of one tenant, in table order.
    pub fn list(&self, tenant_id: u64) -> (r: Vec<User>)
        ensures
            r@ == self@.filter(|u: User| u.tenant_id == tenant_id),
    {
        let mut out: Vec<User> = Vec::new();
        let ghost pred = |u: User| u.tenant_id == tenant_id;
        proof {
            reveal(Seq::filter);
            assert(self@.subrange(0, 0) =~= Seq::<User>::empty());
            assert(out@ =~= self@.subrange(0, 0).filter(pred));
        }
        let mut i: usize = 0;
        while i < self.rows.len()
            invariant
                i <= self@.len(),
                out@ == self@.subrange(0, i as int).filter(pred),
                pred == (|u: User| u.tenant_id == tenant_id),
            decreases self@.len() - i,
        {
            proof {
                reveal(Seq::filter);
                assert(self@.subrange(0, i + 1).drop_last() =~= self@.subrange(0, i as int));
                assert(self@.subrange(0, i + 1).last() == self@[i as int]);
            }
            if self.rows[i].tenant_id == tenant_id {
                out.push(self.rows[i].clone());
            }
            i = i + 1;
        }
        proof {
            assert(self@.subrange(0, self@.len() as int) =~= self@);
        }
        out
    }

    /// Credential lookup: the first row whose email and password match.
    pub fn get(&self, email: &String, passwd: &String) -> (r: Option<User>)
        ensures
            r is Some <==> exists|i: int|
                0 <= i < self@.len() && credentials_match(#[trigger] self@[i], email@, passwd@),
            r matches Some(u) ==> exists|i: int|
                0 <= i < self@.len() && #[trigger] self@[i] == u && credentials_match(
                    u,
                    email@,
                    passwd@,
                ),
    {
        let mut i: usize = 0;
        while i < self.rows.len()
            invariant
                i <= self@.len(),
                forall|j: int| 0 <= j < i ==> !credentials_match(#[trigger] self@[j], email@,
                passwd@),
            decreases self@.len() - i,
        {
            let hit = {
                let u = &self.rows[i];
                u.email == *email && match &u.password {
                    Some(p) => *p == *passwd,
                    None => false,
                }
            };
            if hit {
                proof {
                    assert(credentials_match(self@[i as int], email@, passwd@));
                }
                return Some(self.rows[i].clone());
            }
            i = i + 1;
        }
        proof {
            if exists|i: int|
                0 <= i < self@.len() && credentials_match(#[trigger] self@[i], email@, passwd@) {
                let i = choose|i: int|
                    0 <= i < self@.len() && credentials_match(#[trigger] self@[i], email@,
                    passwd@);
                assert(false);
            }
        }
        None
    }
}

} // verus!
