//! A small sample domain — users kept in a keyed store — exercised by the
//! integration tests and indexed as example input.

use vstd::prelude::*;
use std::collections::HashMap;
use crate::text::{contains_char, contains_str, lower_of, lowercase, spec_contains, spec_dec,
    u64_to_dec};

verus! {

broadcast use vstd::std_specs::hash::group_hash_axioms;

/// A user record.
#[derive(Debug)]
pub struct User {
    pub id: u32,
    pub name: String,
    pub email: String,
    pub age: Option<u32>,
}

impl User {
    /// A user with no age on record.
    pub fn new(id: u32, name: String, email: String) -> (r: User)
        ensures
            r.id == id,
            r.name == name,
            r.email == email,
            r.age is None,
    {
        User { id, name, email, age: None }
    }

    /// The same user with an age.
    pub fn with_age(self, age: u32) -> (r: User)
        ensures
            r.id == self.id,
            r.name == self.name,
            r.email == self.email,
            r.age == Some(age),
    {
        User { age: Some(age), ..self }
    }

    /// A field-for-field copy.
    pub fn clone_user(&self) -> (r: User)
        ensures
            r == *self,
    {
        let r = User {
            id: self.id,
            name: self.name.clone(),
            email: self.email.clone(),
            age: self.age,
        };
        proof {
            assert(r == *self);
        }
        r
    }

    /// The display form: the name followed by the identifier.
    pub fn get_display_name(&self) -> (r: String)
        ensures
            r@ == self.name@ + " (ID: "@ + spec_dec(self.id as nat) + ")"@,
    {
        let mut s = self.name.clone();
        s.append(" (ID: ");
        s.append(u64_to_dec(self.id as u64).as_str());
        s.append(")");
        s
    }

    /// Whether the user is at least 18, false when no age is on record.
    pub fn is_adult(&self) -> (r: bool)
        ensures
            r == match self.age {
                Some(a) => a >= 18,
                None => false,
            },
    {
        match self.age {
            Some(a) => a >= 18,
            None => false,
        }
    }

    /// Checks the record: a name must be present and the email well-formed.
    pub fn validate(&self) -> (r: Result<(), String>)
        ensures
            self.name@.len() == 0 ==> (r matches Err(m) && m@ == "Name cannot be empty"@),
            self.name@.len() > 0 && !spec_valid_email(self.email@) ==> (r matches Err(m) && m@
                == "Invalid email format"@),
            self.name@.len() > 0 && spec_valid_email(self.email@) ==> r is Ok,
    {
        if self.name.as_str().unicode_len() == 0 {
            return Err("Name cannot be empty".to_owned());
        }
        if !is_valid_email(self.email.as_str()) {
            return Err("Invalid email format".to_owned());
        }
        Ok(())
    }
}

/// A well-formed email: holds both an `@` and a `.`.
pub open spec fn spec_valid_email(email: Seq<char>) -> bool {
    email.contains('@') && email.contains('.')
}

/// Checks an email for the characters a well-formed one holds.
pub fn is_valid_email(email: &str) -> (r: bool)
    ensures
        r == spec_valid_email(email@),
{
    contains_char(email, '@') && contains_char(email, '.')
}

/// The display names of the adult users, in order.
pub open spec fn spec_process(users: Seq<User>, n: nat) -> Seq<Seq<char>>
    decreases n,
{
    if n == 0 {
        Seq::empty()
    } else {
        spec_process(users, (n - 1) as nat) + if (match users[n - 1].age {
            Some(a) => a >= 18,
            None => false,
        }) {
            seq![users[n - 1].name@ + " (ID: "@ + spec_dec(users[n - 1].id as nat) + ")"@]
        } else {
            Seq::empty()
        }
    }
}

/// Keeps the adult users and renders their display names.
pub fn process_users(users: Vec<User>) -> (r: Vec<String>)
    ensures
        r.deep_view() == spec_process(users@, users@.len() as nat),
{
    let n = users.len();
    let mut out: Vec<String> = Vec::new();
    let mut i: usize = 0;
    while i < n
        invariant
            0 <= i <= n,
            n == users@.len(),
            out.deep_view() =~= spec_process(users@, i as nat),
        decreases n - i,
    {
        let ghost pre = out.deep_view();
        if users[i].is_adult() {
            out.push(users[i].get_display_name());
            proof {
                assert(out.deep_view() =~~= pre.push(
                    users@[i as int].name@ + " (ID: "@ + spec_dec(users@[i as int].id as nat)
                        + ")"@,
                ));
            }
        }
        proof {
            assert(out.deep_view() =~~= spec_process(users@, (i + 1) as nat));
        }
        i += 1;
    }
    out
}

/// Looks an item up by its numeric key.
pub fn find_by_id<'a, T>(items: &'a HashMap<u32, T>, id: u32) -> (r: Option<&'a T>)
    ensures
        r == if items@.contains_key(id) {
            Some(&items@[id])
        } else {
            None::<&'a T>
        },
{
    items.get(&id)
}

/// An age threshold test, as a reusable predicate value: the returned
/// closure accepts exactly the users whose recorded age reaches the
/// threshold.
pub fn create_filter_fn(min_age: u32) -> (r: impl Fn(&User) -> bool)
    ensures
        forall|u: &User| #[trigger] call_requires(r, (u,)),
        forall|u: &User, b: bool|
            #[trigger] call_ensures(r, (u,), b) ==> b == (match u.age {
                Some(a) => a >= min_age,
                None => false,
            }),
{
    move |user: &User| -> (b: bool)
        ensures
            b == (match user.age {
                Some(a) => a >= min_age,
                None => false,
            }),
        {
            match user.age {
                Some(a) => a >= min_age,
                None => false,
            }
        }
}

/// A keyed store of users with insertion-ordered listing.
#[derive(Debug)]
pub struct UserService {
    users: HashMap<u32, User>,
    order: Vec<u32>,
    next_id: u32,
}

/// The stored users a listing walks: the order entries present in the map,
/// in insertion order.
pub open spec fn spec_listing(m: Map<u32, User>, order: Seq<u32>, n: nat) -> Seq<User>
    decreases n,
{
    if n == 0 {
        Seq::empty()
    } else {
        spec_listing(m, order, (n - 1) as nat) + if m.contains_key(order[n - 1]) {
            seq![m[order[n - 1]]]
        } else {
            Seq::empty()
        }
    }
}

impl UserService {
    /// The stored map of users.
    pub closed spec fn map_view(&self) -> Map<u32, User> {
        self.users@
    }

    /// The identifiers in insertion order.
    pub closed spec fn order_view(&self) -> Seq<u32> {
        self.order@
    }

    /// The next identifier to hand out.
    pub closed spec fn spec_next_id(&self) -> u32 {
        self.next_id
    }

    /// An empty store; identifiers start at 1.
    pub fn new() -> (r: UserService)
        ensures
            r.map_view() == Map::<u32, User>::empty(),
            r.order_view() == Seq::<u32>::empty(),
            r.spec_next_id() == 1u32,
    {
        UserService { users: HashMap::new(), order: Vec::new(), next_id: 1 }
    }

    /// Stores a new user under the next identifier and returns a copy.
    pub fn create_user(&mut self, name: String, email: String) -> (r: User)
        requires
            old(self).spec_next_id() < u32::MAX,
        ensures
            r.id == old(self).spec_next_id(),
            r.name == name,
            r.email == email,
            r.age is None,
            final(self).map_view() == old(self).map_view().insert(r.id, r),
            final(self).order_view() == old(self).order_view().push(r.id),
            final(self).spec_next_id() == old(self).spec_next_id() + 1,
    {
        let user = User::new(self.next_id, name, email);
        let copy = user.clone_user();
        let id = self.next_id;
        self.users.insert(id, user);
        self.order.push(id);
        self.next_id = self.next_id + 1;
        proof {
            assert(copy == old(self).map_view().insert(copy.id, copy)[copy.id]);
        }
        copy
    }

    /// The user stored under `id`, if any.
    pub fn get_user(&self, id: u32) -> (r: Option<&User>)
        ensures
            r == if self.map_view().contains_key(id) {
                Some(&self.map_view()[id])
            } else {
                None::<&User>
            },
    {
        self.users.get(&id)
    }

    /// Rewrites the stored name and email where given; returns the updated
    /// user, or `None` for an unknown identifier.
    pub fn update_user(&mut self, id: u32, name: Option<String>, email: Option<String>) -> (r:
        Option<&User>)
        ensures
            !old(self).map_view().contains_key(id) ==> r is None && final(self).map_view() == old(
                self,
            ).map_view(),
            old(self).map_view().contains_key(id) ==> {
                let prev = old(self).map_view()[id];
                let updated = User {
                    id: prev.id,
                    name: match name {
                        Some(n) => n,
                        None => prev.name,
                    },
                    email: match email {
                        Some(e) => e,
                        None => prev.email,
                    },
                    age: prev.age,
                };
                &&& final(self).map_view() == old(self).map_view().insert(id, updated)
                &&& r == Some(&final(self).map_view()[id])
            },
            final(self).order_view() == old(self).order_view(),
            final(self).spec_next_id() == old(self).spec_next_id(),
    {
        let existing = match self.users.get(&id) {
            Some(u) => u.clone_user(),
            None => {
                return None;
            },
        };
        let updated = User {
            id: existing.id,
            name: match name {
                Some(n) => n,
                None => existing.name,
            },
            email: match email {
                Some(e) => e,
                None => existing.email,
            },
            age: existing.age,
        };
        self.users.insert(id, updated);
        self.users.get(&id)
    }

    /// Removes the user under `id`; reports whether one was there. The
    /// insertion order is untouched: listings simply skip the removed key.
    pub fn delete_user(&mut self, id: u32) -> (r: bool)
        ensures
            r == old(self).map_view().contains_key(id),
            final(self).map_view() == old(self).map_view().remove(id),
            final(self).order_view() == old(self).order_view(),
            final(self).spec_next_id() == old(self).spec_next_id(),
    {
        self.users.remove(&id).is_some()
    }

    /// The stored users whose lowercased name contains the lowercased
    /// query, in insertion order.
    pub fn find_users_by_name(&self, query: &str) -> (r: Vec<User>)
        ensures
            ({
                let listing = spec_listing(
                    self.map_view(),
                    self.order_view(),
                    self.order_view().len() as nat,
                );
                r@ == filter_by_name(listing, lower_of(query@), listing.len() as nat)
            }),
    {
        let needle = lowercase(query);
        let ghost listing = spec_listing(
            self.map_view(),
            self.order_view(),
            self.order_view().len() as nat,
        );
        let all = self.get_all_users();
        let n = all.len();
        let mut out: Vec<User> = Vec::new();
        let mut i: usize = 0;
        while i < n
            invariant
                0 <= i <= n,
                n == all@.len(),
                all@ == listing,
                needle@ == lower_of(query@),
                out@ =~= filter_by_name(listing, lower_of(query@), i as nat),
            decreases n - i,
        {
            let lname = lowercase(all[i].name.as_str());
            if contains_str(lname.as_str(), needle.as_str()) {
                out.push(all[i].clone_user());
            }
            proof {
                assert(out@ =~= filter_by_name(listing, lower_of(query@), (i + 1) as nat));
            }
            i += 1;
        }
        out
    }

    /// Every stored user, in insertion order.
    pub fn get_all_users(&self) -> (r: Vec<User>)
        ensures
            r@ == spec_listing(self.map_view(), self.order_view(), self.order_view().len() as nat),
    {
        let n = self.order.len();
        let mut out: Vec<User> = Vec::new();
        let mut i: usize = 0;
        while i < n
            invariant
                0 <= i <= n,
                n == self.order_view().len(),
                out@ =~= spec_listing(self.map_view(), self.order_view(), i as nat),
            decreases n - i,
        {
            match self.users.get(&self.order[i]) {
                Some(u) => {
                    out.push(u.clone_user());
                },
                None => {},
            }
            proof {
                assert(out@ =~= spec_listing(self.map_view(), self.order_view(), (i + 1) as nat));
            }
            i += 1;
        }
        out
    }
}

/// The users whose lowercased name contains `needle`, among the first `n`.
pub open spec fn filter_by_name(users: Seq<User>, needle: Seq<char>, n: nat) -> Seq<User>
    decreases n,
{
    if n == 0 {
        Seq::empty()
    } else {
        filter_by_name(users, needle, (n - 1) as nat) + if spec_contains(
            lower_of(users[n - 1].name@),
            needle,
        ) {
            seq![users[n - 1]]
        } else {
            Seq::empty()
        }
    }
}

} // verus!
