//! A flat registry of users with validated names and e-mail addresses.
use vstd::prelude::*;

use crate::text::{chars_of, is_whitespace, push_decimal, white_space, decimal};
use crate::utils::{valid_email, validate_email};

verus! {

/// One registered user.
#[derive(Debug, Clone, PartialEq)]
pub struct User {
    pub id: u32,
    pub name: String,
    pub email: String,
    pub active: bool,
}

/// Empty or made only of whitespace.
pub open spec fn blank(s: Seq<char>) -> bool {
    forall|i: int| 0 <= i < s.len() ==> #[trigger] white_space(s[i])
}

pub open spec fn has_user(users: Seq<User>, id: u32) -> bool {
    exists|i: int| 0 <= i < users.len() && #[trigger] users[i].id == id
}

/// `i` is the first position of a user with this id.
pub open spec fn first_with_id(users: Seq<User>, id: u32, i: int) -> bool {
    &&& 0 <= i < users.len()
    &&& users[i].id == id
    &&& forall|j: int| 0 <= j < i ==> #[trigger] users[j].id != id
}

pub open spec fn already_exists_message(id: u32) -> Seq<char> {
    "User with ID "@ + decimal(id as nat) + " already exists"@
}

pub open spec fn not_found_message(id: u32) -> Seq<char> {
    "User with ID "@ + decimal(id as nat) + " not found"@
}

pub open spec fn empty_name_message() -> Seq<char> {
    "User name cannot be empty"@
}

pub open spec fn invalid_email_message() -> Seq<char> {
    "Invalid email format"@
}

/// Why a user's name or e-mail address is refused, if it is.
pub open spec fn profile_error(user: User) -> Option<Seq<char>> {
    if blank(user.name@) {
        Some(empty_name_message())
    } else if !valid_email(user.email@) {
        Some(invalid_email_message())
    } else {
        None
    }
}

/// Why `add_user` refuses this user, if it does: a taken id first, then the
/// profile.
pub open spec fn add_error(users: Seq<User>, user: User) -> Option<Seq<char>> {
    if has_user(users, user.id) {
        Some(already_exists_message(user.id))
    } else {
        profile_error(user)
    }
}

/// Why `update_user` refuses, if it does: the profile first, then a missing
/// id.
pub open spec fn update_error(users: Seq<User>, id: u32, user: User) -> Option<Seq<char>> {
    if profile_error(user) is Some {
        profile_error(user)
    } else if !has_user(users, id) {
        Some(not_found_message(id))
    } else {
        None
    }
}

/// Holds of a user whose id is not `id`.
pub open spec fn user_id_is_not(id: u32) -> spec_fn(User) -> bool {
    |u: User| u.id != id
}

/// Holds of an active user.
pub open spec fn user_is_active() -> spec_fn(User) -> bool {
    |u: User| u.active
}

/// Holds of an inactive user.
pub open spec fn user_is_inactive() -> spec_fn(User) -> bool {
    |u: User| !u.active
}

/// Whether `s` is empty or all whitespace.
pub(crate) fn is_blank(s: &String) -> (r: bool)
    ensures
        r == blank(s@),
{
    let cs = chars_of(s.as_str());
    let mut i: usize = 0;
    while i < cs.len()
        invariant
            i <= cs@.len(),
            cs@ == s@,
            forall|j: int| 0 <= j < i ==> #[trigger] white_space(cs@[j]),
        decreases cs@.len() - i,
    {
        if !is_whitespace(cs[i]) {
            return false;
        }
        i = i + 1;
    }
    true
}

fn message_with_id(id: u32, tail: &str) -> (r: String)
    ensures
        r@ == "User with ID "@ + decimal(id as nat) + tail@,
{
    let mut m = String::from_str("User with ID ");
    push_decimal(&mut m, id);
    m.append(tail);
    m
}

/// Why the profile is refused, as the error that the registry returns.
fn check_profile(user: &User) -> (r: Result<(), String>)
    ensures
        r is Ok <==> profile_error(*user) is None,
        r matches Err(e) ==> profile_error(*user) == Some(e@),
{
    if is_blank(&user.name) {
        return Err(String::from_str("User name cannot be empty"));
    }
    if !validate_email(user.email.as_str()) {
        return Err(String::from_str("Invalid email format"));
    }
    Ok(())
}

/// Keeps users in the order in which they were added.
#[derive(Debug)]
pub struct UserManager {
    users: Vec<User>,
}

impl View for UserManager {
    type V = Seq<User>;

    closed spec fn view(&self) -> Seq<User> {
        self.users@
    }
}

impl UserManager {
    pub fn new() -> (r: UserManager)
        ensures
            r@.len() == 0,
    {
        UserManager { users: Vec::new() }
    }

    /// The first position of a user with this id.
    fn position(&self, id: u32) -> (r: Option<usize>)
        ensures
            r is None <==> !has_user(self@, id),
            r matches Some(i) ==> first_with_id(self@, id, i as int),
    {
        let mut i: usize = 0;
        while i < self.users.len()
            invariant
                i <= self.users@.len(),
                forall|j: int| 0 <= j < i ==> #[trigger] self.users@[j].id != id,
            decreases self.users@.len() - i,
        {
            if self.users[i].id == id {
                return Some(i);
            }
            i = i + 1;
        }
        None
    }

    /// Adds a user whose id is free, whose name is not blank and whose
    /// e-mail address is valid.
    pub fn add_user(&mut self, user: User) -> (r: Result<(), String>)
        ensures
            r is Ok <==> add_error(old(self)@, user) is None,
            r is Ok ==> final(self)@ == old(self)@.push(user),
            r matches Err(e) ==> add_error(old(self)@, user) == Some(e@) && final(self)@ == old(
                self,
            )@,
    {
        if self.position(user.id).is_some() {
            return Err(message_with_id(user.id, " already exists"));
        }
        match check_profile(&user) {
            Err(e) => Err(e),
            Ok(()) => {
                self.users.push(user);
                Ok(())
            },
        }
    }

    /// The first user with this id.
    pub fn get_user(&self, id: u32) -> (r: Option<&User>)
        ensures
            r is None <==> !has_user(self@, id),
            r matches Some(u) ==> exists|i: int| first_with_id(self@, id, i) && *u == self@[i],
    {
        match self.position(id) {
            Some(i) => Some(&self.users[i]),
            None => None,
        }
    }

    /// All users, in the order in which they were added.
    pub fn get_users(&self) -> (r: &Vec<User>)
        ensures
            r@ == self@,
    {
        &self.users
    }

    /// Replaces the first user with this id, where the new profile is valid.
    pub fn update_user(&mut self, id: u32, updated_user: User) -> (r: Result<(), String>)
        ensures
            r is Ok <==> update_error(old(self)@, id, updated_user) is None,
            r is Ok ==> exists|i: int|
                first_with_id(old(self)@, id, i) && final(self)@ == old(self)@.update(
                    i,
                    updated_user,
                ),
            r matches Err(e) ==> update_error(old(self)@, id, updated_user) == Some(e@)
                && final(self)@ == old(self)@,
    {
        match check_profile(&updated_user) {
            Err(e) => {
                return Err(e);
            },
            Ok(()) => {},
        }
        match self.position(id) {
            Some(i) => {
                self.users.set(i, updated_user);
                Ok(())
            },
            None => Err(message_with_id(id, " not found")),
        }
    }

    /// Removes every user with this id; an error where there is none.
    pub fn delete_user(&mut self, id: u32) -> (r: Result<(), String>)
        ensures
            r is Ok <==> has_user(old(self)@, id),
            final(self)@ == old(self)@.filter(user_id_is_not(id)),
            r matches Err(e) ==> e@ == not_found_message(id),
    {
        let ghost orig = self.users@;
        let ghost p = user_id_is_not(id);
        let initial_len = self.users.len();
        let mut i: usize = 0;
        let ghost mut j: int = 0;
        while i < self.users.len()
            invariant
                0 <= j <= orig.len(),
                p == user_id_is_not(id),
                orig == old(self)@,
                initial_len == orig.len(),
                self.users@ == orig.take(j).filter(p) + orig.skip(j),
                i == orig.take(j).filter(p).len(),
                i <= j,
                (i == j) == (forall|m: int| 0 <= m < j ==> #[trigger] orig[m].id != id),
            decreases orig.len() - j,
        {
            proof {
                reveal(Seq::filter);
                assert(orig.take(j + 1).drop_last() =~= orig.take(j));
                assert(orig.take(j + 1).last() == orig[j]);
                orig.take(j).lemma_filter_len(p);
            }
            assert(self.users@[i as int] == orig[j]);
            if self.users[i].id == id {
                self.users.remove(i);
                proof {
                    assert(!p(orig[j]));
                    assert(orig.take(j + 1).filter(p) == orig.take(j).filter(p));
                    assert(self.users@ =~= orig.take(j + 1).filter(p) + orig.skip(j + 1));
                    j = j + 1;
                }
            } else {
                proof {
                    assert(p(orig[j]));
                    assert(orig.take(j + 1).filter(p) == orig.take(j).filter(p).push(orig[j]));
                    assert(self.users@ =~= orig.take(j + 1).filter(p) + orig.skip(j + 1));
                    j = j + 1;
                }
                i = i + 1;
            }
        }
        proof {
            assert(orig.take(j).filter(p).len() + orig.skip(j).len() == i);
            assert(j == orig.len());
            assert(orig.take(j) =~= orig);
            assert(self.users@ =~= orig.filter(p));
        }
        if self.users.len() == initial_len {
            assert(!has_user(orig, id));
            Err(message_with_id(id, " not found"))
        } else {
            Ok(())
        }
    }

    fn collect_by_activity(&self, active: bool) -> (r: Vec<&User>)
        ensures
            active ==> r@.len() == self@.filter(user_is_active()).len() && forall|i: int|
                0 <= i < r@.len() ==> *r@[i] == self@.filter(user_is_active())[i],
            !active ==> r@.len() == self@.filter(user_is_inactive()).len() && forall|i: int|
                0 <= i < r@.len() ==> *r@[i] == self@.filter(user_is_inactive())[i],
    {
        let ghost p = if active { user_is_active() } else { user_is_inactive() };
        let mut out: Vec<&User> = Vec::new();
        let mut i: usize = 0;
        while i < self.users.len()
            invariant
                i <= self.users@.len(),
                p == if active { user_is_active() } else { user_is_inactive() },
                out@.len() == self.users@.take(i as int).filter(p).len(),
                forall|m: int|
                    0 <= m < out@.len() ==> *out@[m] == self.users@.take(i as int).filter(p)[m],
            decreases self.users@.len() - i,
        {
            proof {
                reveal(Seq::filter);
                assert(self.users@.take(i + 1).drop_last() =~= self.users@.take(i as int));
            }
            let u = &self.users[i];
            if u.active == active {
                out.push(u);
            }
            i = i + 1;
        }
        assert(self.users@.take(i as int) =~= self.users@);
        out
    }

    /// The active users, in order.
    pub fn get_active_users(&self) -> (r: Vec<&User>)
        ensures
            r@.len() == self@.filter(user_is_active()).len(),
            forall|i: int| 0 <= i < r@.len() ==> *r@[i] == self@.filter(user_is_active())[i],
    {
        self.collect_by_activity(true)
    }

    /// The inactive users, in order.
    pub fn get_inactive_users(&self) -> (r: Vec<&User>)
        ensures
            r@.len() == self@.filter(user_is_inactive()).len(),
            forall|i: int| 0 <= i < r@.len() ==> *r@[i] == self@.filter(user_is_inactive())[i],
    {
        self.collect_by_activity(false)
    }

    fn set_active(&mut self, id: u32, active: bool) -> (r: Result<(), String>)
        ensures
            r is Ok <==> has_user(old(self)@, id),
            r is Ok ==> exists|i: int|
                first_with_id(old(self)@, id, i) && final(self)@ == old(self)@.update(
                    i,
                    User { active, ..old(self)@[i] },
                ),
            r matches Err(e) ==> e@ == not_found_message(id) && final(self)@ == old(self)@,
    {
        match self.position(id) {
            Some(i) => {
                self.users[i].active = active;
                assert(self@ =~= old(self)@.update(i as int, User { active, ..old(self)@[i as int] }));
                Ok(())
            },
            None => Err(message_with_id(id, " not found")),
        }
    }

    /// Marks the first user with this id active.
    pub fn activate_user(&mut self, id: u32) -> (r: Result<(), String>)
        ensures
            r is Ok <==> has_user(old(self)@, id),
            r is Ok ==> exists|i: int|
                first_with_id(old(self)@, id, i) && final(self)@ == old(self)@.update(
                    i,
                    User { active: true, ..old(self)@[i] },
                ),
            r matches Err(e) ==> e@ == not_found_message(id) && final(self)@ == old(self)@,
    {
        self.set_active(id, true)
    }

    /// Marks the first user with this id inactive.
    pub fn deactivate_user(&mut self, id: u32) -> (r: Result<(), String>)
        ensures
            r is Ok <==> has_user(old(self)@, id),
            r is Ok ==> exists|i: int|
                first_with_id(old(self)@, id, i) && final(self)@ == old(self)@.update(
                    i,
                    User { active: false, ..old(self)@[i] },
                ),
            r matches Err(e) ==> e@ == not_found_message(id) && final(self)@ == old(self)@,
    {
        self.set_active(id, false)
    }

    /// Replaces every user at once, as when a saved registry is loaded.
    pub fn set_users(&mut self, users: Vec<User>)
        ensures
            final(self)@ == users@,
    {
        self.users = users;
    }

    pub fn count(&self) -> (r: usize)
        ensures
            r == self@.len(),
    {
        self.users.len()
    }

    pub fn clear(&mut self)
        ensures
            final(self)@.len() == 0,
    {
        self.users.clear();
    }
}

impl Default for UserManager {
    fn default() -> (r: UserManager)
        ensures
            r@.len() == 0,
    {
        UserManager::new()
    }
}

} // verus!
