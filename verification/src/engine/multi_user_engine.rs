//! One engine per user: each account is kept apart from every other.
use crate::decimal::Dec;
use crate::engine::engine::{fresh_engine, Engine};
use vstd::prelude::*;
use vstd::string::StringExecFns;

verus! {

/// A user's account: its own engine.
#[derive(Debug)]
pub struct UserAccount {
    pub engine: Engine,
}

/// The accounts of all users, each under its user id, in the order created;
/// user ids are distinct.
#[derive(Debug)]
pub struct MultiUserEngine {
    pub users: Vec<(String, UserAccount)>,
}

/// `slot` is where the user id first occurs, or `users.len()` if nowhere.
pub open spec fn first_user_slot(users: Seq<(String, UserAccount)>, user_id: Seq<char>, slot: int) -> bool {
    &&& 0 <= slot <= users.len()
    &&& forall|j: int| 0 <= j < slot ==> users[j].0@ != user_id
    &&& slot < users.len() ==> users[slot].0@ == user_id
}

/// The index of the user's account, or `users.len()` if the user has none.
pub open spec fn user_slot(users: Seq<(String, UserAccount)>, user_id: Seq<char>) -> int {
    choose|slot: int| first_user_slot(users, user_id, slot)
}

pub proof fn lemma_user_slot(users: Seq<(String, UserAccount)>, user_id: Seq<char>, slot: int)
    requires
        first_user_slot(users, user_id, slot),
    ensures
        user_slot(users, user_id) == slot,
{
    let k = user_slot(users, user_id);
    assert(first_user_slot(users, user_id, k));
    if k < slot {
        assert(users[k].0@ == user_id);
    } else if slot < k {
        assert(users[slot].0@ == user_id);
    }
}

/// Whether every user id occurs once.
pub open spec fn distinct_users(users: Seq<(String, UserAccount)>) -> bool {
    forall|i: int, j: int| 0 <= i < j < users.len() ==> users[i].0@ != users[j].0@
}

/// `new` is `old` with at most the account of `user_id` changed: the same
/// user ids in the same order, and every account under another user id as
/// it was.
pub open spec fn only_account_changed(
    old: Seq<(String, UserAccount)>,
    new: Seq<(String, UserAccount)>,
    user_id: Seq<char>,
) -> bool {
    &&& new.len() == old.len()
    &&& forall|i: int|
        0 <= i < old.len() ==> (#[trigger] new[i]).0 == old[i].0 && (old[i].0@ != user_id
            ==> new[i].1 == old[i].1)
}

/// Writing any account into the user's slot changes that account alone.
proof fn lemma_write_slot(users: Seq<(String, UserAccount)>, user_id: Seq<char>, slot: int)
    requires
        first_user_slot(users, user_id, slot),
        slot < users.len(),
    ensures
        forall|acc: UserAccount|
            #[trigger] only_account_changed(
                users,
                users.update(slot, (users[slot].0, acc)),
                user_id,
            ),
{
}

impl MultiUserEngine {
    /// No users.
    pub fn new() -> (r: MultiUserEngine)
        ensures
            r.users@.len() == 0,
    {
        MultiUserEngine { users: Vec::new() }
    }

    fn find_user(&self, user_id: &str) -> (r: usize)
        ensures
            r == user_slot(self.users@, user_id@),
            first_user_slot(self.users@, user_id@, r as int),
    {
        let wanted = String::from_str(user_id);
        let mut i: usize = 0;
        while i < self.users.len()
            invariant
                i <= self.users@.len(),
                wanted@ == user_id@,
                forall|j: int| 0 <= j < i ==> self.users@[j].0@ != user_id@,
            decreases self.users@.len() - i,
        {
            if self.users[i].0.eq(&wanted) {
                proof {
                    lemma_user_slot(self.users@, user_id@, i as int);
                }
                return i;
            }
            i = i + 1;
        }
        proof {
            lemma_user_slot(self.users@, user_id@, i as int);
        }
        i
    }

    /// The user's account, created with a fresh engine holding
    /// `initial_balance` if the user has none yet.
    pub fn get_or_create_user(&mut self, user_id: &str, initial_balance: Dec) -> (r: &mut UserAccount)
        ensures
            ({
                let n = old(self).users@.len();
                let slot = user_slot(old(self).users@, user_id@);
                &&& slot < n ==> *r == old(self).users@[slot].1 && final(self).users@
                    == old(self).users@.update(slot, (old(self).users@[slot].0, *final(r)))
                    && only_account_changed(old(self).users@, final(self).users@, user_id@)
                &&& slot == n ==> {
                    &&& fresh_engine(r.engine, initial_balance)
                    &&& final(self).users@.len() == n + 1
                    &&& final(self).users@.subrange(0, n as int) == old(self).users@
                    &&& final(self).users@[slot].0@ == user_id@
                    &&& final(self).users@[slot].1 == *final(r)
                }
            }),
    {
        let slot = self.find_user(user_id);
        proof {
            if slot < self.users@.len() {
                lemma_write_slot(self.users@, user_id@, slot as int);
            }
        }
        if slot == self.users.len() {
            let account = UserAccount { engine: Engine::new(initial_balance) };
            self.users.push((String::from_str(user_id), account));
            assert(self.users@.subrange(0, slot as int) =~= old(self).users@);
        }
        &mut self.users[slot].1
    }

    /// The user's account, if the user has one.
    pub fn get_user(&self, user_id: &str) -> (r: Option<&UserAccount>)
        ensures
            ({
                let slot = user_slot(self.users@, user_id@);
                match r {
                    Some(a) => slot < self.users@.len() && *a == self.users@[slot].1,
                    None => slot == self.users@.len(),
                }
            }),
    {
        let slot = self.find_user(user_id);
        if slot < self.users.len() {
            Some(&self.users[slot].1)
        } else {
            None
        }
    }

    /// The user's account for changing, if the user has one; whatever is done
    /// through it changes that account alone.
    pub fn get_user_mut(&mut self, user_id: &str) -> (r: Option<&mut UserAccount>)
        ensures
            ({
                let slot = user_slot(old(self).users@, user_id@);
                &&& r is Some <==> slot < old(self).users@.len()
                &&& r is None ==> *final(self) == *old(self)
            }),
            r matches Some(a) ==> ({
                let slot = user_slot(old(self).users@, user_id@);
                &&& *a == old(self).users@[slot].1
                &&& final(self).users@ == old(self).users@.update(
                    slot,
                    (old(self).users@[slot].0, *final(a)),
                )
                &&& only_account_changed(old(self).users@, final(self).users@, user_id@)
            }),
    {
        let slot = self.find_user(user_id);
        proof {
            if slot < self.users@.len() {
                lemma_write_slot(self.users@, user_id@, slot as int);
            }
        }
        if slot < self.users.len() {
            Some(&mut self.users[slot].1)
        } else {
            None
        }
    }

    /// The user ids, in the order the accounts were created.
    pub fn get_all_users(&self) -> (r: Vec<String>)
        ensures
            r@.len() == self.users@.len(),
            forall|i: int| 0 <= i < r@.len() ==> r@[i]@ == self.users@[i].0@,
    {
        let mut out: Vec<String> = Vec::new();
        let mut i: usize = 0;
        while i < self.users.len()
            invariant
                i <= self.users@.len(),
                out@.len() == i,
                forall|j: int| 0 <= j < i ==> out@[j]@ == self.users@[j].0@,
            decreases self.users@.len() - i,
        {
            out.push(self.users[i].0.clone());
            i = i + 1;
        }
        out
    }
}

impl Default for MultiUserEngine {
    fn default() -> (r: MultiUserEngine)
        ensures
            r.users@.len() == 0,
    {
        MultiUserEngine::new()
    }
}

} // verus!
