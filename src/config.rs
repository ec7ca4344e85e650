//! The configuration that the server reads: its users, their passwords and
//! the names each of them may update.

use vstd::prelude::*;
use vstd::seq_lib::*;
use crate::text::folded;
use crate::types::{bcrypt_verdict, trimmed, Domain};
use crate::update::Address;

verus! {

/// The form in which a name is compared: folded, without a final dot.
pub open spec fn name_key(s: Seq<char>) -> Seq<u32> {
    folded(trimmed(s))
}

/// The set of names that a user is authorized to update.
///
/// Membership is by exact name (letters folded), never by suffix.
#[derive(Clone, Debug)]
pub struct Domains {
    items: Vec<Domain>,
}

impl View for Domains {
    type V = Set<Seq<u32>>;

    closed spec fn view(&self) -> Set<Seq<u32>> {
        Set::new(|k: Seq<u32>| exists|i: int| 0 <= i < self.items@.len() && name_key(self.items@[i]@) == k)
    }
}

impl Domains {
    /// No name is held twice.
    pub closed spec fn wf(&self) -> bool {
        forall|i: int, j: int|
            0 <= i < self.items@.len() && 0 <= j < self.items@.len() && i != j ==> name_key(
                self.items@[i]@,
            ) != name_key(self.items@[j]@)
    }

    /// Creates an empty set of names.
    pub fn new() -> (r: Domains)
        ensures
            r.wf(),
            r@ == Set::<Seq<u32>>::empty(),
    {
        let r = Domains { items: Vec::new() };
        assert(r@ =~= Set::<Seq<u32>>::empty());
        r
    }

    /// The position of a name in the set, if it is there.
    fn position(&self, domain: &Domain) -> (r: Option<usize>)
        ensures
            r matches Some(i) ==> i < self.items@.len() && name_key(self.items@[i as int]@)
                == name_key(domain@),
            r is None ==> !self@.contains(name_key(domain@)),
    {
        let mut i: usize = 0;
        while i < self.items.len()
            invariant
                0 <= i <= self.items@.len(),
                forall|k: int| 0 <= k < i ==> name_key(self.items@[k]@) != name_key(domain@),
            decreases self.items@.len() - i,
        {
            if self.items[i].same_as(domain) {
                return Some(i);
            }
            i = i + 1;
        }
        None
    }

    /// Whether the name is in the set.
    pub fn contains(&self, domain: &Domain) -> (r: bool)
        ensures
            r == self@.contains(name_key(domain@)),
    {
        self.position(domain).is_some()
    }

    /// Adds a name to the set; `true` where it was not there before.
    pub fn add(&mut self, domain: Domain) -> (r: bool)
        requires
            old(self).wf(),
        ensures
            final(self).wf(),
            r == !old(self)@.contains(name_key(domain@)),
            final(self)@ == old(self)@.insert(name_key(domain@)),
    {
        match self.position(&domain) {
            Some(_) => {
                assert(self@ =~= old(self)@.insert(name_key(domain@)));
                false
            },
            None => {
                let ghost k = name_key(domain@);
                self.items.push(domain);
                assert forall|i: int| 0 <= i < self.items@.len() - 1 implies name_key(
                    self.items@[i]@,
                ) != k by {
                    assert(name_key(old(self).items@[i]@) != k);
                }
                assert(self@ =~= old(self)@.insert(k)) by {
                    assert(name_key(self.items@[self.items@.len() - 1]@) == k);
                    assert forall|x: Seq<u32>| old(self)@.contains(x) implies self@.contains(x) by {
                        let i = choose|i: int|
                            0 <= i < old(self).items@.len() && name_key(old(self).items@[i]@) == x;
                        assert(self.items@[i] == old(self).items@[i]);
                    }
                }
                true
            },
        }
    }

    /// Removes a name from the set; `true` where it was there.
    pub fn rm(&mut self, domain: &Domain) -> (r: bool)
        requires
            old(self).wf(),
        ensures
            final(self).wf(),
            r == old(self)@.contains(name_key(domain@)),
            final(self)@ == old(self)@.remove(name_key(domain@)),
    {
        match self.position(domain) {
            Some(i) => {
                let ghost k = name_key(domain@);
                let ghost before = self.items@;
                self.items.remove(i);
                assert(self.items@ =~= before.remove(i as int));
                assert(self@ =~= old(self)@.remove(k)) by {
                    assert forall|x: Seq<u32>| self@.contains(x) implies old(self)@.contains(x) && x
                        != k by {
                        let j = choose|j: int| 0 <= j < self.items@.len() && name_key(self.items@[j]@) == x;
                        if j < i {
                            assert(self.items@[j] == before[j]);
                        } else {
                            assert(self.items@[j] == before[j + 1]);
                        }
                    }
                    assert forall|x: Seq<u32>| old(self)@.contains(x) && x != k implies self@.contains(x) by {
                        let j = choose|j: int| 0 <= j < before.len() && name_key(before[j]@) == x;
                        assert(j != i);
                        if j < i {
                            assert(self.items@[j] == before[j]);
                        } else {
                            assert(self.items@[j - 1] == before[j]);
                        }
                    }
                }
                true
            },
            None => {
                assert(self@ =~= old(self)@.remove(name_key(domain@)));
                false
            },
        }
    }

    /// The names of the set, each once.
    pub fn names(&self) -> (r: &Vec<Domain>)
        requires
            self.wf(),
        ensures
            forall|i: int, j: int|
                0 <= i < r@.len() && 0 <= j < r@.len() && i != j ==> name_key(r@[i]@) != name_key(r@[j]@),
            forall|i: int| 0 <= i < r@.len() ==> self@.contains(name_key(#[trigger] r@[i]@)),
            forall|k: Seq<u32>| self@.contains(k) ==> exists|i: int| 0 <= i < r@.len() && name_key(r@[i]@) == k,
    {
        &self.items
    }
}

/// What the configuration holds of one user.
#[derive(Clone, Debug)]
pub struct User {
    /// The salted hash of the password.
    pub pw: crate::types::Hash,
    /// The names the user may update.
    pub domains: Domains,
}

impl User {
    /// The user's set of names is well formed.
    pub open spec fn wf(&self) -> bool {
        self.domains.wf()
    }

    /// A user with this password and no names yet; `None` where the password
    /// could not be hashed.
    pub fn with_pw(pw: &str) -> (r: Option<User>)
        ensures
            r matches Some(u) ==> u.wf() && bcrypt_verdict(pw@, u.pw@) == Some(true)
                && u.domains@ == Set::<Seq<u32>>::empty(),
    {
        match crate::types::Hash::new(pw) {
            Some(h) => Some(User { pw: h, domains: Domains::new() }),
            None => None,
        }
    }
}

/// The users of the server by name.
#[derive(Clone, Debug)]
pub struct Users {
    entries: Vec<(String, User)>,
}

/// The position of a user name among the entries, for one that is there.
pub open spec fn entry_of(entries: Seq<(String, User)>, k: Seq<char>) -> int {
    choose|i: int| 0 <= i < entries.len() && entries[i].0@ == k
}

impl View for Users {
    type V = Map<Seq<char>, User>;

    closed spec fn view(&self) -> Map<Seq<char>, User> {
        Map::new(
            |k: Seq<char>| exists|i: int| 0 <= i < self.entries@.len() && self.entries@[i].0@ == k,
            |k: Seq<char>| self.entries@[entry_of(self.entries@, k)].1,
        )
    }
}

impl Users {
    /// No name is held twice, and every user is well formed.
    pub closed spec fn wf(&self) -> bool {
        &&& forall|i: int, j: int|
            0 <= i < self.entries@.len() && 0 <= j < self.entries@.len() && i != j
                ==> self.entries@[i].0@ != self.entries@[j].0@
        &&& forall|i: int| 0 <= i < self.entries@.len() ==> (#[trigger] self.entries@[i]).1.wf()
    }

    /// Every user of a well-formed table is well formed.
    pub proof fn lemma_users_wf(&self, k: Seq<char>)
        requires
            self.wf(),
            self@.contains_key(k),
        ensures
            self@[k].wf(),
    {
        self.lemma_entry(entry_of(self.entries@, k));
    }

    proof fn lemma_entry(&self, i: int)
        requires
            self.wf(),
            0 <= i < self.entries@.len(),
        ensures
            self@.contains_key(self.entries@[i].0@),
            self@[self.entries@[i].0@] == self.entries@[i].1,
            entry_of(self.entries@, self.entries@[i].0@) == i,
    {
        let k = self.entries@[i].0@;
        assert(self@.contains_key(k));
        let j = entry_of(self.entries@, k);
        assert(self.entries@[j].0@ == k);
    }

    /// Creates an empty table.
    pub fn new() -> (r: Users)
        ensures
            r.wf(),
            r@ == Map::<Seq<char>, User>::empty(),
    {
        let r = Users { entries: Vec::new() };
        assert(r@ =~= Map::<Seq<char>, User>::empty());
        r
    }

    fn position(&self, name: &str) -> (r: Option<usize>)
        requires
            self.wf(),
        ensures
            r matches Some(i) ==> i < self.entries@.len() && self.entries@[i as int].0@ == name@,
            r is None ==> !self@.contains_key(name@),
    {
        let key = name.to_owned();
        let mut i: usize = 0;
        while i < self.entries.len()
            invariant
                0 <= i <= self.entries@.len(),
                key@ == name@,
                forall|k: int| 0 <= k < i ==> self.entries@[k].0@ != name@,
            decreases self.entries@.len() - i,
        {
            if self.entries[i].0 == key {
                return Some(i);
            }
            i = i + 1;
        }
        None
    }

    /// The user of this name, if there is one.
    pub fn get(&self, name: &str) -> (r: Option<&User>)
        requires
            self.wf(),
        ensures
            r is Some <==> self@.contains_key(name@),
            r matches Some(u) ==> *u == self@[name@],
    {
        match self.position(name) {
            Some(i) => {
                proof {
                    self.lemma_entry(i as int);
                }
                Some(&self.entries[i].1)
            },
            None => None,
        }
    }

    /// Sets the user of this name; the user it replaced, if any, is returned.
    pub fn insert(&mut self, name: &str, user: User) -> (r: Option<User>)
        requires
            old(self).wf(),
            user.wf(),
        ensures
            final(self).wf(),
            final(self)@ == old(self)@.insert(name@, user),
            r == (if old(self)@.contains_key(name@) {
                Some(old(self)@[name@])
            } else {
                None
            }),
    {
        match self.position(name) {
            Some(i) => {
                proof {
                    self.lemma_entry(i as int);
                }
                let (n, prev) = self.entries.remove(i);
                self.entries.insert(i, (n, user));
                let ghost e = self.entries@;
                let ghost o = old(self).entries@;
                assert(e =~= o.update(i as int, (n, user)));
                proof {
                    assert forall|x: Seq<char>| #[trigger] self@.contains_key(x) == old(self)@.insert(name@, user).contains_key(x) by {
                        if self@.contains_key(x) {
                            let j = choose|j: int| 0 <= j < e.len() && e[j].0@ == x;
                            assert(o[j].0@ == x);
                        }
                        if old(self)@.contains_key(x) {
                            let j = choose|j: int| 0 <= j < o.len() && o[j].0@ == x;
                            assert(e[j].0@ == x);
                        }
                    }
                    assert forall|x: Seq<char>| #[trigger] self@.contains_key(x) implies self@[x] == old(self)@.insert(name@, user)[x] by {
                        let j = choose|j: int| 0 <= j < e.len() && e[j].0@ == x;
                        self.lemma_entry(j);
                        if j != i {
                            old(self).lemma_entry(j);
                        }
                    }
                    assert(self@ =~= old(self)@.insert(name@, user));
                }
                Some(prev)
            },
            None => {
                let n = name.to_owned();
                self.entries.push((n, user));
                let ghost e = self.entries@;
                let ghost o = old(self).entries@;
                proof {
                    assert forall|x: Seq<char>| #[trigger] self@.contains_key(x) == old(self)@.insert(name@, user).contains_key(x) by {
                        if self@.contains_key(x) {
                            let j = choose|j: int| 0 <= j < e.len() && e[j].0@ == x;
                            if j < o.len() {
                                assert(o[j].0@ == x);
                            }
                        }
                        if old(self)@.contains_key(x) {
                            let j = choose|j: int| 0 <= j < o.len() && o[j].0@ == x;
                            assert(e[j].0@ == x);
                        }
                        if x == name@ {
                            assert(e[o.len() as int].0@ == x);
                        }
                    }
                    assert forall|x: Seq<char>| #[trigger] self@.contains_key(x) implies self@[x] == old(self)@.insert(name@, user)[x] by {
                        let j = choose|j: int| 0 <= j < e.len() && e[j].0@ == x;
                        self.lemma_entry(j);
                        if j < o.len() {
                            old(self).lemma_entry(j);
                        }
                    }
                    assert(self@ =~= old(self)@.insert(name@, user));
                }
                None
            },
        }
    }

    /// Adds a user with this password and no names, replacing a user of the
    /// same name; the replaced user, if any, is returned. `Err(())` where the
    /// password could not be hashed, and then nothing changed.
    pub fn add(&mut self, name: &str, pw: &str) -> (r: Result<Option<User>, ()>)
        requires
            old(self).wf(),
        ensures
            final(self).wf(),
            match r {
                Ok(prev) => {
                    &&& final(self)@ == old(self)@.insert(name@, final(self)@[name@])
                    &&& bcrypt_verdict(pw@, final(self)@[name@].pw@) == Some(true)
                    &&& final(self)@[name@].domains@ == Set::<Seq<u32>>::empty()
                    &&& prev == (if old(self)@.contains_key(name@) {
                        Some(old(self)@[name@])
                    } else {
                        None
                    })
                },
                Err(()) => final(self)@ == old(self)@,
            },
    {
        match User::with_pw(pw) {
            Some(u) => Ok(self.insert(name, u)),
            None => Err(()),
        }
    }

    /// Removes the user of this name; the user, if there was one, is returned.
    pub fn rm(&mut self, name: &str) -> (r: Option<User>)
        requires
            old(self).wf(),
        ensures
            final(self).wf(),
            final(self)@ == old(self)@.remove(name@),
            r == (if old(self)@.contains_key(name@) {
                Some(old(self)@[name@])
            } else {
                None
            }),
    {
        match self.position(name) {
            Some(i) => {
                proof {
                    self.lemma_entry(i as int);
                }
                let (_n, prev) = self.entries.remove(i);
                let ghost e = self.entries@;
                let ghost o = old(self).entries@;
                proof {
                    assert forall|x: Seq<char>| #[trigger] self@.contains_key(x) == old(self)@.remove(name@).contains_key(x) by {
                        if self@.contains_key(x) {
                            let j = choose|j: int| 0 <= j < e.len() && e[j].0@ == x;
                            if j < i {
                                assert(o[j].0@ == x);
                            } else {
                                assert(o[j + 1].0@ == x);
                            }
                        }
                        if old(self)@.contains_key(x) && x != name@ {
                            let j = choose|j: int| 0 <= j < o.len() && o[j].0@ == x;
                            if j < i {
                                assert(e[j].0@ == x);
                            } else {
                                assert(e[j - 1].0@ == x);
                            }
                        }
                    }
                    assert forall|x: Seq<char>| #[trigger] self@.contains_key(x) implies self@[x] == old(self)@.remove(name@)[x] by {
                        let j = choose|j: int| 0 <= j < e.len() && e[j].0@ == x;
                        self.lemma_entry(j);
                        if j < i {
                            old(self).lemma_entry(j);
                        } else {
                            old(self).lemma_entry(j + 1);
                        }
                    }
                    assert(self@ =~= old(self)@.remove(name@));
                }
                Some(prev)
            },
            None => {
                assert(self@ =~= old(self)@.remove(name@));
                None
            },
        }
    }

    /// How many users there are.
    pub fn len(&self) -> (r: usize)
        requires
            self.wf(),
        ensures
            r == self@.len(),
    {
        proof {
            let names = self.entries@.map_values(|e: (String, User)| e.0@);
            assert(names.no_duplicates());
            names.unique_seq_to_set();
            assert(self@.dom() =~= names.to_set()) by {
                assert forall|x: Seq<char>| self@.dom().contains(x) implies names.to_set().contains(x) by {
                    let j = choose|j: int| 0 <= j < self.entries@.len() && self.entries@[j].0@ == x;
                    assert(names[j] == x);
                }
                assert forall|x: Seq<char>| names.to_set().contains(x) implies self@.dom().contains(x) by {
                    let j = choose|j: int| 0 <= j < names.len() && names[j] == x;
                    assert(self.entries@[j].0@ == x);
                }
            }
        }
        self.entries.len()
    }

    /// Whether there are no users.
    pub fn is_empty(&self) -> (r: bool)
        requires
            self.wf(),
        ensures
            r == (self@.len() == 0),
    {
        self.len() == 0
    }

    /// The names of the users, each once.
    pub fn names(&self) -> (r: Vec<String>)
        requires
            self.wf(),
        ensures
            forall|i: int, j: int| 0 <= i < r@.len() && 0 <= j < r@.len() && i != j ==> r@[i]@ != r@[j]@,
            forall|i: int| 0 <= i < r@.len() ==> self@.contains_key(#[trigger] r@[i]@),
            forall|k: Seq<char>| self@.contains_key(k) ==> exists|i: int| 0 <= i < r@.len() && r@[i]@ == k,
    {
        let mut r: Vec<String> = Vec::new();
        let mut i: usize = 0;
        while i < self.entries.len()
            invariant
                self.wf(),
                0 <= i <= self.entries@.len(),
                r@.len() == i,
                forall|j: int| 0 <= j < i ==> r@[j]@ == self.entries@[j].0@,
            decreases self.entries@.len() - i,
        {
            r.push(self.entries[i].0.clone());
            i = i + 1;
        }
        proof {
            assert forall|j: int| 0 <= j < r@.len() implies self@.contains_key(#[trigger] r@[j]@) by {
                self.lemma_entry(j);
            }
            assert forall|k: Seq<char>| self@.contains_key(k) implies exists|j: int| 0 <= j < r@.len() && r@[j]@ == k by {
                let j = choose|j: int| 0 <= j < self.entries@.len() && self.entries@[j].0@ == k;
                assert(r@[j]@ == k);
            }
        }
        r
    }
}

/// Why an administrative change of a user's names was refused.
#[derive(Clone, Copy, Debug, PartialEq, Eq, Structural)]
pub enum AdminError {
    /// No user has this name.
    NoSuchUser,
    /// The user may already update the name.
    AlreadyAuthorized,
    /// The user may not update the name in the first place.
    NotAuthorized,
}

impl Users {
    /// Lets a user update one more name. Nothing changes where the user does
    /// not exist or already holds the name.
    pub fn grant(&mut self, name: &str, domain: Domain) -> (r: Result<(), AdminError>)
        requires
            old(self).wf(),
        ensures
            final(self).wf(),
            !old(self)@.contains_key(name@) ==> r == Err::<(), AdminError>(AdminError::NoSuchUser)
                && final(self)@ == old(self)@,
            old(self)@.contains_key(name@) ==> {
                &&& final(self)@ == old(self)@.insert(name@, final(self)@[name@])
                &&& final(self)@[name@].pw == old(self)@[name@].pw
                &&& final(self)@[name@].domains@ == old(self)@[name@].domains@.insert(name_key(domain@))
                &&& r == if old(self)@[name@].domains@.contains(name_key(domain@)) {
                    Err::<(), AdminError>(AdminError::AlreadyAuthorized)
                } else {
                    Ok(())
                }
            },
    {
        proof {
            if old(self)@.contains_key(name@) {
                old(self).lemma_users_wf(name@);
            }
        }
        match self.rm(name) {
            None => {
                assert(self@ =~= old(self)@);
                Err(AdminError::NoSuchUser)
            },
            Some(u) => {
                let mut u = u;
                let added = u.domains.add(domain);
                self.insert(name, u);
                assert(self@ =~= old(self)@.insert(name@, self@[name@]));
                if added {
                    Ok(())
                } else {
                    Err(AdminError::AlreadyAuthorized)
                }
            },
        }
    }

    /// Takes a name away from a user. Nothing changes where the user does
    /// not exist or does not hold the name.
    pub fn revoke(&mut self, name: &str, domain: &Domain) -> (r: Result<(), AdminError>)
        requires
            old(self).wf(),
        ensures
            final(self).wf(),
            !old(self)@.contains_key(name@) ==> r == Err::<(), AdminError>(AdminError::NoSuchUser)
                && final(self)@ == old(self)@,
            old(self)@.contains_key(name@) ==> {
                &&& final(self)@ == old(self)@.insert(name@, final(self)@[name@])
                &&& final(self)@[name@].pw == old(self)@[name@].pw
                &&& final(self)@[name@].domains@ == old(self)@[name@].domains@.remove(name_key(domain@))
                &&& r == if old(self)@[name@].domains@.contains(name_key(domain@)) {
                    Ok(())
                } else {
                    Err::<(), AdminError>(AdminError::NotAuthorized)
                }
            },
    {
        proof {
            if old(self)@.contains_key(name@) {
                old(self).lemma_users_wf(name@);
            }
        }
        match self.rm(name) {
            None => {
                assert(self@ =~= old(self)@);
                Err(AdminError::NoSuchUser)
            },
            Some(u) => {
                let mut u = u;
                let removed = u.domains.rm(domain);
                self.insert(name, u);
                assert(self@ =~= old(self)@.insert(name@, self@[name@]));
                if removed {
                    Ok(())
                } else {
                    Err(AdminError::NotAuthorized)
                }
            },
        }
    }

    /// Gives a user a new password, keeping the user's names. Nothing changes
    /// where the user does not exist or the password could not be hashed
    /// (`Ok(false)`).
    pub fn set_pw(&mut self, name: &str, pw: &str) -> (r: Result<bool, AdminError>)
        requires
            old(self).wf(),
        ensures
            final(self).wf(),
            !old(self)@.contains_key(name@) ==> r == Err::<bool, AdminError>(AdminError::NoSuchUser)
                && final(self)@ == old(self)@,
            old(self)@.contains_key(name@) ==> r is Ok,
            r == Ok::<bool, AdminError>(false) ==> final(self)@ == old(self)@,
            r == Ok::<bool, AdminError>(true) ==> {
                &&& final(self)@ == old(self)@.insert(name@, final(self)@[name@])
                &&& final(self)@[name@].domains == old(self)@[name@].domains
                &&& bcrypt_verdict(pw@, final(self)@[name@].pw@) == Some(true)
            },
    {
        proof {
            if old(self)@.contains_key(name@) {
                old(self).lemma_users_wf(name@);
            }
        }
        let h = match crate::types::Hash::new(pw) {
            Some(h) => h,
            None => {
                return match self.get(name) {
                    Some(_) => Ok(false),
                    None => Err(AdminError::NoSuchUser),
                };
            },
        };
        match self.rm(name) {
            None => {
                assert(self@ =~= old(self)@);
                Err(AdminError::NoSuchUser)
            },
            Some(u) => {
                let mut u = u;
                u.pw = h;
                self.insert(name, u);
                assert(self@ =~= old(self)@.insert(name@, self@[name@]));
                Ok(true)
            },
        }
    }
}

/// A socket address: an IP address and a port.
#[derive(Clone, Copy, Debug, PartialEq, Eq, Structural)]
pub struct Socket {
    pub ip: Address,
    pub port: u16,
}

/// The HTTP server's part of the configuration.
#[derive(Clone, Debug)]
pub struct Http {
    /// Where the server listens.
    pub socket: Socket,
    /// How many worker threads serve requests.
    pub workers: u16,
}

/// The DNS update client's part of the configuration.
#[derive(Clone, Debug)]
pub struct Dns {
    /// The server that receives the queries and updates.
    pub socket: Socket,
    /// The time-to-live of every record written.
    pub ttl: u32,
}

/// A whole configuration, read once and shared read-only; an administrative
/// change produces a new one.
#[derive(Clone, Debug)]
pub struct Config {
    pub http: Http,
    pub dns: Dns,
    pub users: Users,
}

/// The ways in which reading or writing the configuration file fails, each
/// with the file's path.
#[derive(Clone, Debug)]
pub enum Error {
    Open(String),
    Read(String),
    Decode(String),
    Create(String),
    Encode(String),
    Write(String),
}

/// The loopback address 127.0.0.1.
pub const LOOPBACK: u32 = 0x7f00_0001;

/// Relies on `num_cpus::get`: the number of CPUs available, at least one.
#[verifier::external_body]
fn cpu_count() -> (r: usize)
    ensures
        r >= 1,
{
    num_cpus::get()
}

impl Config {
    /// The configuration is well formed: its user table is.
    pub open spec fn wf(&self) -> bool {
        self.users.wf()
    }

    /// The user of this name, if there is one.
    pub fn user(&self, name: &str) -> (r: Option<&User>)
        requires
            self.wf(),
        ensures
            r is Some <==> self.users@.contains_key(name@),
            r matches Some(u) ==> *u == self.users@[name@],
    {
        self.users.get(name)
    }
}

impl Default for Config {
    /// Listens on 127.0.0.1:8053 with two workers per CPU, updates through
    /// 127.0.0.1:53 with a TTL of 60 seconds, and has no users.
    fn default() -> (r: Config)
        ensures
            r.wf(),
            r.users@ == Map::<Seq<char>, User>::empty(),
            r.http.socket == (Socket { ip: Address::V4(LOOPBACK), port: 8053 }),
            r.http.workers >= 2,
            r.dns.socket == (Socket { ip: Address::V4(LOOPBACK), port: 53 }),
            r.dns.ttl == 60,
    {
        let n = cpu_count();
        let workers: u16 = if n > 32767 {
            65535
        } else {
            (2 * n) as u16
        };
        Config {
            http: Http { socket: Socket { ip: Address::V4(LOOPBACK), port: 8053 }, workers },
            dns: Dns { socket: Socket { ip: Address::V4(LOOPBACK), port: 53 }, ttl: 60 },
            users: Users::new(),
        }
    }
}

} // verus!
