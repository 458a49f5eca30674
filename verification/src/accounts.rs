//! The user directory: the in-memory model of user persistence.
//!
//! Accounts are only ever appended; the directory assigns each one the
//! decimal rendering of its position as its identity, so identities are
//! unique and at most 20 characters long — strictly shorter than a session
//! token, which keeps the two key families apart in the cache.

use vstd::prelude::*;

verus! {

use crate::ids::dec_seq;
use crate::ids::lemma_dec_seq_injective;
use crate::ids::lemma_dec_seq_len_le_20;
use crate::ids::u64_to_dec;

/// One user record.
pub struct Account {
    pub id: String,
    pub username: String,
    pub email: String,
    pub password: String,
    pub phone: String,
    pub active: bool,
    pub create_at: u64,
    pub update_at: Option<u64>,
}

/// The projection of an account that user listings return.
pub struct UserSummary {
    pub username: String,
    pub email: String,
    pub phone: String,
    pub create_at: u64,
}

/// `s` shows exactly the listed fields of `a`.
pub open spec fn reflects(s: UserSummary, a: Account) -> bool {
    &&& s.username@ == a.username@
    &&& s.email@ == a.email@
    &&& s.phone@ == a.phone@
    &&& s.create_at == a.create_at
}

/// Index of the first account satisfying `p`, if any.
pub open spec fn find_first(s: Seq<Account>, p: spec_fn(Account) -> bool) -> Option<int>
    decreases s.len(),
{
    if s.len() == 0 {
        None
    } else if p(s[0]) {
        Some(0)
    } else {
        match find_first(s.drop_first(), p) {
            Some(i) => Some(i + 1),
            None => None,
        }
    }
}

pub open spec fn with_email(e: Seq<char>) -> spec_fn(Account) -> bool {
    |a: Account| a.email@ == e
}

pub open spec fn with_id(id: Seq<char>) -> spec_fn(Account) -> bool {
    |a: Account| a.id@ == id
}

/// `a1` is `a0` with the activation flag set.
pub open spec fn same_but_active(a1: Account, a0: Account) -> bool {
    &&& a1.id == a0.id
    &&& a1.username == a0.username
    &&& a1.email == a0.email
    &&& a1.password == a0.password
    &&& a1.phone == a0.phone
    &&& a1.active == true
    &&& a1.create_at == a0.create_at
    &&& a1.update_at == a0.update_at
}

/// `a1` is `a0` with a new stored password hash and an update stamp.
pub open spec fn same_but_password(a1: Account, a0: Account, password: String, now: u64) -> bool {
    &&& a1.id == a0.id
    &&& a1.username == a0.username
    &&& a1.email == a0.email
    &&& a1.password == password
    &&& a1.phone == a0.phone
    &&& a1.active == a0.active
    &&& a1.create_at == a0.create_at
    &&& a1.update_at == Some(now)
}

/// Whether an account passes a user-listing name filter.
pub open spec fn matches_filter(a: Account, name: Option<Seq<char>>) -> bool {
    match name {
        Some(n) => a.username@ == n,
        None => true,
    }
}

pub open spec fn name_filter(name: Option<Seq<char>>) -> spec_fn(Account) -> bool {
    |a: Account| matches_filter(a, name)
}

pub open spec fn opt_view(name: Option<&String>) -> Option<Seq<char>> {
    match name {
        Some(n) => Some(n@),
        None => None,
    }
}

/// First index of the page window over a filtered listing of length `len`.
pub open spec fn page_lo(len: int, skip: int) -> int {
    if skip <= len {
        skip
    } else {
        len
    }
}

/// End index (exclusive) of the page window over a filtered listing of
/// length `len`.
pub open spec fn page_hi(len: int, skip: int, count: int) -> int {
    if skip + count <= len {
        skip + count
    } else {
        len
    }
}

/// What `find_first` returns: the first index satisfying `p`, or nothing
/// when no index does.
pub proof fn lemma_find_first_props(s: Seq<Account>, p: spec_fn(Account) -> bool)
    ensures
        match find_first(s, p) {
            Some(i) => 0 <= i < s.len() && p(s[i]) && (forall|j: int| 0 <= j < i ==> !p(s[j])),
            None => forall|j: int| 0 <= j < s.len() ==> !p(s[j]),
        },
    decreases s.len(),
{
    if s.len() > 0 && !p(s[0]) {
        lemma_find_first_props(s.drop_first(), p);
        match find_first(s.drop_first(), p) {
            Some(i) => {
                assert forall|j: int| 0 <= j < i + 1 implies !p(s[j]) by {
                    if j > 0 {
                        assert(s.drop_first()[j - 1] == s[j]);
                    }
                }
            },
            None => {
                assert forall|j: int| 0 <= j < s.len() implies !p(s[j]) by {
                    if j > 0 {
                        assert(s.drop_first()[j - 1] == s[j]);
                    }
                }
            },
        }
    }
}

proof fn lemma_find_first_at(s: Seq<Account>, p: spec_fn(Account) -> bool, i: int)
    requires
        0 <= i < s.len(),
        p(s[i]),
        forall|j: int| 0 <= j < i ==> !p(s[j]),
    ensures
        find_first(s, p) == Some(i),
    decreases s.len(),
{
    if i > 0 {
        assert forall|j: int| 0 <= j < i - 1 implies !p(s.drop_first()[j]) by {
            assert(s.drop_first()[j] == s[j + 1]);
        }
        assert(s.drop_first()[i - 1] == s[i]);
        lemma_find_first_at(s.drop_first(), p, i - 1);
    }
}

proof fn lemma_find_first_none(s: Seq<Account>, p: spec_fn(Account) -> bool)
    requires
        forall|j: int| 0 <= j < s.len() ==> !p(s[j]),
    ensures
        find_first(s, p) is None,
    decreases s.len(),
{
    if s.len() > 0 {
        assert forall|j: int| 0 <= j < s.drop_first().len() implies !p(s.drop_first()[j]) by {
            assert(s.drop_first()[j] == s[j + 1]);
        }
        lemma_find_first_none(s.drop_first(), p);
    }
}

/// The collection of accounts. Its view is the sequence of records in
/// insertion order.
pub struct Directory {
    accounts: Vec<Account>,
}

impl Directory {
    pub closed spec fn view(&self) -> Seq<Account> {
        self.accounts@
    }

    /// Every account's identity is the decimal rendering of its position.
    pub open spec fn wf(&self) -> bool {
        forall|i: int| 0 <= i < self@.len() ==> self@[i].id@ == dec_seq(i as nat)
    }

    /// An empty directory.
    pub fn new() -> (r: Directory)
        ensures
            r.wf(),
            r@ == Seq::<Account>::empty(),
    {
        Directory { accounts: Vec::new() }
    }

    pub fn len(&self) -> (r: usize)
        ensures
            r == self@.len(),
    {
        self.accounts.len()
    }

    pub fn account(&self, i: usize) -> (r: &Account)
        requires
            i < self@.len(),
        ensures
            *r == self@[i as int],
    {
        &self.accounts[i]
    }

    /// `findByEmail`: index of the first account with this email, if any.
    pub fn find_by_email(&self, email: &str) -> (r: Option<usize>)
        ensures
            match r {
                Some(i) => find_first(self@, with_email(email@)) == Some(i as int) && i
                    < self@.len() && self@[i as int].email@ == email@,
                None => find_first(self@, with_email(email@)) is None,
            },
    {
        let owned = email.to_owned();
        let n = self.accounts.len();
        let mut i: usize = 0;
        while i < n
            invariant
                i <= n,
                n == self@.len(),
                owned@ == email@,
                forall|j: int| 0 <= j < i ==> self@[j].email@ != email@,
            decreases n - i,
        {
            if self.accounts[i].email == owned {
                proof {
                    lemma_find_first_at(self@, with_email(email@), i as int);
                }
                return Some(i);
            }
            i += 1;
        }
        proof {
            lemma_find_first_none(self@, with_email(email@));
        }
        None
    }

    /// Index of the first account with this identity, if any.
    pub fn find_by_id(&self, id: &str) -> (r: Option<usize>)
        ensures
            match r {
                Some(i) => find_first(self@, with_id(id@)) == Some(i as int) && i < self@.len()
                    && self@[i as int].id@ == id@,
                None => find_first(self@, with_id(id@)) is None,
            },
    {
        let owned = id.to_owned();
        let n = self.accounts.len();
        let mut i: usize = 0;
        while i < n
            invariant
                i <= n,
                n == self@.len(),
                owned@ == id@,
                forall|j: int| 0 <= j < i ==> self@[j].id@ != id@,
            decreases n - i,
        {
            if self.accounts[i].id == owned {
                proof {
                    lemma_find_first_at(self@, with_id(id@), i as int);
                }
                return Some(i);
            }
            i += 1;
        }
        proof {
            lemma_find_first_none(self@, with_id(id@));
        }
        None
    }

    /// `insert`: appends a new, inactive account and returns its identity.
    pub fn insert(
        &mut self,
        username: String,
        email: String,
        password: String,
        phone: String,
        now: u64,
    ) -> (id: String)
        requires
            old(self).wf(),
        ensures
            final(self).wf(),
            final(self)@.len() == old(self)@.len() + 1,
            forall|j: int| 0 <= j < old(self)@.len() ==> final(self)@[j] == old(self)@[j],
            id@ == dec_seq(old(self)@.len() as nat),
            ({
                let a = final(self)@.last();
                &&& a.id@ == dec_seq(old(self)@.len() as nat)
                &&& a.username == username
                &&& a.email == email
                &&& a.password == password
                &&& a.phone == phone
                &&& a.active == false
                &&& a.create_at == now
                &&& a.update_at is None
            }),
    {
        let n = self.accounts.len();
        let id = u64_to_dec(n as u64);
        let stored_id = id.clone();
        self.accounts.push(
            Account {
                id: stored_id,
                username,
                email,
                password,
                phone,
                active: false,
                create_at: now,
                update_at: None,
            },
        );
        id
    }

    /// Marks the first account with this identity active; reports whether
    /// one was found. Nothing else changes.
    pub fn set_active(&mut self, id: &str) -> (r: bool)
        requires
            old(self).wf(),
        ensures
            final(self).wf(),
            final(self)@.len() == old(self)@.len(),
            match find_first(old(self)@, with_id(id@)) {
                Some(i) => {
                    &&& r == true
                    &&& (forall|j: int|
                        0 <= j < old(self)@.len() && j != i ==> final(self)@[j] == old(self)@[j])
                    &&& same_but_active(final(self)@[i], old(self)@[i])
                },
                None => r == false && final(self)@ == old(self)@,
            },
    {
        match self.find_by_id(id) {
            Some(i) => {
                let ghost before = self.accounts@;
                let a = self.accounts.remove(i);
                let Account { id: aid, username, email, password, phone, active: _, create_at, update_at } =
                    a;
                self.accounts.insert(
                    i,
                    Account {
                        id: aid,
                        username,
                        email,
                        password,
                        phone,
                        active: true,
                        create_at,
                        update_at,
                    },
                );
                proof {
                    assert forall|j: int| 0 <= j < before.len() && j != i implies self.accounts@[j]
                        == before[j] by {
                        assert(self.accounts@[j] == if j < i {
                            before[j]
                        } else {
                            before[j]
                        });
                    }
                }
                true
            },
            None => false,
        }
    }

    /// Replaces the stored password hash of the first account with this
    /// identity and stamps the update time; reports whether one was found.
    pub fn set_password(&mut self, id: &str, password: String, now: u64) -> (r: bool)
        requires
            old(self).wf(),
        ensures
            final(self).wf(),
            final(self)@.len() == old(self)@.len(),
            match find_first(old(self)@, with_id(id@)) {
                Some(i) => {
                    &&& r == true
                    &&& (forall|j: int|
                        0 <= j < old(self)@.len() && j != i ==> final(self)@[j] == old(self)@[j])
                    &&& same_but_password(final(self)@[i], old(self)@[i], password, now)
                },
                None => r == false && final(self)@ == old(self)@,
            },
    {
        match self.find_by_id(id) {
            Some(i) => {
                let ghost before = self.accounts@;
                let a = self.accounts.remove(i);
                let Account { id: aid, username, email, password: _, phone, active, create_at, update_at: _ } =
                    a;
                self.accounts.insert(
                    i,
                    Account {
                        id: aid,
                        username,
                        email,
                        password,
                        phone,
                        active,
                        create_at,
                        update_at: Some(now),
                    },
                );
                proof {
                    assert forall|j: int| 0 <= j < before.len() && j != i implies self.accounts@[j]
                        == before[j] by {
                        assert(self.accounts@[j] == if j < i {
                            before[j]
                        } else {
                            before[j]
                        });
                    }
                }
                true
            },
            None => false,
        }
    }

    /// One page of a user listing: of the accounts that pass the name
    /// filter, skip the first `(page_num - 1) * page_size` and show at most
    /// `page_size`, projected to their listed fields.
    pub fn page_users(&self, name: Option<&String>, page_size: usize, page_num: usize) -> (r: Vec<
        UserSummary,
    >)
        requires
            page_num >= 1,
            page_num * page_size <= usize::MAX,
        ensures
            ({
                let f = self@.filter(name_filter(opt_view(name)));
                let skip = (page_num - 1) * page_size;
                let lo = page_lo(f.len() as int, skip);
                let hi = page_hi(f.len() as int, skip, page_size as int);
                &&& r@.len() == hi - lo
                &&& forall|j: int| 0 <= j < r@.len() ==> reflects(#[trigger] r@[j], f[lo + j])
            }),
    {
        proof {
            assert((page_num - 1) * page_size + page_size == page_num * page_size)
                by (nonlinear_arith);
        }
        let skip = (page_num - 1) * page_size;
        let ghost p = name_filter(opt_view(name));
        let n = self.accounts.len();
        let mut out: Vec<UserSummary> = Vec::new();
        let mut matched: usize = 0;
        let mut i: usize = 0;
        while i < n
            invariant
                i <= n,
                matched <= i,
                n == self@.len(),
                p == name_filter(opt_view(name)),
                matched == self@.subrange(0, i as int).filter(p).len(),
                ({
                    let f = self@.subrange(0, i as int).filter(p);
                    let lo = page_lo(f.len() as int, skip as int);
                    let hi = page_hi(f.len() as int, skip as int, page_size as int);
                    &&& out@.len() == hi - lo
                    &&& forall|j: int| 0 <= j < out@.len() ==> reflects(#[trigger] out@[j], f[lo + j])
                }),
            decreases n - i,
        {
            let ghost pre = self@.subrange(0, i as int);
            let ghost fpre = pre.filter(p);
            let account = &self.accounts[i];
            let is_match = match name {
                Some(filter_name) => account.username == *filter_name,
                None => true,
            };
            proof {
                assert(self@.subrange(0, i + 1) =~= pre.push(self@[i as int]));
                pre.lemma_filter_push(self@[i as int], p);
                assert(is_match == p(self@[i as int]));
            }
            if is_match {
                if matched >= skip && out.len() < page_size {
                    out.push(
                        UserSummary {
                            username: account.username.clone(),
                            email: account.email.clone(),
                            phone: account.phone.clone(),
                            create_at: account.create_at,
                        },
                    );
                    proof {
                        let f = self@.subrange(0, i + 1).filter(p);
                        assert(f =~= fpre.push(self@[i as int]));
                        let lo = page_lo(f.len() as int, skip as int);
                        assert forall|j: int| 0 <= j < out@.len() implies reflects(
                            #[trigger] out@[j],
                            f[lo + j],
                        ) by {
                            if j < out@.len() - 1 {
                                assert(f[lo + j] == fpre[lo + j]);
                            }
                        }
                    }
                }
                matched += 1;
            }
            i += 1;
        }
        proof {
            assert(self@.subrange(0, n as int) =~= self@);
        }
        out
    }

    /// Law: no two accounts share an identity.
    pub proof fn lemma_ids_unique(&self, i: int, j: int)
        requires
            self.wf(),
            0 <= i < self@.len(),
            0 <= j < self@.len(),
            i != j,
        ensures
            self@[i].id@ != self@[j].id@,
    {
        if self@[i].id@ == self@[j].id@ {
            lemma_dec_seq_injective(i as nat, j as nat);
        }
    }

    /// An identity the directory assigned is at most 20 characters long.
    pub proof fn lemma_id_short(&self, i: int)
        requires
            self.wf(),
            0 <= i < self@.len(),
            i <= u64::MAX,
        ensures
            self@[i].id@.len() <= 20,
    {
        lemma_dec_seq_len_le_20(i as u64);
    }
}

} // verus!
