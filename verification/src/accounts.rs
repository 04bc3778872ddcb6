//! The account store: usernames with the password each registered, as
//! presented.  Registering a taken name is refused; logging in checks
//! the pair.  This store is deliberately minimal — hashing or any real
//! credential discipline belongs to a collaborator outside this crate.

use vstd::prelude::*;

verus! {

/// Why registration can fail: the username is already taken.
#[derive(PartialEq, Eq, Structural, Debug)]
pub enum AccountError {
    UserExists,
}

/// One stored account: a username and the password it registered with.
pub struct Account {
    pub username: String,
    pub password: String,
}

impl View for Account {
    type V = (Seq<char>, Seq<char>);

    open spec fn view(&self) -> (Seq<char>, Seq<char>) {
        (self.username@, self.password@)
    }
}

/// Whether some account carries `username`.
pub open spec fn has_user(accounts: Seq<(Seq<char>, Seq<char>)>, username: Seq<char>) -> bool {
    exists|i: int| 0 <= i < accounts.len() && accounts[i].0 == username
}

/// Whether some account is exactly the pair `(username, password)`.
pub open spec fn credentials_match(
    accounts: Seq<(Seq<char>, Seq<char>)>,
    username: Seq<char>,
    password: Seq<char>,
) -> bool {
    exists|i: int|
        0 <= i < accounts.len() && accounts[i].0 == username && accounts[i].1 == password
}

/// The store of all registered accounts.  Usernames are unique.
pub struct AccountStore {
    pub accounts: Vec<Account>,
}

impl View for AccountStore {
    type V = Seq<(Seq<char>, Seq<char>)>;

    open spec fn view(&self) -> Seq<(Seq<char>, Seq<char>)> {
        self.accounts@.map_values(|a: Account| a@)
    }
}

impl AccountStore {
    /// Internal invariant: no username is stored twice.
    pub open spec fn wf(self) -> bool {
        forall|i: int, j: int|
            0 <= i < j < self@.len() ==> #[trigger] self@[i].0 != #[trigger] self@[j].0
    }

    /// An empty store: nobody is registered.
    pub fn new() -> (r: AccountStore)
        ensures
            r.wf(),
            r@ =~= Seq::<(Seq<char>, Seq<char>)>::empty(),
    {
        AccountStore { accounts: Vec::new() }
    }

    /// The index of the account for `username`, if any.
    fn find_account(&self, username: &String) -> (r: Option<usize>)
        ensures
            match r {
                Some(i) => i < self@.len() && self@[i as int].0 == username@,
                None => !has_user(self@, username@),
            },
    {
        let n = self.accounts.len();
        let mut i: usize = 0;
        while i < n
            invariant
                i <= n,
                n == self@.len(),
                n == self.accounts@.len(),
                forall|k: int| 0 <= k < i ==> #[trigger] self@[k].0 != username@,
            decreases n - i,
        {
            if self.accounts[i].username.eq(username) {
                return Some(i);
            }
            i += 1;
        }
        None
    }

    /// Registers `username` with `password`.  A name registered before
    /// is refused with [`AccountError::UserExists`] and nothing
    /// changes; otherwise the pair is stored as given.
    pub fn register(&mut self, username: &String, password: &String) -> (r: Result<
        (),
        AccountError,
    >)
        requires
            old(self).wf(),
        ensures
            final(self).wf(),
            r is Ok <==> !has_user(old(self)@, username@),
            r is Ok ==> final(self)@ == old(self)@.push((username@, password@)),
            r is Err ==> final(self)@ == old(self)@ && r->Err_0 == AccountError::UserExists,
    {
        match self.find_account(username) {
            Some(_) => Err(AccountError::UserExists),
            None => {
                self.accounts.push(
                    Account { username: username.clone(), password: password.clone() },
                );
                proof {
                    assert(self@ =~= old(self)@.push((username@, password@)));
                }
                Ok(())
            },
        }
    }

    /// Whether `username` is registered with exactly `password`.
    pub fn login(&self, username: &String, password: &String) -> (ok: bool)
        requires
            self.wf(),
        ensures
            ok == credentials_match(self@, username@, password@),
    {
        match self.find_account(username) {
            Some(i) => {
                let ok = self.accounts[i].password.eq(password);
                proof {
                    if ok {
                        assert(credentials_match(self@, username@, password@));
                    } else {
                        if credentials_match(self@, username@, password@) {
                            let w = choose|w: int|
                                0 <= w < self@.len() && self@[w].0 == username@ && self@[w].1
                                    == password@;
                            if w < i as int {
                                assert(self@[w].0 != self@[i as int].0);
                            } else if (i as int) < w {
                                assert(self@[i as int].0 != self@[w].0);
                            }
                        }
                    }
                }
                ok
            },
            None => {
                proof {
                    if credentials_match(self@, username@, password@) {
                        let w = choose|w: int|
                            0 <= w < self@.len() && self@[w].0 == username@ && self@[w].1
                                == password@;
                        assert(has_user(self@, username@));
                    }
                }
                false
            },
        }
    }
}

} // verus!
