use vstd::prelude::*;

verus! {

/// A participant's money and whether they have made their one trade.
#[derive(Clone, Copy, Debug, PartialEq, Eq, Structural)]
pub struct Account {
    pub balance: i64,
    pub done_trade: bool,
}

/// Why an operation of a participant was refused.
#[derive(Clone, Copy, Debug, PartialEq, Eq, Structural)]
pub enum AuctionError {
    UserNotFound,
    InsufficientFunds,
    NotYetOpen,
    AlreadyTraded,
}

impl AuctionError {
    /// The HTTP status that reports this refusal.
    pub fn status_code(&self) -> (r: u16)
        ensures
            r == (if *self == AuctionError::UserNotFound {
                404u16
            } else {
                403u16
            }),
    {
        match self {
            AuctionError::UserNotFound => 404,
            _ => 403,
        }
    }
}

pub open spec fn has_user(users: Seq<(Seq<char>, Account)>, name: Seq<char>) -> bool {
    exists|i: int| 0 <= i < users.len() && #[trigger] users[i].0 == name
}

pub open spec fn user_index(users: Seq<(Seq<char>, Account)>, name: Seq<char>) -> int {
    choose|i: int| 0 <= i < users.len() && #[trigger] users[i].0 == name
}

/// The account registered under `name`.
pub open spec fn account_of(users: Seq<(Seq<char>, Account)>, name: Seq<char>) -> Account {
    users[user_index(users, name)].1
}

pub open spec fn names_unique(users: Seq<(Seq<char>, Account)>) -> bool {
    forall|i: int, j: int|
        0 <= i < j < users.len() ==> #[trigger] users[i].0 != #[trigger] users[j].0
}

/// The accounts that a list of names opens, each with `init_balance`: a name
/// given twice is registered once, where it first appears.
pub open spec fn registered(names: Seq<Seq<char>>, init_balance: i64) -> Seq<(Seq<char>, Account)>
    decreases names.len(),
{
    if names.len() == 0 {
        Seq::empty()
    } else {
        let before = registered(names.drop_last(), init_balance);
        if has_user(before, names.last()) {
            before
        } else {
            before.push((names.last(), Account { balance: init_balance, done_trade: false }))
        }
    }
}

/// The users after `name`, at position `i`, has `acct` as account.
pub open spec fn with_account(users: Seq<(Seq<char>, Account)>, i: int, acct: Account) -> Seq<
    (Seq<char>, Account),
> {
    users.update(i, (users[i].0, acct))
}

/// In a ledger of unique names a name has one position.
pub proof fn lemma_user_unique(users: Seq<(Seq<char>, Account)>, name: Seq<char>, i: int)
    requires
        names_unique(users),
        0 <= i < users.len(),
        users[i].0 == name,
    ensures
        has_user(users, name),
        user_index(users, name) == i,
{
    assert(users[i].0 == name);
    let j = user_index(users, name);
    if j < i {
        assert(users[j].0 != users[i].0);
    } else if i < j {
        assert(users[i].0 != users[j].0);
    }
}

/// Changing an account keeps every name where it was.
pub proof fn lemma_with_account_names(users: Seq<(Seq<char>, Account)>, i: int, acct: Account, name: Seq<char>)
    requires
        names_unique(users),
        0 <= i < users.len(),
    ensures
        names_unique(with_account(users, i, acct)),
        has_user(with_account(users, i, acct), name) == has_user(users, name),
        has_user(users, name) ==> user_index(with_account(users, i, acct), name) == user_index(users, name),
{
    let after = with_account(users, i, acct);
    assert forall|a: int, b: int| 0 <= a < b < after.len() implies #[trigger] after[a].0
        != #[trigger] after[b].0 by {
        assert(users[a].0 != users[b].0);
    }
    if has_user(users, name) {
        let j = user_index(users, name);
        lemma_user_unique(after, name, j);
    } else if has_user(after, name) {
        let j = user_index(after, name);
        assert(users[j].0 == name);
    }
}

/// Changing the account at position `i` keeps every name registered where it
/// was, and leaves every other name's account as it was.
pub proof fn lemma_with_account_effects(users: Seq<(Seq<char>, Account)>, i: int, acct: Account)
    requires
        names_unique(users),
        0 <= i < users.len(),
    ensures
        names_unique(with_account(users, i, acct)),
        user_index(users, users[i].0) == i,
        forall|m: Seq<char>| #[trigger]
            has_user(with_account(users, i, acct), m) == has_user(users, m),
        forall|m: Seq<char>|
            has_user(users, m) ==> #[trigger] account_of(with_account(users, i, acct), m) == if m
                == users[i].0 {
                acct
            } else {
                account_of(users, m)
            },
{
    lemma_user_unique(users, users[i].0, i);
    assert forall|m: Seq<char>| #[trigger]
        has_user(with_account(users, i, acct), m) == has_user(users, m) by {
        lemma_with_account_names(users, i, acct, m);
    }
    assert forall|m: Seq<char>| has_user(users, m) implies #[trigger] account_of(
        with_account(users, i, acct),
        m,
    ) == if m == users[i].0 {
        acct
    } else {
        account_of(users, m)
    } by {
        lemma_with_account_names(users, i, acct, m);
    }
    lemma_with_account_names(users, i, acct, users[i].0);
}

/// The registered participants, in the order they were configured.
pub struct Ledger {
    names: Vec<String>,
    accounts: Vec<Account>,
}

impl View for Ledger {
    type V = Seq<(Seq<char>, Account)>;

    closed spec fn view(&self) -> Seq<(Seq<char>, Account)> {
        Seq::new(self.names@.len(), |i: int| (self.names@[i]@, self.accounts@[i]))
    }
}

impl Ledger {
    pub closed spec fn wf(&self) -> bool {
        &&& self.names@.len() == self.accounts@.len()
        &&& names_unique(self@)
    }

    pub proof fn lemma_wf_unique(&self)
        requires
            self.wf(),
        ensures
            names_unique(self@),
    {
    }

    /// Opens one account for each distinct name, each with `init_balance`.
    pub fn open(names: &Vec<String>, init_balance: i64) -> (r: Ledger)
        ensures
            r.wf(),
            r@ == registered(names@.map_values(|s: String| s@), init_balance),
    {
        let ghost views = names@.map_values(|s: String| s@);
        let mut ledger = Ledger { names: Vec::new(), accounts: Vec::new() };
        proof {
            assert(ledger@ =~= registered(views.take(0), init_balance));
        }
        let mut k: usize = 0;
        while k < names.len()
            invariant
                0 <= k <= names.len(),
                views == names@.map_values(|s: String| s@),
                ledger.wf(),
                ledger@ == registered(views.take(k as int), init_balance),
            decreases names.len() - k,
        {
            proof {
                assert(views.take(k + 1).drop_last() == views.take(k as int));
                assert(views.take(k + 1).last() == names@[k as int]@);
            }
            if ledger.find(&names[k]).is_none() {
                let ghost before = ledger@;
                ledger.names.push(names[k].clone());
                ledger.accounts.push(Account { balance: init_balance, done_trade: false });
                proof {
                    assert(ledger@ =~= before.push(
                        (names@[k as int]@, Account { balance: init_balance, done_trade: false }),
                    ));
                    assert forall|a: int, b: int| 0 <= a < b < ledger@.len() implies
                        #[trigger] ledger@[a].0 != #[trigger] ledger@[b].0 by {
                        if b == before.len() {
                            assert(before[a].0 == ledger@[a].0);
                        } else {
                            assert(before[a].0 != before[b].0);
                        }
                    }
                }
            }
            k += 1;
        }
        proof {
            assert(views.take(names.len() as int) == views);
        }
        ledger
    }

    /// The position of the account registered under `name`, if any.
    pub fn find(&self, name: &String) -> (r: Option<usize>)
        requires
            self.wf(),
        ensures
            r.is_none() == !has_user(self@, name@),
            r.is_some() ==> r.unwrap() == user_index(self@, name@) && r.unwrap() < self@.len(),
    {
        let mut i: usize = 0;
        while i < self.names.len()
            invariant
                0 <= i <= self.names.len(),
                self.wf(),
                forall|k: int| 0 <= k < i ==> #[trigger] self@[k].0 != name@,
            decreases self.names.len() - i,
        {
            if self.names[i] == *name {
                proof {
                    assert(self@[i as int].0 == name@);
                    lemma_user_unique(self@, name@, i as int);
                }
                return Some(i);
            }
            i += 1;
        }
        None
    }

    pub fn len(&self) -> (r: usize)
        requires
            self.wf(),
        ensures
            r == self@.len(),
    {
        self.names.len()
    }

    /// The account at position `i`.
    pub fn account(&self, i: usize) -> (r: Account)
        requires
            self.wf(),
            i < self@.len(),
        ensures
            r == self@[i as int].1,
    {
        self.accounts[i]
    }

    /// The name at position `i`.
    pub fn name(&self, i: usize) -> (r: String)
        requires
            self.wf(),
            i < self@.len(),
        ensures
            r@ == self@[i as int].0,
    {
        self.names[i].clone()
    }

    /// Takes `fee` from the account at position `i`, unless it holds less.
    pub fn debit_fee(&mut self, i: usize, fee: i64) -> (r: Result<i64, AuctionError>)
        requires
            old(self).wf(),
            i < old(self)@.len(),
            fee >= 0,
        ensures
            final(self).wf(),
            old(self)@[i as int].1.balance < fee ==> r == Err::<i64, AuctionError>(
                AuctionError::InsufficientFunds,
            ) && final(self)@ == old(self)@,
            old(self)@[i as int].1.balance >= fee ==> r == Ok::<i64, AuctionError>(
                (old(self)@[i as int].1.balance - fee) as i64,
            ) && final(self)@ == with_account(
                old(self)@,
                i as int,
                Account {
                    balance: (old(self)@[i as int].1.balance - fee) as i64,
                    done_trade: old(self)@[i as int].1.done_trade,
                },
            ),
    {
        let a = self.accounts[i];
        if a.balance < fee {
            return Err(AuctionError::InsufficientFunds);
        }
        let balance = a.balance - fee;
        self.set_account(i, Account { balance, done_trade: a.done_trade });
        Ok(balance)
    }

    /// Replaces the account at position `i`.
    pub fn set_account(&mut self, i: usize, acct: Account)
        requires
            old(self).wf(),
            i < old(self)@.len(),
        ensures
            final(self).wf(),
            final(self)@ == with_account(old(self)@, i as int, acct),
    {
        let ghost before = self@;
        self.accounts.set(i, acct);
        proof {
            assert(self@ =~= with_account(before, i as int, acct));
            assert forall|a: int, b: int| 0 <= a < b < self@.len() implies #[trigger] self@[a].0
                != #[trigger] self@[b].0 by {
                assert(before[a].0 != before[b].0);
            }
        }
    }
}

} // verus!
