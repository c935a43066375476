use vstd::prelude::*;
use crate::book::{AskBook, MatchOutcome, PriceVol, levels_wf, take_one, volume_at, configured_volume, entries_valid};
use crate::ledger::{
    Account, AuctionError, Ledger, has_user, user_index, account_of, names_unique, registered,
    with_account, lemma_with_account_names,
};

verus! {

/// What the auction house starts from.
pub struct AuctionConfig {
    pub users: Vec<String>,
    pub trade_start_nanos: i64,
    pub init_balance: i64,
    pub fee: i64,
    pub asks: Vec<PriceVol>,
}

/// Why a configuration cannot start an auction house.
#[derive(Clone, Copy, Debug, PartialEq, Eq, Structural)]
pub enum ConfigError {
    /// The fee is below zero.
    NegativeFee,
    /// An ask level has a negative price or no units.
    InvalidAsk,
}

/// The answer to a ping: the clock, the opening time and the balance left.
#[derive(Clone, Copy, Debug, PartialEq, Eq, Structural)]
pub struct PingResult {
    pub now_nanos: i64,
    pub trade_start_nanos: i64,
    pub balance: i64,
}

/// The ask levels, in ascending price order.
#[derive(Debug)]
pub struct CheckResult {
    pub asks: Vec<PriceVol>,
}

/// Whether a bid claimed a unit.
#[derive(Clone, Copy, Debug, PartialEq, Eq, Structural)]
pub struct BidResult {
    pub trade_succ: bool,
}

/// Participants split by whether they have traded, each group by balance,
/// highest first.
#[derive(Debug)]
pub struct BoardResult {
    pub done_users: Vec<(String, Account)>,
    pub running_users: Vec<(String, Account)>,
}

/// The auction house as a mathematical value.
pub struct AuctionView {
    pub users: Seq<(Seq<char>, Account)>,
    pub asks: Seq<PriceVol>,
    pub trade_start_nanos: i64,
    pub fee: i64,
}

impl AuctionView {
    pub open spec fn wf(self) -> bool {
        &&& names_unique(self.users)
        &&& levels_wf(self.asks)
        &&& self.fee >= 0
    }
}

/// Charges the fee to `name`: refused for an unknown name or a balance below
/// the fee, and then nothing changes.
pub open spec fn charge_fee(v: AuctionView, name: Seq<char>) -> Result<AuctionView, AuctionError> {
    if !has_user(v.users, name) {
        Err(AuctionError::UserNotFound)
    } else {
        let i = user_index(v.users, name);
        let a = v.users[i].1;
        if a.balance < v.fee {
            Err(AuctionError::InsufficientFunds)
        } else {
            Ok(
                AuctionView {
                    users: with_account(
                        v.users,
                        i,
                        Account { balance: (a.balance - v.fee) as i64, done_trade: a.done_trade },
                    ),
                    ..v
                },
            )
        }
    }
}

/// A ping: the fee is charged at any time of day.
pub open spec fn ping_spec(v: AuctionView, name: Seq<char>, now: i64) -> (
    AuctionView,
    Result<PingResult, AuctionError>,
) {
    match charge_fee(v, name) {
        Err(e) => (v, Err(e)),
        Ok(c) => (
            c,
            Ok(
                PingResult {
                    now_nanos: now,
                    trade_start_nanos: v.trade_start_nanos,
                    balance: account_of(c.users, name).balance,
                },
            ),
        ),
    }
}

/// A look at the book: the fee is charged first, then the opening time is
/// checked.
pub open spec fn check_asks_spec(v: AuctionView, name: Seq<char>, now: i64) -> (
    AuctionView,
    Result<Seq<PriceVol>, AuctionError>,
) {
    match charge_fee(v, name) {
        Err(e) => (v, Err(e)),
        Ok(c) => if now < v.trade_start_nanos {
            (c, Err(AuctionError::NotYetOpen))
        } else {
            (c, Ok(c.asks))
        },
    }
}

/// A bid for one unit at `price`: the fee is charged first, then the opening
/// time and the trader's one trade are checked; a claimed unit costs `price`
/// and closes the trader's trading. No level, or none left, is no error.
pub open spec fn place_bid_spec(v: AuctionView, name: Seq<char>, price: i64, now: i64) -> (
    AuctionView,
    Result<bool, AuctionError>,
) {
    match charge_fee(v, name) {
        Err(e) => (v, Err(e)),
        Ok(c) => if now < v.trade_start_nanos {
            (c, Err(AuctionError::NotYetOpen))
        } else if account_of(c.users, name).done_trade {
            (c, Err(AuctionError::AlreadyTraded))
        } else if take_one(c.asks, price).1 == MatchOutcome::Matched {
            let i = user_index(c.users, name);
            (
                AuctionView {
                    users: with_account(
                        c.users,
                        i,
                        Account { balance: (c.users[i].1.balance - price) as i64, done_trade: true },
                    ),
                    asks: take_one(c.asks, price).0,
                    ..c
                },
                Ok(true),
            )
        } else {
            (c, Ok(false))
        },
    }
}

pub open spec fn traded_is(done: bool) -> spec_fn((Seq<char>, Account)) -> bool {
    |e: (Seq<char>, Account)| e.1.done_trade == done
}

/// The participants in the group that has (or has not) traded, in ledger order.
pub open spec fn in_group(users: Seq<(Seq<char>, Account)>, done: bool) -> Seq<(Seq<char>, Account)> {
    users.filter(traded_is(done))
}

pub open spec fn entries_view(s: Seq<(String, Account)>) -> Seq<(Seq<char>, Account)> {
    s.map_values(|e: (String, Account)| (e.0@, e.1))
}

pub open spec fn balance_descending(s: Seq<(Seq<char>, Account)>) -> bool {
    forall|i: int, j: int| 0 <= i < j < s.len() ==> #[trigger] s[i].1.balance >= #[trigger] s[j].1.balance
}

/// Puts `e` into `group` after every entry whose balance is at least its own.
fn insert_by_balance(group: &mut Vec<(String, Account)>, e: (String, Account))
    requires
        balance_descending(entries_view(old(group)@)),
    ensures
        balance_descending(entries_view(final(group)@)),
        entries_view(final(group)@).to_multiset() == entries_view(old(group)@).to_multiset().insert(
            (e.0@, e.1),
        ),
{
    let ghost before = entries_view(group@);
    let mut j: usize = 0;
    while j < group.len() && group[j].1.balance >= e.1.balance
        invariant
            0 <= j <= group.len(),
            group@ == old(group)@,
            before == entries_view(group@),
            forall|k: int| 0 <= k < j ==> #[trigger] before[k].1.balance >= e.1.balance,
        decreases group.len() - j,
    {
        j += 1;
    }
    let ghost item = (e.0@, e.1);
    let ghost bal = e.1.balance;
    group.insert(j, e);
    proof {
        let after = entries_view(group@);
        assert(after =~= before.insert(j as int, item));
        vstd::seq_lib::to_multiset_insert(before, j as int, item);
        assert forall|a: int, b: int| 0 <= a < b < after.len() implies #[trigger] after[a].1.balance
            >= #[trigger] after[b].1.balance by {
            if b < j {
                assert(before[a].1.balance >= before[b].1.balance);
            } else if b == j {
                assert(before[a].1.balance >= bal);
            } else if a < j {
                assert(before[a].1.balance >= before[b - 1].1.balance);
            } else if a == j {
                assert(before[j as int].1.balance < bal);
                if b - 1 > j {
                    assert(before[j as int].1.balance >= before[b - 1].1.balance);
                }
            } else {
                assert(before[a - 1].1.balance >= before[b - 1].1.balance);
            }
        }
    }
}

/// The auction house: the ledger, the ask book and the two fixed parameters.
/// A `&mut` borrow of it is the one place where a change happens, so no
/// operation sees another half done.
pub struct AuctionState {
    ledger: Ledger,
    book: AskBook,
    trade_start_nanos: i64,
    fee: i64,
}

impl View for AuctionState {
    type V = AuctionView;

    closed spec fn view(&self) -> AuctionView {
        AuctionView {
            users: self.ledger@,
            asks: self.book@,
            trade_start_nanos: self.trade_start_nanos,
            fee: self.fee,
        }
    }
}

impl AuctionState {
    pub closed spec fn wf(&self) -> bool {
        &&& self.ledger.wf()
        &&& self.book.wf()
        &&& self.fee >= 0
    }

    pub proof fn lemma_wf(&self)
        requires
            self.wf(),
        ensures
            self@.wf(),
    {
        self.ledger.lemma_wf_unique();
    }

    /// Starts an auction house: every distinct configured name gets an
    /// account with the initial balance, and the book holds the configured
    /// levels, the later entry winning where a price is given twice.
    pub fn new(config: &AuctionConfig) -> (r: Result<AuctionState, ConfigError>)
        ensures
            (config.fee < 0) <==> r == Err::<AuctionState, ConfigError>(ConfigError::NegativeFee),
            (config.fee >= 0 && !entries_valid(config.asks@)) <==> r == Err::<
                AuctionState,
                ConfigError,
            >(ConfigError::InvalidAsk),
            r.is_ok() ==> {
                let s = r.unwrap();
                &&& s.wf()
                &&& s@.users == registered(
                    config.users@.map_values(|n: String| n@),
                    config.init_balance,
                )
                &&& forall|p: i64| volume_at(s@.asks, p) == configured_volume(config.asks@, p)
                &&& s@.trade_start_nanos == config.trade_start_nanos
                &&& s@.fee == config.fee
            },
    {
        if config.fee < 0 {
            return Err(ConfigError::NegativeFee);
        }
        let mut k: usize = 0;
        while k < config.asks.len()
            invariant
                0 <= k <= config.asks.len(),
                config.fee >= 0,
                forall|j: int| 0 <= j < k ==> #[trigger] config.asks@[j].price >= 0 && config.asks@[j].vol > 0,
            decreases config.asks.len() - k,
        {
            if config.asks[k].price < 0 || config.asks[k].vol <= 0 {
                proof {
                    assert(!(config.asks@[k as int].price >= 0 && config.asks@[k as int].vol > 0));
                }
                return Err(ConfigError::InvalidAsk);
            }
            k += 1;
        }
        let ledger = Ledger::open(&config.users, config.init_balance);
        let book = AskBook::from_entries(&config.asks);
        Ok(AuctionState { ledger, book, trade_start_nanos: config.trade_start_nanos, fee: config.fee })
    }

    /// Every participant with their account, split by whether they have
    /// traded, each group ordered by balance, highest first. Nothing is
    /// charged.
    pub fn board(&self) -> (r: BoardResult)
        requires
            self.wf(),
        ensures
            balance_descending(entries_view(r.done_users@)),
            balance_descending(entries_view(r.running_users@)),
            entries_view(r.done_users@).to_multiset() == in_group(self@.users, true).to_multiset(),
            entries_view(r.running_users@).to_multiset() == in_group(self@.users, false).to_multiset(),
    {
        let ghost users = self@.users;
        let mut done: Vec<(String, Account)> = Vec::new();
        let mut running: Vec<(String, Account)> = Vec::new();
        proof {
            assert(entries_view(done@) =~= Seq::empty());
            assert(users.take(0) =~= Seq::empty());
            assert(in_group(Seq::empty(), true) =~= Seq::empty()) by {
                reveal(Seq::filter);
            }
            assert(in_group(Seq::empty(), false) =~= Seq::empty()) by {
                reveal(Seq::filter);
            }
        }
        let n = self.ledger.len();
        let mut k: usize = 0;
        while k < n
            invariant
                0 <= k <= n,
                self.wf(),
                users == self@.users,
                n == users.len(),
                balance_descending(entries_view(done@)),
                balance_descending(entries_view(running@)),
                entries_view(done@).to_multiset() == in_group(users.take(k as int), true).to_multiset(),
                entries_view(running@).to_multiset() == in_group(users.take(k as int), false).to_multiset(),
            decreases n - k,
        {
            let a = self.ledger.account(k);
            let name = self.ledger.name(k);
            proof {
                let u = users[k as int];
                assert(users.take(k + 1) =~= users.take(k as int).push(u));
                users.take(k as int).lemma_filter_push(u, traded_is(true));
                users.take(k as int).lemma_filter_push(u, traded_is(false));
                vstd::seq_lib::to_multiset_build(in_group(users.take(k as int), true), u);
                vstd::seq_lib::to_multiset_build(in_group(users.take(k as int), false), u);
            }
            if a.done_trade {
                insert_by_balance(&mut done, (name, a));
            } else {
                insert_by_balance(&mut running, (name, a));
            }
            k += 1;
        }
        proof {
            assert(users.take(n as int) =~= users);
        }
        BoardResult { done_users: done, running_users: running }
    }

    /// Charges the fee to `name`; on success, the account's position.
    fn charge(&mut self, name: &String) -> (r: Result<usize, AuctionError>)
        requires
            old(self).wf(),
        ensures
            final(self).wf(),
            match charge_fee(old(self)@, name@) {
                Err(e) => r == Err::<usize, AuctionError>(e) && final(self)@ == old(self)@,
                Ok(c) => r.is_ok() && r.unwrap() as int == user_index(old(self)@.users, name@)
                    && final(self)@ == c,
            },
    {
        match self.ledger.find(name) {
            None => Err(AuctionError::UserNotFound),
            Some(i) => match self.ledger.debit_fee(i, self.fee) {
                Err(e) => Err(e),
                Ok(_) => Ok(i),
            },
        }
    }

    /// Charges the fee and reports the clock, the opening time and the
    /// balance left.
    pub fn ping(&mut self, uname: &String, now: i64) -> (r: Result<PingResult, AuctionError>)
        requires
            old(self).wf(),
        ensures
            final(self).wf(),
            (final(self)@, r) == ping_spec(old(self)@, uname@, now),
    {
        proof {
            self.lemma_wf();
        }
        let ghost v = self@;
        let i = match self.charge(uname) {
            Err(e) => return Err(e),
            Ok(i) => i,
        };
        proof {
            assert(has_user(v.users, uname@));
            assert(i as int == user_index(v.users, uname@));
            lemma_with_account_names(v.users, i as int, self@.users[i as int].1, uname@);
            assert(account_of(self@.users, uname@) == self@.users[i as int].1);
        }
        let a = self.ledger.account(i);
        Ok(PingResult { now_nanos: now, trade_start_nanos: self.trade_start_nanos, balance: a.balance })
    }

    /// Charges the fee and, once trading is open, returns the ask levels in
    /// ascending price order.
    pub fn check_asks(&mut self, uname: &String, now: i64) -> (r: Result<CheckResult, AuctionError>)
        requires
            old(self).wf(),
        ensures
            final(self).wf(),
            final(self)@ == check_asks_spec(old(self)@, uname@, now).0,
            check_asks_spec(old(self)@, uname@, now).1 == match r {
                Ok(c) => Ok::<Seq<PriceVol>, AuctionError>(c.asks@),
                Err(e) => Err(e),
            },
    {
        match self.charge(uname) {
            Err(e) => return Err(e),
            Ok(_) => {},
        }
        if now < self.trade_start_nanos {
            return Err(AuctionError::NotYetOpen);
        }
        Ok(CheckResult { asks: self.book.levels() })
    }

    /// Charges the fee and, once trading is open and for a trader who has
    /// not traded yet, claims one unit at `price`; a claimed unit costs
    /// `price` more and is the trader's one trade.
    pub fn place_bid(&mut self, uname: &String, price: i64, now: i64) -> (r: Result<
        BidResult,
        AuctionError,
    >)
        requires
            old(self).wf(),
        ensures
            final(self).wf(),
            final(self)@ == place_bid_spec(old(self)@, uname@, price, now).0,
            place_bid_spec(old(self)@, uname@, price, now).1 == match r {
                Ok(b) => Ok::<bool, AuctionError>(b.trade_succ),
                Err(e) => Err(e),
            },
    {
        proof {
            self.lemma_wf();
        }
        let ghost v = self@;
        let i = match self.charge(uname) {
            Err(e) => return Err(e),
            Ok(i) => i,
        };
        proof {
            assert(has_user(v.users, uname@));
            assert(i as int == user_index(v.users, uname@));
            lemma_with_account_names(v.users, i as int, self@.users[i as int].1, uname@);
            assert(account_of(self@.users, uname@) == self@.users[i as int].1);
        }
        if now < self.trade_start_nanos {
            return Err(AuctionError::NotYetOpen);
        }
        let a = self.ledger.account(i);
        if a.done_trade {
            return Err(AuctionError::AlreadyTraded);
        }
        let ghost c = self@;
        let outcome = self.book.decrement_ask(price);
        match outcome {
            MatchOutcome::Matched => {
                proof {
                    let k = crate::book::level_index(c.asks, price);
                    assert(c.asks[k].price >= 0);
                }
                self.ledger.set_account(i, Account { balance: a.balance - price, done_trade: true });
                Ok(BidResult { trade_succ: true })
            },
            _ => Ok(BidResult { trade_succ: false }),
        }
    }
}

} // verus!
