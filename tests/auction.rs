use auction::{
    nanos_from_reading, now, Account, AskBook, AuctionConfig, AuctionError, AuctionState, ConfigError,
    Ledger, MatchOutcome, PriceVol,
};

fn name(s: &str) -> String {
    s.to_string()
}

fn config(users: &[&str], fee: i64, init_balance: i64, start: i64, asks: &[(i64, i64)]) -> AuctionConfig {
    AuctionConfig {
        users: users.iter().map(|u| u.to_string()).collect(),
        trade_start_nanos: start,
        init_balance,
        fee,
        asks: asks.iter().map(|&(price, vol)| PriceVol { price, vol }).collect(),
    }
}

fn state(users: &[&str], fee: i64, init_balance: i64, start: i64, asks: &[(i64, i64)]) -> AuctionState {
    AuctionState::new(&config(users, fee, init_balance, start, asks)).unwrap()
}

fn balance_of(st: &AuctionState, user: &str) -> (i64, bool) {
    let b = st.board();
    for (n, a) in b.done_users.iter().chain(b.running_users.iter()) {
        if n == user {
            return (a.balance, a.done_trade);
        }
    }
    panic!("no such user on the board");
}

fn asks_of(st: &mut AuctionState, user: &str, now: i64) -> Vec<(i64, i64)> {
    st.check_asks(&name(user), now).unwrap().asks.iter().map(|pv| (pv.price, pv.vol)).collect()
}

#[test]
fn ping_then_bid_then_bid_again() {
    let mut st = state(&["a"], 10, 100, 0, &[(50, 1)]);
    let p = st.ping(&name("a"), 5).unwrap();
    assert_eq!(p.balance, 90);
    assert_eq!(p.now_nanos, 5);
    assert_eq!(p.trade_start_nanos, 0);
    let r = st.place_bid(&name("a"), 50, 5).unwrap();
    assert!(r.trade_succ);
    assert_eq!(balance_of(&st, "a"), (30, true));
    let b = st.board();
    assert!(b.running_users.is_empty());
    let again = st.place_bid(&name("a"), 50, 5);
    assert_eq!(again.unwrap_err(), AuctionError::AlreadyTraded);
    assert_eq!(again.unwrap_err().status_code(), 403);
    assert_eq!(balance_of(&st, "a"), (20, true));
    assert!(asks_of(&mut st, "a", 5).is_empty());
}

#[test]
fn unknown_user_bid_is_not_found() {
    let mut st = state(&["a"], 10, 100, 0, &[(50, 1)]);
    let r = st.place_bid(&name("ghost"), 50, 5);
    assert_eq!(r.unwrap_err(), AuctionError::UserNotFound);
    assert_eq!(r.unwrap_err().status_code(), 404);
    assert_eq!(balance_of(&st, "a"), (100, false));
    assert_eq!(st.ping(&name("ghost"), 5).unwrap_err(), AuctionError::UserNotFound);
    assert_eq!(st.check_asks(&name("ghost"), 5).unwrap_err(), AuctionError::UserNotFound);
    assert_eq!(asks_of(&mut st, "a", 5), vec![(50, 1)]);
}

#[test]
fn bid_at_missing_price_is_no_match() {
    let mut st = state(&["a"], 10, 100, 0, &[(50, 1)]);
    let r = st.place_bid(&name("a"), 999, 5).unwrap();
    assert!(!r.trade_succ);
    assert_eq!(balance_of(&st, "a"), (90, false));
    assert_eq!(asks_of(&mut st, "a", 5), vec![(50, 1)]);
}

#[test]
fn board_splits_and_orders_by_balance() {
    let mut st = state(&["a", "b", "c", "d"], 1, 100, 0, &[(10, 5), (30, 5)]);
    assert!(st.place_bid(&name("a"), 10, 1).unwrap().trade_succ);
    assert!(st.place_bid(&name("b"), 30, 1).unwrap().trade_succ);
    assert!(!st.place_bid(&name("c"), 20, 1).unwrap().trade_succ);
    st.ping(&name("c"), 1).unwrap();
    let b = st.board();
    let done: Vec<(&str, i64)> = b.done_users.iter().map(|(n, a)| (n.as_str(), a.balance)).collect();
    let running: Vec<(&str, i64)> = b.running_users.iter().map(|(n, a)| (n.as_str(), a.balance)).collect();
    assert_eq!(done, vec![("a", 89), ("b", 69)]);
    assert_eq!(running, vec![("d", 100), ("c", 98)]);
    assert!(b.done_users.iter().all(|(_, a)| a.done_trade));
    assert!(b.running_users.iter().all(|(_, a)| !a.done_trade));
}

#[test]
fn board_charges_nothing() {
    let st = state(&["a"], 10, 100, 0, &[]);
    let _ = st.board();
    assert_eq!(balance_of(&st, "a"), (100, false));
}

#[test]
fn one_winner_per_unit() {
    let mut st = state(&["a", "b", "c"], 1, 100, 0, &[(20, 2)]);
    let wins: Vec<bool> = ["a", "b", "c"]
        .iter()
        .map(|u| st.place_bid(&name(u), 20, 1).unwrap().trade_succ)
        .collect();
    assert_eq!(wins, vec![true, true, false]);
    assert!(asks_of(&mut st, "c", 1).is_empty());
    assert_eq!(balance_of(&st, "c"), (98, false));
}

#[test]
fn level_keeps_what_is_left() {
    let mut st = state(&["a", "b"], 0, 100, 0, &[(20, 5)]);
    assert!(st.place_bid(&name("a"), 20, 1).unwrap().trade_succ);
    assert!(st.place_bid(&name("b"), 20, 1).unwrap().trade_succ);
    assert_eq!(asks_of(&mut st, "a", 1), vec![(20, 3)]);
}

#[test]
fn traded_user_never_matches_again() {
    let mut st = state(&["a"], 1, 100, 0, &[(20, 1), (30, 1)]);
    assert!(st.place_bid(&name("a"), 20, 1).unwrap().trade_succ);
    assert_eq!(st.place_bid(&name("a"), 30, 1).unwrap_err(), AuctionError::AlreadyTraded);
    assert_eq!(asks_of(&mut st, "a", 1), vec![(30, 1)]);
    assert_eq!(balance_of(&st, "a"), (100 - 1 - 20 - 1 - 1, true));
}

#[test]
fn fee_charged_by_every_paid_call() {
    let mut st = state(&["a"], 7, 100, 10, &[(20, 1)]);
    st.ping(&name("a"), 0).unwrap();
    assert_eq!(balance_of(&st, "a"), (93, false));
    assert_eq!(st.check_asks(&name("a"), 0).unwrap_err(), AuctionError::NotYetOpen);
    assert_eq!(balance_of(&st, "a"), (86, false));
    assert_eq!(st.place_bid(&name("a"), 20, 0).unwrap_err(), AuctionError::NotYetOpen);
    assert_eq!(balance_of(&st, "a"), (79, false));
    assert!(!st.place_bid(&name("a"), 21, 10).unwrap().trade_succ);
    assert_eq!(balance_of(&st, "a"), (72, false));
    assert!(st.place_bid(&name("a"), 20, 10).unwrap().trade_succ);
    assert_eq!(balance_of(&st, "a"), (72 - 7 - 20, true));
}

#[test]
fn gated_before_open_but_ping_answers() {
    let mut st = state(&["a"], 1, 100, 1_000, &[(20, 1)]);
    assert!(st.ping(&name("a"), 999).is_ok());
    assert_eq!(st.check_asks(&name("a"), 999).unwrap_err(), AuctionError::NotYetOpen);
    assert_eq!(st.place_bid(&name("a"), 20, 999).unwrap_err(), AuctionError::NotYetOpen);
    assert_eq!(asks_of(&mut st, "a", 1_000), vec![(20, 1)]);
    assert_eq!(balance_of(&st, "a"), (96, false));
}

#[test]
fn insufficient_funds_charges_nothing() {
    let mut st = state(&["a"], 10, 9, 0, &[(0, 1)]);
    assert_eq!(st.ping(&name("a"), 1).unwrap_err(), AuctionError::InsufficientFunds);
    assert_eq!(st.check_asks(&name("a"), 1).unwrap_err(), AuctionError::InsufficientFunds);
    assert_eq!(st.place_bid(&name("a"), 0, 1).unwrap_err(), AuctionError::InsufficientFunds);
    assert_eq!(AuctionError::InsufficientFunds.status_code(), 403);
    assert_eq!(balance_of(&st, "a"), (9, false));
}

#[test]
fn exact_fee_leaves_zero() {
    let mut st = state(&["a"], 10, 10, 0, &[]);
    assert_eq!(st.ping(&name("a"), 1).unwrap().balance, 0);
    assert_eq!(st.ping(&name("a"), 1).unwrap_err(), AuctionError::InsufficientFunds);
}

#[test]
fn bid_may_leave_balance_below_zero() {
    let mut st = state(&["a"], 10, 30, 0, &[(50, 1)]);
    assert!(st.place_bid(&name("a"), 50, 1).unwrap().trade_succ);
    assert_eq!(balance_of(&st, "a"), (-30, true));
    assert_eq!(st.ping(&name("a"), 1).unwrap_err(), AuctionError::InsufficientFunds);
}

#[test]
fn check_asks_lists_levels_in_price_order() {
    let mut st = state(&["a"], 0, 0, 0, &[(30, 1), (10, 2), (20, 3), (10, 4)]);
    assert_eq!(asks_of(&mut st, "a", 0), vec![(10, 4), (20, 3), (30, 1)]);
}

#[test]
fn names_given_twice_register_once() {
    let st = state(&["a", "b", "a"], 0, 5, 0, &[]);
    let b = st.board();
    let names: Vec<&str> = b.running_users.iter().map(|(n, _)| n.as_str()).collect();
    assert_eq!(names, vec!["a", "b"]);
}

#[test]
fn config_errors() {
    assert_eq!(AuctionState::new(&config(&["a"], -1, 0, 0, &[])).err(), Some(ConfigError::NegativeFee));
    assert_eq!(AuctionState::new(&config(&["a"], 1, 0, 0, &[(-5, 1)])).err(), Some(ConfigError::InvalidAsk));
    assert_eq!(AuctionState::new(&config(&["a"], 1, 0, 0, &[(5, 0)])).err(), Some(ConfigError::InvalidAsk));
    assert_eq!(AuctionState::new(&config(&["a"], -1, 0, 0, &[(5, 0)])).err(), Some(ConfigError::NegativeFee));
    assert!(AuctionState::new(&config(&[], 0, 0, 0, &[])).is_ok());
}

#[test]
fn book_decrement_outcomes() {
    let mut book = AskBook::from_entries(&vec![PriceVol { price: 5, vol: 2 }, PriceVol { price: 1, vol: 1 }]);
    assert_eq!(book.decrement_ask(7), MatchOutcome::NoSuchPriceLevel);
    assert_eq!(book.decrement_ask(5), MatchOutcome::Matched);
    assert_eq!(book.levels(), vec![PriceVol { price: 1, vol: 1 }, PriceVol { price: 5, vol: 1 }]);
    assert_eq!(book.decrement_ask(1), MatchOutcome::Matched);
    assert_eq!(book.levels(), vec![PriceVol { price: 5, vol: 1 }]);
    assert_eq!(book.decrement_ask(1), MatchOutcome::NoSuchPriceLevel);
}

#[test]
fn ledger_debits_and_finds() {
    let mut ledger = Ledger::open(&vec![name("x"), name("y")], 20);
    assert_eq!(ledger.len(), 2);
    assert_eq!(ledger.find(&name("y")), Some(1));
    assert_eq!(ledger.find(&name("z")), None);
    assert_eq!(ledger.debit_fee(1, 15), Ok(5));
    assert_eq!(ledger.debit_fee(1, 15), Err(AuctionError::InsufficientFunds));
    assert_eq!(ledger.account(1), Account { balance: 5, done_trade: false });
    assert_eq!(ledger.name(1), "y");
}

#[test]
fn clock_readings() {
    assert_eq!(nanos_from_reading(None), 0);
    assert_eq!(nanos_from_reading(Some(1_700_000_000_000_000_000)), 1_700_000_000_000_000_000);
    assert_eq!(nanos_from_reading(Some(i64::MAX as u128 + 1)), i64::MAX);
    assert!(now() > 1_600_000_000_000_000_000);
}

#[test]
fn largest_price_is_settled_without_overflow() {
    let mut st = state(&["a"], 0, 0, 0, &[(i64::MAX, 1)]);
    assert!(st.place_bid(&name("a"), i64::MAX, 0).unwrap().trade_succ);
    assert_eq!(balance_of(&st, "a"), (-i64::MAX, true));
    assert_eq!(st.place_bid(&name("a"), i64::MAX, 0).unwrap_err(), AuctionError::InsufficientFunds);
}
