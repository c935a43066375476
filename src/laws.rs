use vstd::prelude::*;
use crate::auction::{AuctionView, PingResult, charge_fee, ping_spec, check_asks_spec, place_bid_spec};
use crate::book::{MatchOutcome, PriceVol, take_one, volume_at, levels_wf, lemma_take_one_wf, lemma_level_unique, has_level, level_index};
use crate::ledger::{Account, AuctionError, has_user, account_of, user_index, lemma_with_account_effects};

verus! {

/// Claiming a unit finds one exactly where the level has units left, and
/// leaves the level one unit fewer.
pub proof fn lemma_take_one_volume(levels: Seq<PriceVol>, price: i64)
    requires
        levels_wf(levels),
    ensures
        (take_one(levels, price).1 == MatchOutcome::Matched) == (volume_at(levels, price) > 0),
        volume_at(take_one(levels, price).0, price) == if volume_at(levels, price) > 0 {
            volume_at(levels, price) - 1
        } else {
            0
        },
{
    if has_level(levels, price) {
        let i = level_index(levels, price);
        let after = take_one(levels, price).0;
        if levels[i].vol == 1 {
            if has_level(after, price) {
                let j = level_index(after, price);
                if j < i {
                    lemma_level_unique(levels, price, j);
                } else {
                    lemma_level_unique(levels, price, j + 1);
                }
            }
        } else {
            lemma_take_one_wf(levels, price);
            lemma_level_unique(after, price, i);
        }
    }
}

/// What a paid fee changes: the payer's balance, and nothing else.
pub proof fn lemma_charge_effects(v: AuctionView, name: Seq<char>)
    requires
        v.wf(),
    ensures
        charge_fee(v, name) is Ok ==> {
            let c = charge_fee(v, name)->Ok_0;
            &&& c.wf()
            &&& c.asks == v.asks
            &&& c.fee == v.fee
            &&& c.trade_start_nanos == v.trade_start_nanos
            &&& forall|m: Seq<char>| #[trigger] has_user(c.users, m) == has_user(v.users, m)
            &&& forall|m: Seq<char>|
                has_user(v.users, m) && m != name ==> #[trigger] account_of(c.users, m) == account_of(
                    v.users,
                    m,
                )
            &&& account_of(c.users, name) == Account {
                balance: (account_of(v.users, name).balance - v.fee) as i64,
                done_trade: account_of(v.users, name).done_trade,
            }
        },
{
    if charge_fee(v, name) is Ok {
        let i = user_index(v.users, name);
        let a = v.users[i].1;
        lemma_with_account_effects(
            v.users,
            i,
            Account { balance: (a.balance - v.fee) as i64, done_trade: a.done_trade },
        );
    }
}

/// What a bid changes: the bidder's account and the level bid at, and
/// nothing else; the state stays well formed.
pub proof fn lemma_bid_effects(v: AuctionView, name: Seq<char>, price: i64, now: i64)
    requires
        v.wf(),
    ensures
        ({
            let w = place_bid_spec(v, name, price, now).0;
            &&& w.wf()
            &&& w.fee == v.fee
            &&& w.trade_start_nanos == v.trade_start_nanos
            &&& forall|m: Seq<char>| #[trigger] has_user(w.users, m) == has_user(v.users, m)
            &&& forall|m: Seq<char>|
                has_user(v.users, m) && m != name ==> #[trigger] account_of(w.users, m) == account_of(
                    v.users,
                    m,
                )
            &&& place_bid_spec(v, name, price, now).1 == Ok::<bool, AuctionError>(true) ==> w.asks
                == take_one(v.asks, price).0
            &&& place_bid_spec(v, name, price, now).1 != Ok::<bool, AuctionError>(true) ==> w.asks
                == v.asks
        }),
{
    lemma_charge_effects(v, name);
    if charge_fee(v, name) is Ok {
        let c = charge_fee(v, name)->Ok_0;
        if now >= v.trade_start_nanos && !account_of(c.users, name).done_trade && take_one(
            c.asks,
            price,
        ).1 == MatchOutcome::Matched {
            assert(has_user(v.users, name));
            assert(has_user(c.users, name));
            let i = user_index(c.users, name);
            lemma_with_account_effects(
                c.users,
                i,
                Account { balance: (c.users[i].1.balance - price) as i64, done_trade: true },
            );
            lemma_take_one_wf(c.asks, price);
        }
    }
}

/// Fees: a ping, a look at the book or a bid by a registered participant who
/// can pay the fee costs that participant exactly the fee, also where the look
/// or the bid is then refused, and a claimed unit costs its price on top. A
/// ping is answered whatever the clock says. An unknown name, or a balance
/// below the fee, is refused and changes nothing.
pub proof fn lemma_fee_charged(v: AuctionView, name: Seq<char>, price: i64, now: i64)
    requires
        v.wf(),
    ensures
        !has_user(v.users, name) ==> {
            &&& ping_spec(v, name, now) == (v, Err::<PingResult, AuctionError>(AuctionError::UserNotFound))
            &&& check_asks_spec(v, name, now) == (v, Err::<Seq<PriceVol>, AuctionError>(
                AuctionError::UserNotFound,
            ))
            &&& place_bid_spec(v, name, price, now) == (v, Err::<bool, AuctionError>(
                AuctionError::UserNotFound,
            ))
        },
        has_user(v.users, name) && account_of(v.users, name).balance < v.fee ==> {
            &&& ping_spec(v, name, now) == (v, Err::<PingResult, AuctionError>(
                AuctionError::InsufficientFunds,
            ))
            &&& check_asks_spec(v, name, now) == (v, Err::<Seq<PriceVol>, AuctionError>(
                AuctionError::InsufficientFunds,
            ))
            &&& place_bid_spec(v, name, price, now) == (v, Err::<bool, AuctionError>(
                AuctionError::InsufficientFunds,
            ))
        },
        has_user(v.users, name) && account_of(v.users, name).balance >= v.fee ==> {
            let b = account_of(v.users, name).balance;
            let bid = place_bid_spec(v, name, price, now);
            &&& ping_spec(v, name, now).1 is Ok
            &&& account_of(ping_spec(v, name, now).0.users, name).balance == b - v.fee
            &&& account_of(check_asks_spec(v, name, now).0.users, name).balance == b - v.fee
            &&& bid.1 == Ok::<bool, AuctionError>(true) ==> account_of(bid.0.users, name).balance == b
                - v.fee - price
            &&& bid.1 != Ok::<bool, AuctionError>(true) ==> account_of(bid.0.users, name).balance == b
                - v.fee
        },
{
    lemma_charge_effects(v, name);
    if has_user(v.users, name) && account_of(v.users, name).balance >= v.fee {
        let c = charge_fee(v, name)->Ok_0;
        assert(has_user(c.users, name));
        let i = user_index(c.users, name);
        lemma_with_account_effects(
            c.users,
            i,
            Account { balance: (c.users[i].1.balance - price) as i64, done_trade: true },
        );
    }
}

/// Trading opens at the configured time: before it, a look at the book and a
/// bid are refused as not yet open, with the fee already taken; a ping is
/// answered.
pub proof fn lemma_gated_before_open(v: AuctionView, name: Seq<char>, price: i64, now: i64)
    requires
        v.wf(),
        now < v.trade_start_nanos,
        has_user(v.users, name),
        account_of(v.users, name).balance >= v.fee,
    ensures
        check_asks_spec(v, name, now) == (charge_fee(v, name)->Ok_0, Err::<Seq<PriceVol>, AuctionError>(
            AuctionError::NotYetOpen,
        )),
        place_bid_spec(v, name, price, now) == (charge_fee(v, name)->Ok_0, Err::<bool, AuctionError>(
            AuctionError::NotYetOpen,
        )),
        account_of(charge_fee(v, name)->Ok_0.users, name).balance == account_of(v.users, name).balance
            - v.fee,
        ping_spec(v, name, now).1 is Ok,
{
    lemma_charge_effects(v, name);
}

/// One trade per participant: a bid that claims a unit marks its bidder as
/// traded; no operation of anyone takes the mark away; and a marked
/// participant claims no unit again, their bid with the fee paid and trading
/// open being refused as already traded.
pub proof fn lemma_one_trade_per_user(
    v: AuctionView,
    name: Seq<char>,
    other: Seq<char>,
    price: i64,
    now: i64,
)
    requires
        v.wf(),
        has_user(v.users, name),
    ensures
        place_bid_spec(v, name, price, now).1 == Ok::<bool, AuctionError>(true) ==> account_of(
            place_bid_spec(v, name, price, now).0.users,
            name,
        ).done_trade,
        account_of(v.users, name).done_trade ==> {
            &&& place_bid_spec(v, name, price, now).1 != Ok::<bool, AuctionError>(true)
            &&& account_of(v.users, name).balance >= v.fee && now >= v.trade_start_nanos
                ==> place_bid_spec(v, name, price, now).1 == Err::<bool, AuctionError>(
                AuctionError::AlreadyTraded,
            )
            &&& account_of(ping_spec(v, other, now).0.users, name).done_trade
            &&& account_of(check_asks_spec(v, other, now).0.users, name).done_trade
            &&& account_of(place_bid_spec(v, other, price, now).0.users, name).done_trade
        },
{
    lemma_charge_effects(v, name);
    lemma_charge_effects(v, other);
    lemma_bid_effects(v, other, price, now);
    if charge_fee(v, name) is Ok {
        let c = charge_fee(v, name)->Ok_0;
        assert(has_user(c.users, name));
        let i = user_index(c.users, name);
        lemma_with_account_effects(
            c.users,
            i,
            Account { balance: (c.users[i].1.balance - price) as i64, done_trade: true },
        );
    }
    if charge_fee(v, other) is Ok && other == name {
        let c = charge_fee(v, other)->Ok_0;
        assert(has_user(c.users, other));
    }
}

/// The bids at `price` of each of `names` in turn, all at time `now`: the
/// state after them, and how many claimed a unit.
pub open spec fn bid_in_turn(v: AuctionView, names: Seq<Seq<char>>, price: i64, now: i64) -> (
    AuctionView,
    nat,
)
    decreases names.len(),
{
    if names.len() == 0 {
        (v, 0)
    } else {
        let step = place_bid_spec(v, names[0], price, now);
        let rest = bid_in_turn(step.0, names.drop_first(), price, now);
        (rest.0, if step.1 == Ok::<bool, AuctionError>(true) {
            rest.1 + 1
        } else {
            rest.1
        })
    }
}

/// Each unit has one winner: when distinct participants, each registered,
/// able to pay the fee and not yet traded, bid in turn at one price while
/// trading is open, exactly as many claim a unit as the level had units or
/// there were bidders, whichever is fewer, and the level keeps the rest.
pub proof fn lemma_single_winner(v: AuctionView, names: Seq<Seq<char>>, price: i64, now: i64)
    requires
        v.wf(),
        now >= v.trade_start_nanos,
        names.no_duplicates(),
        forall|k: int|
            0 <= k < names.len() ==> has_user(v.users, #[trigger] names[k]) && account_of(
                v.users,
                names[k],
            ).balance >= v.fee && !account_of(v.users, names[k]).done_trade,
    ensures
        bid_in_turn(v, names, price, now).1 == if volume_at(v.asks, price) < names.len() {
            volume_at(v.asks, price)
        } else {
            names.len() as int
        },
        volume_at(bid_in_turn(v, names, price, now).0.asks, price) == if volume_at(v.asks, price)
            > names.len() {
            volume_at(v.asks, price) - names.len()
        } else {
            0
        },
    decreases names.len(),
{
    if names.len() > 0 {
        let n0 = names[0];
        let w = place_bid_spec(v, n0, price, now).0;
        lemma_bid_effects(v, n0, price, now);
        lemma_charge_effects(v, n0);
        let c = charge_fee(v, n0)->Ok_0;
        lemma_take_one_volume(c.asks, price);
        let rest = names.drop_first();
        assert forall|k: int| 0 <= k < rest.len() implies has_user(w.users, #[trigger] rest[k])
            && account_of(w.users, rest[k]).balance >= w.fee && !account_of(w.users, rest[k]).done_trade by {
            assert(rest[k] == names[k + 1]);
            assert(names[k + 1] != names[0]);
        }
        lemma_single_winner(w, rest, price, now);
    }
}

} // verus!
