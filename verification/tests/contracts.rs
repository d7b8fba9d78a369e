use token_ledgers::auth::AuthContext;
use token_ledgers::cwt::CWTContract;
use token_ledgers::mdt::MDTContract;
use token_ledgers::muldiv::mul_div_floor;
use token_ledgers::types::{Event, Principal, TokenError};

fn p(id: u64) -> Principal {
    Principal { id }
}

fn auth_of(ids: &[u64]) -> AuthContext {
    let mut approved: Vec<Principal> = Vec::new();
    for id in ids {
        approved.push(p(*id));
    }
    AuthContext::new(approved)
}

const ADMIN: u64 = 1;
const CWT_ID: u64 = 2;
const MDT_ID: u64 = 3;
const H1: u64 = 11;
const H2: u64 = 12;
const H3: u64 = 13;

fn cwt_with(balances: &[(u64, i128)]) -> CWTContract {
    let admin_auth = auth_of(&[ADMIN]);
    let mut c = CWTContract::initialize(p(CWT_ID), p(ADMIN));
    for (id, amount) in balances {
        assert_eq!(c.mint(&admin_auth, p(*id), *amount), Ok(()));
    }
    c
}

fn mdt() -> MDTContract {
    MDTContract::initialize(p(MDT_ID), p(ADMIN), p(CWT_ID))
}

#[test]
fn mint_credits_balance_and_supply() {
    let c = cwt_with(&[(H1, 100)]);
    assert_eq!(c.bal_of(p(H1)), 100);
    assert_eq!(c.bal_of(p(H2)), 0);
    assert_eq!(c.tot_sup(), 100);
}

#[test]
fn mint_requires_admin() {
    let mut c = cwt_with(&[]);
    let r = c.mint(&auth_of(&[H1]), p(H1), 100);
    assert_eq!(r, Err(TokenError::Unauthorized));
    assert_eq!(c.bal_of(p(H1)), 0);
    assert_eq!(c.tot_sup(), 0);
}

#[test]
fn mint_rejects_nonpositive_amount() {
    let mut c = cwt_with(&[(H1, 40)]);
    let admin_auth = auth_of(&[ADMIN]);
    assert_eq!(c.mint(&admin_auth, p(H1), 0), Err(TokenError::InvalidAmount));
    assert_eq!(c.mint(&admin_auth, p(H1), -5), Err(TokenError::InvalidAmount));
    assert_eq!(c.bal_of(p(H1)), 40);
    assert_eq!(c.tot_sup(), 40);
}

#[test]
fn transfer_moves_balance_supply_unchanged() {
    let mut c = cwt_with(&[(H1, 100)]);
    let r = c.transfer(&auth_of(&[H1]), p(H1), p(H2), 30);
    assert_eq!(r, Ok(()));
    assert_eq!(c.bal_of(p(H1)), 70);
    assert_eq!(c.bal_of(p(H2)), 30);
    assert_eq!(c.tot_sup(), 100);
}

#[test]
fn transfer_to_self_changes_nothing() {
    let mut c = cwt_with(&[(H1, 100)]);
    assert_eq!(c.transfer(&auth_of(&[H1]), p(H1), p(H1), 60), Ok(()));
    assert_eq!(c.bal_of(p(H1)), 100);
    assert_eq!(c.tot_sup(), 100);
}

#[test]
fn transfer_beyond_balance_fails() {
    let mut c = cwt_with(&[(H1, 50)]);
    let r = c.transfer(&auth_of(&[H1]), p(H1), p(H2), 51);
    assert_eq!(r, Err(TokenError::InsufficientBalance));
    assert_eq!(c.bal_of(p(H1)), 50);
    assert_eq!(c.bal_of(p(H2)), 0);
    assert_eq!(c.tot_sup(), 50);
}

#[test]
fn transfer_negative_amount_fails() {
    let mut c = cwt_with(&[(H1, 50)]);
    let r = c.transfer(&auth_of(&[H1]), p(H1), p(H2), -1);
    assert_eq!(r, Err(TokenError::InvalidAmount));
    assert_eq!(c.bal_of(p(H1)), 50);
}

#[test]
fn transfer_requires_sender_auth() {
    let mut c = cwt_with(&[(H1, 50)]);
    let r = c.transfer(&auth_of(&[H2]), p(H1), p(H2), 10);
    assert_eq!(r, Err(TokenError::Unauthorized));
    assert_eq!(c.bal_of(p(H1)), 50);
}

#[test]
fn cwt_burn_needs_admin_signoff() {
    let mut c = cwt_with(&[(H1, 80)]);
    // The holder alone cannot burn on CWT.
    let r = c.transfer(&auth_of(&[H1]), p(H1), p(CWT_ID), 30);
    assert_eq!(r, Err(TokenError::Unauthorized));
    assert_eq!(c.bal_of(p(H1)), 80);
    assert_eq!(c.tot_sup(), 80);
    // With the admin's sign-off the burn debits holder and supply alike.
    let r = c.transfer(&auth_of(&[H1, ADMIN]), p(H1), p(CWT_ID), 30);
    assert_eq!(r, Ok(()));
    assert_eq!(c.bal_of(p(H1)), 50);
    assert_eq!(c.tot_sup(), 50);
}

#[test]
fn mdt_burn_is_self_service() {
    let mut m = mdt();
    let c = cwt_with(&[(H1, 10)]);
    let holders = vec![p(H1)];
    assert_eq!(m.distribute(&auth_of(&[ADMIN]), 10, &holders, &c), Ok(()));
    assert_eq!(m.balance_of(p(H1)), 10);
    // The holder's own authorization suffices to burn on MDT.
    assert_eq!(m.transfer(&auth_of(&[H1]), p(H1), p(MDT_ID), 4), Ok(()));
    assert_eq!(m.balance_of(p(H1)), 6);
    assert_eq!(m.total_supply(), 6);
}

#[test]
fn distribute_proportional_shares() {
    let c = cwt_with(&[(H1, 30), (H2, 70)]);
    let mut m = mdt();
    let holders = vec![p(H1), p(H2)];
    assert_eq!(m.distribute(&auth_of(&[ADMIN]), 10, &holders, &c), Ok(()));
    assert_eq!(m.balance_of(p(H1)), 3);
    assert_eq!(m.balance_of(p(H2)), 7);
    assert_eq!(m.total_supply(), 10);
    match m.events.last() {
        Some(Event::Distribution { total_distributed, holders: listed }) => {
            assert_eq!(*total_distributed, 10);
            assert_eq!(listed.len(), 2);
            assert_eq!(listed[0], p(H1));
            assert_eq!(listed[1], p(H2));
        }
        _ => panic!("expected a distribution event"),
    }
}

#[test]
fn distribute_truncates_each_share() {
    // 1 and 1 out of 2, amount 3: each share is floor(3/2) = 1, and
    // the truncation remainder of 1 is never minted.
    let c = cwt_with(&[(H1, 1), (H2, 1)]);
    let mut m = mdt();
    let holders = vec![p(H1), p(H2)];
    assert_eq!(m.distribute(&auth_of(&[ADMIN]), 3, &holders, &c), Ok(()));
    assert_eq!(m.balance_of(p(H1)), 1);
    assert_eq!(m.balance_of(p(H2)), 1);
    assert_eq!(m.total_supply(), 2);
}

#[test]
fn distribute_skips_empty_shares() {
    // A share that truncates to zero credits nothing, and a listed
    // principal without CWT gets nothing.
    let c = cwt_with(&[(H1, 1), (H2, 999)]);
    let mut m = mdt();
    let holders = vec![p(H1), p(H2), p(H3)];
    assert_eq!(m.distribute(&auth_of(&[ADMIN]), 10, &holders, &c), Ok(()));
    assert_eq!(m.balance_of(p(H1)), 0);
    assert_eq!(m.balance_of(p(H2)), 9);
    assert_eq!(m.balance_of(p(H3)), 0);
    assert_eq!(m.total_supply(), 9);
    match m.events.last() {
        Some(Event::Distribution { total_distributed, .. }) => {
            assert_eq!(*total_distributed, 9);
        }
        _ => panic!("expected a distribution event"),
    }
}

#[test]
fn distribute_ignores_unlisted_holders() {
    let c = cwt_with(&[(H1, 30), (H2, 70)]);
    let mut m = mdt();
    let holders = vec![p(H1)];
    assert_eq!(m.distribute(&auth_of(&[ADMIN]), 10, &holders, &c), Ok(()));
    assert_eq!(m.balance_of(p(H1)), 3);
    assert_eq!(m.balance_of(p(H2)), 0);
    assert_eq!(m.total_supply(), 3);
}

#[test]
fn distribute_refusals() {
    let admin_auth = auth_of(&[ADMIN]);
    let funded = cwt_with(&[(H1, 5)]);
    let empty_cwt = cwt_with(&[]);
    let mut m = mdt();
    let holders = vec![p(H1)];
    let none: Vec<Principal> = Vec::new();
    assert_eq!(
        m.distribute(&auth_of(&[H1]), 10, &holders, &funded),
        Err(TokenError::Unauthorized)
    );
    assert_eq!(
        m.distribute(&admin_auth, 0, &holders, &funded),
        Err(TokenError::InvalidAmount)
    );
    assert_eq!(
        m.distribute(&admin_auth, -3, &holders, &funded),
        Err(TokenError::InvalidAmount)
    );
    assert_eq!(
        m.distribute(&admin_auth, 10, &none, &funded),
        Err(TokenError::EmptyHolderSet)
    );
    assert_eq!(
        m.distribute(&admin_auth, 10, &holders, &empty_cwt),
        Err(TokenError::ZeroCwtSupply)
    );
    assert_eq!(m.total_supply(), 0);
    assert_eq!(m.balance_of(p(H1)), 0);
}

#[test]
fn reads_are_idempotent() {
    let c = cwt_with(&[(H1, 42)]);
    assert_eq!(c.bal_of(p(H1)), c.bal_of(p(H1)));
    assert_eq!(c.tot_sup(), c.tot_sup());
    assert_eq!(c.bal_of(p(H1)), 42);
    assert_eq!(c.tot_sup(), 42);
}

#[test]
fn supply_conserved_over_mixed_history() {
    let mut c = cwt_with(&[(H1, 500), (H2, 200)]);
    let admin_auth = auth_of(&[ADMIN]);
    assert_eq!(c.transfer(&auth_of(&[H1]), p(H1), p(H3), 123), Ok(()));
    assert_eq!(c.transfer(&auth_of(&[H2, ADMIN]), p(H2), p(CWT_ID), 50), Ok(()));
    assert_eq!(c.mint(&admin_auth, p(H3), 77), Ok(()));
    let sum = c.bal_of(p(H1)) + c.bal_of(p(H2)) + c.bal_of(p(H3));
    assert_eq!(c.tot_sup(), sum);
    assert_eq!(c.tot_sup(), 500 + 200 - 50 + 77);
}

#[test]
fn events_follow_the_asymmetry() {
    let mut c = cwt_with(&[(H1, 100)]);
    assert_eq!(c.events.len(), 1);
    assert!(matches!(
        c.events[0],
        Event::Mint { to, amount } if to == p(H1) && amount == 100
    ));
    // A plain transfer publishes nothing.
    assert_eq!(c.transfer(&auth_of(&[H1]), p(H1), p(H2), 10), Ok(()));
    assert_eq!(c.events.len(), 1);
    // A burn publishes one burn event.
    assert_eq!(c.transfer(&auth_of(&[H1, ADMIN]), p(H1), p(CWT_ID), 5), Ok(()));
    assert_eq!(c.events.len(), 2);
    assert!(matches!(
        c.events[1],
        Event::Burn { from, amount } if from == p(H1) && amount == 5
    ));
}

#[test]
fn share_is_exact_when_product_overflows() {
    // The full product overflows 128 bits; the quotient must still be
    // exact, never saturated.
    let max = i128::MAX;
    assert_eq!(mul_div_floor(max, 12345, max), 12345);
    assert_eq!(mul_div_floor(max - 1, max, max), max - 1);
    let b: i128 = 1 << 100;
    let t: i128 = 1 << 101;
    assert_eq!(mul_div_floor(b, 999, t), 499);
    assert_eq!(mul_div_floor(1, 10, 1000), 0);
    assert_eq!(mul_div_floor(30, 10, 100), 3);
}

#[test]
fn distribute_with_huge_balances_is_exact() {
    let big = i128::MAX / 2;
    let c = cwt_with(&[(H1, big), (H2, big)]);
    let mut m = mdt();
    let holders = vec![p(H1), p(H2)];
    assert_eq!(m.distribute(&auth_of(&[ADMIN]), 101, &holders, &c), Ok(()));
    // Each holder owns exactly half of the supply.
    assert_eq!(m.balance_of(p(H1)), 50);
    assert_eq!(m.balance_of(p(H2)), 50);
    assert_eq!(m.total_supply(), 100);
}

#[test]
fn distribute_serves_a_duplicated_holder_twice() {
    // The loop follows the list as supplied: a holder listed twice is
    // credited twice, and the total handed out can then exceed the
    // amount offered. The bound `sum of shares <= amount` is stated
    // only of duplicate-free lists.
    let c = cwt_with(&[(H1, 100)]);
    let mut m = mdt();
    let holders = vec![p(H1), p(H1)];
    assert_eq!(m.distribute(&auth_of(&[ADMIN]), 10, &holders, &c), Ok(()));
    assert_eq!(m.balance_of(p(H1)), 20);
    assert_eq!(m.total_supply(), 20);
}
