use basis_token::oracle::{TokenOracle, PRICE_DIVISOR, SUPPLY_METHOD};
use basis_token::token::{Token, TokenError};

fn id(s: &str) -> String {
    s.to_string()
}

fn ledger() -> Token {
    Token::new(id("Basis"), id("BAS"), 18, 1000, id("alice"), id("token.near"))
}

#[test]
fn construct_credits_creator() {
    let t = ledger();
    assert_eq!(t.balance_of(id("alice")), 1000);
    assert_eq!(t.get_total_supply(), 1000);
    assert_eq!(t.balance_of(id("bob")), 0);
    assert_eq!(t.get_name(), "Basis");
    assert_eq!(t.get_symbol(), "BAS");
    assert_eq!(t.decimals, 18);
}

#[test]
fn construct_with_zero_supply() {
    let t = Token::new(id("Z"), id("Z"), 0, 0, id("alice"), id("token.near"));
    assert_eq!(t.balance_of(id("alice")), 0);
    assert_eq!(t.get_total_supply(), 0);
}

#[test]
fn transfer_moves_amount() {
    let mut t = ledger();
    assert_eq!(t.transfer(&id("alice"), id("bob"), 300), Ok(true));
    assert_eq!(t.balance_of(id("alice")), 700);
    assert_eq!(t.balance_of(id("bob")), 300);
    assert_eq!(t.get_total_supply(), 1000);
}

#[test]
fn transfer_whole_balance_and_zero() {
    let mut t = ledger();
    assert_eq!(t.transfer(&id("alice"), id("bob"), 0), Ok(true));
    assert_eq!(t.transfer(&id("alice"), id("bob"), 1000), Ok(true));
    assert_eq!(t.balance_of(id("alice")), 0);
    assert_eq!(t.balance_of(id("bob")), 1000);
}

#[test]
fn self_transfer_keeps_balance() {
    let mut t = ledger();
    assert_eq!(t.transfer(&id("alice"), id("alice"), 400), Ok(true));
    assert_eq!(t.balance_of(id("alice")), 1000);
    assert_eq!(t.get_total_supply(), 1000);
}

#[test]
fn transfer_over_balance_fails_and_changes_nothing() {
    let mut t = ledger();
    assert_eq!(t.transfer(&id("bob"), id("alice"), 1), Err(TokenError::InsufficientBalance));
    assert_eq!(t.transfer(&id("alice"), id("bob"), 1001), Err(TokenError::InsufficientBalance));
    assert_eq!(t.balance_of(id("alice")), 1000);
    assert_eq!(t.balance_of(id("bob")), 0);
    assert_eq!(t.get_total_supply(), 1000);
}

#[test]
fn approve_replaces_allowance() {
    let mut t = ledger();
    assert_eq!(t.allowance(id("alice"), id("bob")), 0);
    t.approve(&id("alice"), id("bob"), 200);
    assert_eq!(t.allowance(id("alice"), id("bob")), 200);
    t.approve(&id("alice"), id("bob"), 70);
    assert_eq!(t.allowance(id("alice"), id("bob")), 70);
    assert_eq!(t.allowance(id("bob"), id("alice")), 0);
}

#[test]
fn delegated_transfer_scenario() {
    let mut t = ledger();
    assert_eq!(t.transfer(&id("alice"), id("bob"), 300), Ok(true));
    t.approve(&id("alice"), id("bob"), 200);
    assert_eq!(t.transfer_from(&id("bob"), id("alice"), id("carol"), 150), Ok(true));
    assert_eq!(t.allowance(id("alice"), id("bob")), 50);
    assert_eq!(t.balance_of(id("alice")), 550);
    assert_eq!(t.balance_of(id("carol")), 150);
    assert_eq!(t.balance_of(id("bob")), 300);

    assert_eq!(
        t.transfer_from(&id("bob"), id("alice"), id("carol"), 100),
        Err(TokenError::InsufficientAllowance)
    );
    assert_eq!(t.allowance(id("alice"), id("bob")), 50);
    assert_eq!(t.balance_of(id("alice")), 550);
    assert_eq!(t.balance_of(id("carol")), 150);
    assert_eq!(t.get_total_supply(), 1000);
}

#[test]
fn delegated_transfer_checks_allowance_first() {
    let mut t = ledger();
    // bob holds nothing and was granted nothing: the allowance is reported
    assert_eq!(
        t.transfer_from(&id("alice"), id("bob"), id("carol"), 5),
        Err(TokenError::InsufficientAllowance)
    );
    t.approve(&id("bob"), id("alice"), 10);
    assert_eq!(
        t.transfer_from(&id("alice"), id("bob"), id("carol"), 5),
        Err(TokenError::InsufficientBalance)
    );
    assert_eq!(t.allowance(id("bob"), id("alice")), 10);
    assert_eq!(t.balance_of(id("carol")), 0);
}

#[test]
fn controller_mints() {
    let mut t = ledger();
    assert_eq!(t.mint(&id("token.near"), id("dave"), 500), Ok(()));
    assert_eq!(t.get_total_supply(), 1500);
    assert_eq!(t.balance_of(id("dave")), 500);
    assert_eq!(t.balance_of(id("alice")), 1000);
}

#[test]
fn non_controller_mint_is_unauthorized() {
    let mut t = ledger();
    assert_eq!(t.mint(&id("alice"), id("alice"), 500), Err(TokenError::Unauthorized));
    assert_eq!(t.get_total_supply(), 1000);
    assert_eq!(t.balance_of(id("alice")), 1000);
}

#[test]
fn mint_overflow_fails() {
    let mut t = ledger();
    assert_eq!(
        t.mint(&id("token.near"), id("dave"), u128::MAX - 999),
        Err(TokenError::ArithmeticOverflow)
    );
    assert_eq!(t.get_total_supply(), 1000);
    assert_eq!(t.balance_of(id("dave")), 0);
    assert_eq!(t.mint(&id("token.near"), id("dave"), u128::MAX - 1000), Ok(()));
    assert_eq!(t.get_total_supply(), u128::MAX);
    assert_eq!(t.balance_of(id("dave")), u128::MAX - 1000);
}

#[test]
fn controller_burns_from_any_account() {
    let mut t = ledger();
    assert_eq!(t.burn(&id("token.near"), id("alice"), 400), Ok(true));
    assert_eq!(t.balance_of(id("alice")), 600);
    assert_eq!(t.get_total_supply(), 600);
}

#[test]
fn burn_errors_change_nothing() {
    let mut t = ledger();
    assert_eq!(t.burn(&id("alice"), id("alice"), 1), Err(TokenError::Unauthorized));
    assert_eq!(t.burn(&id("token.near"), id("alice"), 1001), Err(TokenError::InsufficientBalance));
    assert_eq!(t.balance_of(id("alice")), 1000);
    assert_eq!(t.get_total_supply(), 1000);
}

#[test]
fn supply_is_sum_of_balances_after_mixed_operations() {
    let mut t = ledger();
    t.transfer(&id("alice"), id("bob"), 250).unwrap();
    t.approve(&id("bob"), id("carol"), 100);
    t.transfer_from(&id("carol"), id("bob"), id("dave"), 60).unwrap();
    t.mint(&id("token.near"), id("erin"), 40).unwrap();
    t.burn(&id("token.near"), id("bob"), 90).unwrap();
    let names = ["alice", "bob", "carol", "dave", "erin"];
    let sum: u128 = names.iter().map(|n| t.balance_of(id(n))).sum();
    assert_eq!(t.get_total_supply(), 950);
    assert_eq!(sum, 950);
    assert_eq!(t.balance_of(id("bob")), 100);
}

#[test]
fn reads_are_repeatable() {
    let t = ledger();
    assert_eq!(t.balance_of(id("alice")), t.balance_of(id("alice")));
    assert_eq!(t.allowance(id("alice"), id("bob")), t.allowance(id("alice"), id("bob")));
    assert_eq!(t.get_total_supply(), t.get_total_supply());
}

#[test]
fn oracle_price_from_supply() {
    let o = TokenOracle {};
    assert_eq!(o.get_token_price(Some(1550)), 15);
    assert_eq!(o.get_token_price(Some(99)), 0);
    assert_eq!(o.get_token_price(None), 0);
    assert_eq!(PRICE_DIVISOR, 100);
}

#[test]
fn oracle_request_asks_for_supply() {
    let o = TokenOracle {};
    let r = o.request_token_balance(id("token.near"));
    assert_eq!(r.receiver_id, "token.near");
    assert_eq!(r.method_name, SUPPLY_METHOD);
    assert_eq!(r.method_name, "get_total_supply");
    assert_eq!(r.deposit, 0);
    assert_eq!(r.gas, 0);
}
