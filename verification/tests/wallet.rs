use perlica::logic::wallet::{WalletState, WALLET_DIAMOND_AMOUNT, WALLET_GOLD_AMOUNT};

#[test]
fn default_wallet_has_initial_balances() {
    let w = WalletState::default();
    assert_eq!(w.gold, WALLET_GOLD_AMOUNT);
    assert_eq!(w.diamond, WALLET_DIAMOND_AMOUNT);
}

#[test]
fn new_matches_default() {
    let w1 = WalletState::new();
    let w2 = WalletState::default();
    assert_eq!(w1.gold, w2.gold);
    assert_eq!(w1.diamond, w2.diamond);
}

#[test]
fn with_balances_sets_values() {
    let w = WalletState::with_balances(500, 100);
    assert_eq!(w.gold, 500);
    assert_eq!(w.diamond, 100);
}

#[test]
fn try_deduct_gold_success() {
    let mut w = WalletState::with_balances(1000, 0);
    assert!(w.try_deduct_gold(500));
    assert_eq!(w.gold, 500);
}

#[test]
fn try_deduct_gold_exact_amount() {
    let mut w = WalletState::with_balances(1000, 0);
    assert!(w.try_deduct_gold(1000));
    assert_eq!(w.gold, 0);
}

#[test]
fn try_deduct_gold_insufficient() {
    let mut w = WalletState::with_balances(100, 0);
    assert!(!w.try_deduct_gold(200));
    assert_eq!(w.gold, 100);
}

#[test]
fn try_deduct_gold_zero_amount() {
    let mut w = WalletState::with_balances(100, 0);
    assert!(w.try_deduct_gold(0));
    assert_eq!(w.gold, 100);
}

#[test]
fn initial_balance_values() {
    assert_eq!(WALLET_GOLD_AMOUNT, 9_999_999);
    assert_eq!(WALLET_DIAMOND_AMOUNT, 9_999_999);
}

#[test]
fn deduction_never_touches_diamonds() {
    let mut w = WalletState::with_balances(10, 77);
    assert!(!w.try_deduct_gold(11));
    assert!(w.try_deduct_gold(10));
    assert_eq!((w.gold, w.diamond), (0, 77));
}
