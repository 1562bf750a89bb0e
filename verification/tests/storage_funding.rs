use poa_token_tools::errors::RunError;
use poa_token_tools::storage_deposit::{
    filter_tokens_with_already_sufficient_storage, total_to_deposit, StorageBalance,
    StorageBalanceBounds, TokenInformation,
};

fn tok(account: &str) -> TokenInformation {
    TokenInformation {
        token_type: "nep141".to_string(),
        token_account: account.to_string(),
    }
}

#[test]
fn token_line_splits_on_single_colon() {
    let t = TokenInformation::from_line("nep141:usdt.near").unwrap();
    assert_eq!(t.token_type, "nep141".to_string());
    assert_eq!(t.token_account, "usdt.near".to_string());
}

#[test]
fn token_line_without_colon_is_rejected() {
    assert_eq!(
        TokenInformation::from_line("usdt.near").unwrap_err(),
        RunError::InvalidTokenLine {
            line: "usdt.near".to_string()
        }
    );
}

#[test]
fn token_line_with_two_colons_is_rejected() {
    assert!(TokenInformation::from_line("a:b:c").is_err());
}

#[test]
fn token_list_parses_with_comments_and_blanks() {
    let src = "# fleet\nnep141:usdt.near\n\n  nep141:usdc.near \n";
    let v = TokenInformation::parse_list(src).unwrap();
    assert_eq!(v.len(), 2);
    assert_eq!(v[0].token_account, "usdt.near".to_string());
    assert_eq!(v[1].token_account, "usdc.near".to_string());
}

#[test]
fn token_list_reports_first_bad_line() {
    let src = "nep141:usdt.near\nbroken\n";
    assert_eq!(
        TokenInformation::parse_list(src).unwrap_err(),
        RunError::InvalidTokenLine {
            line: "broken".to_string()
        }
    );
}

#[test]
fn preferred_value_is_the_minimum_bound() {
    let b = StorageBalanceBounds { min: 125, max: 900 };
    assert_eq!(b.get_preferred_value(), 125);
}

#[test]
fn balance_of_null_is_zero() {
    assert_eq!(StorageBalance::Null.get_balance(), 0);
    assert_eq!(
        StorageBalance::Value {
            available: 3,
            total: 77
        }
        .get_balance(),
        77
    );
}

#[test]
fn filter_keeps_only_underfunded_tokens_in_order() {
    let input = vec![
        (
            tok("a.near"),
            StorageBalanceBounds { min: 100, max: 200 },
            StorageBalance::Null,
        ),
        (
            tok("b.near"),
            StorageBalanceBounds { min: 100, max: 200 },
            StorageBalance::Value {
                available: 0,
                total: 150,
            },
        ),
        (
            tok("c.near"),
            StorageBalanceBounds { min: 100, max: 200 },
            StorageBalance::Value {
                available: 0,
                total: 40,
            },
        ),
    ];
    let out = filter_tokens_with_already_sufficient_storage(input);
    assert_eq!(out.len(), 2);
    assert_eq!(out[0].0.token_account, "a.near".to_string());
    assert_eq!(out[0].1, 100);
    assert_eq!(out[1].0.token_account, "c.near".to_string());
    assert_eq!(out[1].1, 60);
}

#[test]
fn exact_balance_needs_no_deposit() {
    let input = vec![(
        tok("a.near"),
        StorageBalanceBounds { min: 100, max: 200 },
        StorageBalance::Value {
            available: 0,
            total: 100,
        },
    )];
    let out = filter_tokens_with_already_sufficient_storage(input);
    assert_eq!(out.len(), 0);
}

#[test]
fn total_adds_all_deposits() {
    let ds = vec![(tok("a.near"), 100u128), (tok("b.near"), 60u128)];
    assert_eq!(total_to_deposit(&ds), Some(160));
    assert_eq!(total_to_deposit(&Vec::new()), Some(0));
}

#[test]
fn total_overflow_is_reported() {
    let ds = vec![(tok("a.near"), u128::MAX), (tok("b.near"), 1u128)];
    assert_eq!(total_to_deposit(&ds), None);
}
