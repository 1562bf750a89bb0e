use poa_token_tools::balance::parse_balance_output;
use poa_token_tools::errors::RunError;
use poa_token_tools::seed::{extract_public_key, validate_seed_phrase};

#[test]
fn seed_phrase_of_twelve_words_is_accepted_and_trimmed() {
    let s = "  alpha bravo charlie delta echo foxtrot golf hotel india juliet kilo lima \n";
    let p = validate_seed_phrase(s).unwrap();
    assert_eq!(
        p,
        "alpha bravo charlie delta echo foxtrot golf hotel india juliet kilo lima".to_string()
    );
}

#[test]
fn seed_phrase_with_wrong_word_count_is_rejected() {
    let s = "alpha bravo charlie";
    assert_eq!(validate_seed_phrase(s).unwrap_err(), RunError::InvalidSeedPhrase);
    let thirteen = "a b c d e f g h i j k l m";
    assert_eq!(
        validate_seed_phrase(thirteen).unwrap_err(),
        RunError::InvalidSeedPhrase
    );
}

#[test]
fn seed_phrase_with_non_ascii_is_rejected() {
    let s = "alpha bravo charlie delta echo foxtrot golf hotel india juliet kilo l\u{ed}ma";
    assert_eq!(validate_seed_phrase(s).unwrap_err(), RunError::InvalidSeedPhrase);
}

#[test]
fn seed_phrase_tolerates_extra_internal_spacing() {
    let s = "a  b   c d e f g h i j k l";
    assert!(validate_seed_phrase(s).is_ok());
}

#[test]
fn public_key_is_read_from_first_matching_line() {
    let out = "note: whatever\nPublic key: ed25519:AbCdEf \nPublic key: other\n";
    assert_eq!(extract_public_key(out), Some("ed25519:AbCdEf".to_string()));
}

#[test]
fn public_key_line_must_start_with_prefix() {
    let out = "  Public key: indented does not count\nno key here\n";
    assert_eq!(extract_public_key(out), None);
    assert_eq!(extract_public_key(""), None);
}

#[test]
fn balance_is_parsed_from_state_output() {
    let out = "Account state\n  Native account balance     100 NEAR  \n  Storage used 1 KB\n";
    assert_eq!(
        parse_balance_output(out).unwrap(),
        100_000_000_000_000_000_000_000_000u128
    );
}

#[test]
fn balance_in_yoctonear_units() {
    let out = "Native account balance 17 yoctoNEAR\n";
    assert_eq!(parse_balance_output(out).unwrap(), 17u128);
}

#[test]
fn missing_or_garbled_balance_is_a_query_failure() {
    assert_eq!(
        parse_balance_output("no balance line here\n").unwrap_err(),
        RunError::BalanceQueryFailed
    );
    assert_eq!(
        parse_balance_output("Native account balance what\n").unwrap_err(),
        RunError::BalanceQueryFailed
    );
}

#[test]
fn non_ascii_amount_is_a_query_failure() {
    // A non-breaking space inside the amount: rejected before the token
    // parser ever sees it.
    let out = "Native account balance \u{a0}1 NEAR\n";
    assert_eq!(
        parse_balance_output(out).unwrap_err(),
        RunError::BalanceQueryFailed
    );
}
