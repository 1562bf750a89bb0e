use poa_token_tools::errors::RunError;
use poa_token_tools::subtoken::{Subtoken, SubtokenList, factory_ok, token_ok};

#[test]
fn parse_keeps_order_of_significant_lines() {
    let src = "ft1\nft2\n# a comment\n\n  ft3  \n";
    let list = SubtokenList::parse("poa.example.near", src).unwrap();
    let prefixes: Vec<&str> = list
        .tokens_list
        .iter()
        .map(|t| t.token_prefix.as_str())
        .collect();
    assert_eq!(prefixes, vec!["ft1", "ft2", "ft3"]);
    assert_eq!(
        list.tokens_list[0].account_id(),
        "ft1.poa.example.near".to_string()
    );
}

#[test]
fn parse_empty_input_gives_no_targets() {
    let list = SubtokenList::parse("poa.example.near", "").unwrap();
    assert_eq!(list.tokens_list.len(), 0);
    let list = SubtokenList::parse("poa.example.near", "# only comments\n\n").unwrap();
    assert_eq!(list.tokens_list.len(), 0);
}

#[test]
fn parse_rejects_line_with_internal_whitespace() {
    let src = "ft1\nbad token\nft2\n";
    let err = SubtokenList::parse("poa.example.near", src).unwrap_err();
    assert_eq!(
        err,
        RunError::InvalidTargetSpec {
            line: "bad token".to_string()
        }
    );
}

#[test]
fn parse_rejects_non_ascii_line() {
    let src = "ft1\nf\u{e9}t\n";
    let err = SubtokenList::parse("poa.example.near", src).unwrap_err();
    assert_eq!(
        err,
        RunError::InvalidTargetSpec {
            line: "f\u{e9}t".to_string()
        }
    );
}

#[test]
fn parse_names_first_offending_line() {
    let src = "one bad\nalso bad\n";
    let err = SubtokenList::parse("poa.example.near", src).unwrap_err();
    assert_eq!(
        err,
        RunError::InvalidTargetSpec {
            line: "one bad".to_string()
        }
    );
}

#[test]
fn from_line_trims_and_validates() {
    let t = Subtoken::from_line("poa.example.near", "  ft9  ").unwrap();
    assert_eq!(t.token_prefix, "ft9".to_string());
    assert_eq!(t.poa_factory_account, "poa.example.near".to_string());
    assert!(Subtoken::from_line("poa.example.near", "a b").is_err());
    assert!(Subtoken::from_line("poa.example.near", "").is_err());
    assert!(Subtoken::from_line("poa.example.near", "caf\u{e9}").is_err());
}

#[test]
fn token_and_factory_checks() {
    assert!(token_ok("ft1"));
    assert!(!token_ok(""));
    assert!(!token_ok("a b"));
    assert!(factory_ok("poa.example.near"));
    assert!(factory_ok(""));
    assert!(!factory_ok("poa example"));
    assert!(!factory_ok("p\u{f6}a"));
}
