use poa_token_tools::commands::{
    account_state_args, add_full_access_key_args, delete_key_args, deploy_contract_args,
    download_wasm_args, format_command, get_public_key_args, storage_balance_bounds_args,
    storage_balance_of_args, storage_deposit_args, u128_to_decimal,
};

fn strs(v: &[&str]) -> Vec<String> {
    v.iter().map(|s| s.to_string()).collect()
}

#[test]
fn format_command_joins_with_spaces() {
    let args = strs(&["near", "state", "x.near"]);
    assert_eq!(format_command(&args), "near state x.near".to_string());
    assert_eq!(format_command(&Vec::new()), "".to_string());
}

#[test]
fn format_command_quotes_args_with_whitespace() {
    let args = strs(&["near", "{ \"a\": 1 }", "send"]);
    assert_eq!(
        format_command(&args),
        "near '{ \"a\": 1 }' send".to_string()
    );
}

#[test]
fn grant_command_args_exact() {
    let args = add_full_access_key_args(
        "ft1.poa.example.near",
        "ed25519:KEY",
        "operator.near",
        true,
    );
    let expected = strs(&[
        "near",
        "contract",
        "call-function",
        "as-transaction",
        "ft1.poa.example.near",
        "add_full_access_key",
        "json-args",
        "{ \"public_key\": \"ed25519:KEY\" }",
        "prepaid-gas",
        "100.0Tgas",
        "attached-deposit",
        "1yoctonear",
        "sign-as",
        "operator.near",
        "network-config",
        "mainnet",
        "sign-with-keychain",
        "send",
    ]);
    assert_eq!(args, expected);
}

#[test]
fn revoke_command_args_without_fee() {
    let args = delete_key_args("ft1.poa.example.near", "ed25519:KEY", "operator.near", false);
    assert_eq!(args[5], "delete_key".to_string());
    assert_eq!(args[7], "{ \"public_key\": \"ed25519:KEY\" }".to_string());
    assert_eq!(args[11], "0yoctonear".to_string());
}

#[test]
fn deploy_command_args_exact() {
    let args = deploy_contract_args("ft1.poa.example.near", "token.wasm", "w1 w2 w3");
    let expected = strs(&[
        "near",
        "contract",
        "deploy",
        "ft1.poa.example.near",
        "use-file",
        "token.wasm",
        "without-init-call",
        "network-config",
        "mainnet",
        "sign-with-seed-phrase",
        "w1 w2 w3",
        "--seed-phrase-hd-path",
        "m/44'/397'/0'",
        "send",
    ]);
    assert_eq!(args, expected);
}

#[test]
fn download_and_state_args() {
    let args = download_wasm_args("ft1.poa.example.near", "backups/ft1.wasm");
    assert_eq!(args[2], "download-wasm".to_string());
    assert_eq!(args[3], "ft1.poa.example.near".to_string());
    assert_eq!(args[5], "backups/ft1.wasm".to_string());
    let args = account_state_args("operator.near");
    assert_eq!(
        args,
        strs(&["near", "state", "operator.near", "--networkId", "mainnet"])
    );
}

#[test]
fn public_key_command_args() {
    let args = get_public_key_args("w1 w2");
    assert_eq!(args[0], "near".to_string());
    assert_eq!(args[1], "--quiet".to_string());
    assert_eq!(args[5], "w1 w2".to_string());
    assert_eq!(args[7], "m/44'/397'/0'".to_string());
}

#[test]
fn storage_command_args() {
    let args = storage_balance_bounds_args("usdt.near");
    assert_eq!(args[5], "storage_balance_bounds".to_string());
    assert_eq!(args[7], "{}".to_string());
    let args = storage_balance_of_args("usdt.near", "bene.near");
    assert_eq!(args[5], "storage_balance_of".to_string());
    assert_eq!(args[7], "{ \"account_id\": \"bene.near\" }".to_string());
    let args = storage_deposit_args("usdt.near", "bene.near", 1250, "operator.near");
    assert_eq!(args[5], "storage_deposit".to_string());
    assert_eq!(args[11], "1250yoctonear".to_string());
}

#[test]
fn decimal_rendering() {
    assert_eq!(u128_to_decimal(0), "0".to_string());
    assert_eq!(u128_to_decimal(7), "7".to_string());
    assert_eq!(u128_to_decimal(1205), "1205".to_string());
    assert_eq!(
        u128_to_decimal(u128::MAX),
        "340282366920938463463374607431768211455".to_string()
    );
}
