use vstd::prelude::*;

use crate::textutil::{is_space, is_space_ch, seq_views};

verus! {

/// Decimal digit character of `d` (0 to 9).
pub open spec fn dec_digit(d: int) -> char {
    if d == 0 { '0' } else if d == 1 { '1' } else if d == 2 { '2' } else if d == 3 { '3' }
    else if d == 4 { '4' } else if d == 5 { '5' } else if d == 6 { '6' } else if d == 7 { '7' }
    else if d == 8 { '8' } else { '9' }
}

/// Plain decimal rendering of a number, most significant digit first.
pub open spec fn decimal_str(x: nat) -> Seq<char>
    decreases x,
{
    if x < 10 {
        seq![dec_digit(x as int)]
    } else {
        decimal_str(x / 10) + seq![dec_digit((x % 10) as int)]
    }
}

/// The single-character string of one decimal digit.
fn digit_str(d: u8) -> (r: &'static str)
    requires
        d < 10,
    ensures
        r@ == seq![dec_digit(d as int)],
{
    proof {
        reveal_strlit("0");
        reveal_strlit("1");
        reveal_strlit("2");
        reveal_strlit("3");
        reveal_strlit("4");
        reveal_strlit("5");
        reveal_strlit("6");
        reveal_strlit("7");
        reveal_strlit("8");
        reveal_strlit("9");
    }
    match d {
        0 => "0",
        1 => "1",
        2 => "2",
        3 => "3",
        4 => "4",
        5 => "5",
        6 => "6",
        7 => "7",
        8 => "8",
        _ => "9",
    }
}

/// The plain decimal rendering of the value.
pub fn u128_to_decimal(x: u128) -> (r: String)
    ensures
        r@ == decimal_str(x as nat),
    decreases x,
{
    let d = (x % 10) as u8;
    let ds = digit_str(d);
    if x < 10 {
        ds.to_owned()
    } else {
        proof {
            assert(x / 10 < x) by (nonlinear_arith)
                requires
                    x >= 10,
            ;
        }
        let mut r = u128_to_decimal(x / 10);
        r.append(ds);
        r
    }
}

pub open spec fn has_space(a: Seq<char>) -> bool {
    exists|i: int| 0 <= i < a.len() && is_space(#[trigger] a[i])
}

/// An argument as it is shown to the operator: wrapped in single quotes when
/// it contains whitespace (JSON arguments, seed phrases), bare otherwise.
pub open spec fn quoted_arg(a: Seq<char>) -> Seq<char> {
    if has_space(a) {
        seq!['\''] + a + seq!['\'']
    } else {
        a
    }
}

/// The space-joined, selectively quoted rendering of a whole command line.
pub open spec fn spec_format_command(args: Seq<Seq<char>>) -> Seq<char>
    decreases args.len(),
{
    if args.len() == 0 {
        Seq::empty()
    } else if args.len() == 1 {
        quoted_arg(args[0])
    } else {
        spec_format_command(args.drop_last()) + seq![' '] + quoted_arg(args.last())
    }
}

fn str_has_space(s: &str) -> (r: bool)
    ensures
        r == has_space(s@),
{
    let n = s.unicode_len();
    let mut i: usize = 0;
    while i < n
        invariant
            i <= n,
            n == s@.len(),
            forall|j: int| 0 <= j < i ==> !is_space(#[trigger] s@[j]),
        decreases n - i,
    {
        if is_space_ch(s.get_char(i)) {
            return true;
        }
        i += 1;
    }
    false
}

/// Renders a command and its arguments for operator display: arguments with
/// whitespace are wrapped in single quotes, the rest joined bare with spaces.
pub fn format_command(args: &Vec<String>) -> (r: String)
    ensures
        r@ == spec_format_command(seq_views(args@)),
{
    let mut r = String::new();
    let n = args.len();
    let mut i: usize = 0;
    proof {
        reveal_strlit(" ");
        reveal_strlit("'");
        assert(seq_views(args@).take(0) =~= Seq::<Seq<char>>::empty());
        assert(r@ =~= spec_format_command(seq_views(args@).take(0)));
    }
    while i < n
        invariant
            i <= n,
            n == args@.len(),
            " "@ =~= seq![' '],
            "'"@ =~= seq!['\''],
            r@ == spec_format_command(seq_views(args@).take(i as int)),
        decreases n - i,
    {
        if i > 0 {
            r.append(" ");
        }
        let a = &args[i];
        if str_has_space(a.as_str()) {
            r.append("'");
            r.append(a.as_str());
            r.append("'");
        } else {
            r.append(a.as_str());
        }
        proof {
            let vs = seq_views(args@);
            assert(vs.take(i as int + 1).drop_last() =~= vs.take(i as int));
            assert(vs.take(i as int + 1).last() == a@);
            if i == 0 {
                assert(r@ =~= quoted_arg(a@));
                assert(spec_format_command(vs.take(1)) == quoted_arg(vs.take(1)[0]));
                assert(vs.take(1)[0] == a@);
            } else {
                assert(r@ =~= spec_format_command(vs.take(i as int)) + seq![' '] + quoted_arg(a@));
            }
        }
        i += 1;
    }
    proof {
        assert(seq_views(args@).take(n as int) =~= seq_views(args@));
    }
    r
}

/// Pushes one argument, by value view.
fn push_arg(v: &mut Vec<String>, s: &str)
    ensures
        seq_views(final(v)@) =~= seq_views(old(v)@).push(s@),
{
    let owned = s.to_owned();
    proof {
        assert(seq_views(v@.push(owned)) =~= seq_views(v@).push(owned@));
    }
    v.push(owned);
}

/// `{ "public_key": "<key>" }`, the JSON argument of the grant and revoke
/// calls.
pub open spec fn spec_json_public_key(key: Seq<char>) -> Seq<char> {
    "{ \"public_key\": \""@ + key + "\" }"@
}

fn json_public_key_arg(key: &str) -> (r: String)
    ensures
        r@ == spec_json_public_key(key@),
{
    let mut r = String::new();
    r.append("{ \"public_key\": \"");
    r.append(key);
    r.append("\" }");
    proof {
        assert(r@ =~= spec_json_public_key(key@));
    }
    r
}

/// `{ "account_id": "<account>" }`, the JSON argument of the storage calls.
pub open spec fn spec_json_account_id(account: Seq<char>) -> Seq<char> {
    "{ \"account_id\": \""@ + account + "\" }"@
}

fn json_account_id_arg(account: &str) -> (r: String)
    ensures
        r@ == spec_json_account_id(account@),
{
    let mut r = String::new();
    r.append("{ \"account_id\": \"");
    r.append(account);
    r.append("\" }");
    proof {
        assert(r@ =~= spec_json_account_id(account@));
    }
    r
}

/// `<n>yoctonear`, the attached-deposit argument.
pub open spec fn spec_yoctonear_arg(amount: nat) -> Seq<char> {
    decimal_str(amount) + "yoctonear"@
}

fn yoctonear_arg(amount: u128) -> (r: String)
    ensures
        r@ == spec_yoctonear_arg(amount as nat),
{
    let mut r = u128_to_decimal(amount);
    r.append("yoctonear");
    r
}

/// The transaction that calls `<method>` on `account` with `json_arg`,
/// attaching `deposit` yoctonear, signed by `signer` through the keychain.
pub open spec fn spec_call_function_args(
    account: Seq<char>,
    method: Seq<char>,
    json_arg: Seq<char>,
    deposit: nat,
    signer: Seq<char>,
) -> Seq<Seq<char>> {
    seq![
        "near"@,
        "contract"@,
        "call-function"@,
        "as-transaction"@,
        account,
        method,
        "json-args"@,
        json_arg,
        "prepaid-gas"@,
        "100.0Tgas"@,
        "attached-deposit"@,
        spec_yoctonear_arg(deposit),
        "sign-as"@,
        signer,
        "network-config"@,
        "mainnet"@,
        "sign-with-keychain"@,
        "send"@,
    ]
}

fn call_function_args(
    account: &str,
    method: &str,
    json_arg: String,
    deposit: u128,
    signer: &str,
) -> (r: Vec<String>)
    ensures
        seq_views(r@) == spec_call_function_args(
            account@,
            method@,
            json_arg@,
            deposit as nat,
            signer@,
        ),
{
    let mut v: Vec<String> = Vec::new();
    proof {
        assert(seq_views(v@) =~= Seq::<Seq<char>>::empty());
    }
    push_arg(&mut v, "near");
    push_arg(&mut v, "contract");
    push_arg(&mut v, "call-function");
    push_arg(&mut v, "as-transaction");
    push_arg(&mut v, account);
    push_arg(&mut v, method);
    push_arg(&mut v, "json-args");
    push_arg(&mut v, json_arg.as_str());
    push_arg(&mut v, "prepaid-gas");
    push_arg(&mut v, "100.0Tgas");
    push_arg(&mut v, "attached-deposit");
    let d = yoctonear_arg(deposit);
    push_arg(&mut v, d.as_str());
    push_arg(&mut v, "sign-as");
    push_arg(&mut v, signer);
    push_arg(&mut v, "network-config");
    push_arg(&mut v, "mainnet");
    push_arg(&mut v, "sign-with-keychain");
    push_arg(&mut v, "send");
    proof {
        assert(seq_views(v@) =~= spec_call_function_args(
            account@,
            method@,
            json_arg@,
            deposit as nat,
            signer@,
        ));
    }
    v
}

/// The grant transaction: adds `public_key` as a full access key on
/// `account`, optionally attaching one yoctonear.
pub open spec fn spec_add_full_access_key_args(
    account: Seq<char>,
    public_key: Seq<char>,
    signer: Seq<char>,
    attach_one_yoctonear: bool,
) -> Seq<Seq<char>> {
    spec_call_function_args(
        account,
        "add_full_access_key"@,
        spec_json_public_key(public_key),
        if attach_one_yoctonear {
            1
        } else {
            0
        },
        signer,
    )
}

pub fn add_full_access_key_args(
    account: &str,
    public_key: &str,
    signer: &str,
    attach_one_yoctonear: bool,
) -> (r: Vec<String>)
    ensures
        seq_views(r@) == spec_add_full_access_key_args(
            account@,
            public_key@,
            signer@,
            attach_one_yoctonear,
        ),
{
    let deposit: u128 = if attach_one_yoctonear {
        1
    } else {
        0
    };
    call_function_args(account, "add_full_access_key", json_public_key_arg(public_key), deposit, signer)
}

/// The revoke transaction: deletes `public_key` from `account`, optionally
/// attaching one yoctonear.
pub open spec fn spec_delete_key_args(
    account: Seq<char>,
    public_key: Seq<char>,
    signer: Seq<char>,
    attach_one_yoctonear: bool,
) -> Seq<Seq<char>> {
    spec_call_function_args(
        account,
        "delete_key"@,
        spec_json_public_key(public_key),
        if attach_one_yoctonear {
            1
        } else {
            0
        },
        signer,
    )
}

pub fn delete_key_args(
    account: &str,
    public_key: &str,
    signer: &str,
    attach_one_yoctonear: bool,
) -> (r: Vec<String>)
    ensures
        seq_views(r@) == spec_delete_key_args(account@, public_key@, signer@, attach_one_yoctonear),
{
    let deposit: u128 = if attach_one_yoctonear {
        1
    } else {
        0
    };
    call_function_args(account, "delete_key", json_public_key_arg(public_key), deposit, signer)
}

/// The deploy transaction: replaces `account`'s code with the bytes in
/// `wasm_file`, signed with the long-term seed phrase, with no init call.
pub open spec fn spec_deploy_contract_args(
    account: Seq<char>,
    wasm_file: Seq<char>,
    seed_phrase: Seq<char>,
) -> Seq<Seq<char>> {
    seq![
        "near"@,
        "contract"@,
        "deploy"@,
        account,
        "use-file"@,
        wasm_file,
        "without-init-call"@,
        "network-config"@,
        "mainnet"@,
        "sign-with-seed-phrase"@,
        seed_phrase,
        "--seed-phrase-hd-path"@,
        "m/44'/397'/0'"@,
        "send"@,
    ]
}

pub fn deploy_contract_args(account: &str, wasm_file: &str, seed_phrase: &str) -> (r: Vec<String>)
    ensures
        seq_views(r@) == spec_deploy_contract_args(account@, wasm_file@, seed_phrase@),
{
    let mut v: Vec<String> = Vec::new();
    proof {
        assert(seq_views(v@) =~= Seq::<Seq<char>>::empty());
    }
    push_arg(&mut v, "near");
    push_arg(&mut v, "contract");
    push_arg(&mut v, "deploy");
    push_arg(&mut v, account);
    push_arg(&mut v, "use-file");
    push_arg(&mut v, wasm_file);
    push_arg(&mut v, "without-init-call");
    push_arg(&mut v, "network-config");
    push_arg(&mut v, "mainnet");
    push_arg(&mut v, "sign-with-seed-phrase");
    push_arg(&mut v, seed_phrase);
    push_arg(&mut v, "--seed-phrase-hd-path");
    push_arg(&mut v, "m/44'/397'/0'");
    push_arg(&mut v, "send");
    proof {
        assert(seq_views(v@) =~= spec_deploy_contract_args(account@, wasm_file@, seed_phrase@));
    }
    v
}

/// The read-only download of `account`'s current code into `dest`.
pub open spec fn spec_download_wasm_args(account: Seq<char>, dest: Seq<char>) -> Seq<Seq<char>> {
    seq![
        "near"@,
        "contract"@,
        "download-wasm"@,
        account,
        "save-to-file"@,
        dest,
        "network-config"@,
        "mainnet"@,
        "now"@,
    ]
}

pub fn download_wasm_args(account: &str, dest: &str) -> (r: Vec<String>)
    ensures
        seq_views(r@) == spec_download_wasm_args(account@, dest@),
{
    let mut v: Vec<String> = Vec::new();
    proof {
        assert(seq_views(v@) =~= Seq::<Seq<char>>::empty());
    }
    push_arg(&mut v, "near");
    push_arg(&mut v, "contract");
    push_arg(&mut v, "download-wasm");
    push_arg(&mut v, account);
    push_arg(&mut v, "save-to-file");
    push_arg(&mut v, dest);
    push_arg(&mut v, "network-config");
    push_arg(&mut v, "mainnet");
    push_arg(&mut v, "now");
    proof {
        assert(seq_views(v@) =~= spec_download_wasm_args(account@, dest@));
    }
    v
}

/// The read-only account-state query whose output carries the balance.
pub open spec fn spec_account_state_args(account: Seq<char>) -> Seq<Seq<char>> {
    seq!["near"@, "state"@, account, "--networkId"@, "mainnet"@]
}

pub fn account_state_args(account: &str) -> (r: Vec<String>)
    ensures
        seq_views(r@) == spec_account_state_args(account@),
{
    let mut v: Vec<String> = Vec::new();
    proof {
        assert(seq_views(v@) =~= Seq::<Seq<char>>::empty());
    }
    push_arg(&mut v, "near");
    push_arg(&mut v, "state");
    push_arg(&mut v, account);
    push_arg(&mut v, "--networkId");
    push_arg(&mut v, "mainnet");
    proof {
        assert(seq_views(v@) =~= spec_account_state_args(account@));
    }
    v
}

/// The command that derives the public key from a seed phrase.
pub open spec fn spec_get_public_key_args(seed_phrase: Seq<char>) -> Seq<Seq<char>> {
    seq![
        "near"@,
        "--quiet"@,
        "account"@,
        "get-public-key"@,
        "from-seed-phrase"@,
        seed_phrase,
        "--seed-phrase-hd-path"@,
        "m/44'/397'/0'"@,
    ]
}

pub fn get_public_key_args(seed_phrase: &str) -> (r: Vec<String>)
    ensures
        seq_views(r@) == spec_get_public_key_args(seed_phrase@),
{
    let mut v: Vec<String> = Vec::new();
    proof {
        assert(seq_views(v@) =~= Seq::<Seq<char>>::empty());
    }
    push_arg(&mut v, "near");
    push_arg(&mut v, "--quiet");
    push_arg(&mut v, "account");
    push_arg(&mut v, "get-public-key");
    push_arg(&mut v, "from-seed-phrase");
    push_arg(&mut v, seed_phrase);
    push_arg(&mut v, "--seed-phrase-hd-path");
    push_arg(&mut v, "m/44'/397'/0'");
    proof {
        assert(seq_views(v@) =~= spec_get_public_key_args(seed_phrase@));
    }
    v
}

/// The read-only query of one token's storage-balance bounds.
pub open spec fn spec_storage_balance_bounds_args(account: Seq<char>) -> Seq<Seq<char>> {
    seq![
        "near"@,
        "contract"@,
        "call-function"@,
        "as-read-only"@,
        account,
        "storage_balance_bounds"@,
        "json-args"@,
        "{}"@,
        "network-config"@,
        "mainnet"@,
        "now"@,
    ]
}

pub fn storage_balance_bounds_args(account: &str) -> (r: Vec<String>)
    ensures
        seq_views(r@) == spec_storage_balance_bounds_args(account@),
{
    let mut v: Vec<String> = Vec::new();
    proof {
        assert(seq_views(v@) =~= Seq::<Seq<char>>::empty());
    }
    push_arg(&mut v, "near");
    push_arg(&mut v, "contract");
    push_arg(&mut v, "call-function");
    push_arg(&mut v, "as-read-only");
    push_arg(&mut v, account);
    push_arg(&mut v, "storage_balance_bounds");
    push_arg(&mut v, "json-args");
    push_arg(&mut v, "{}");
    push_arg(&mut v, "network-config");
    push_arg(&mut v, "mainnet");
    push_arg(&mut v, "now");
    proof {
        assert(seq_views(v@) =~= spec_storage_balance_bounds_args(account@));
    }
    v
}

/// The read-only query of `target`'s storage balance on one token.
pub open spec fn spec_storage_balance_of_args(account: Seq<char>, target: Seq<char>) -> Seq<
    Seq<char>,
> {
    seq![
        "near"@,
        "contract"@,
        "call-function"@,
        "as-read-only"@,
        account,
        "storage_balance_of"@,
        "json-args"@,
        spec_json_account_id(target),
        "network-config"@,
        "mainnet"@,
        "now"@,
    ]
}

pub fn storage_balance_of_args(account: &str, target: &str) -> (r: Vec<String>)
    ensures
        seq_views(r@) == spec_storage_balance_of_args(account@, target@),
{
    let mut v: Vec<String> = Vec::new();
    proof {
        assert(seq_views(v@) =~= Seq::<Seq<char>>::empty());
    }
    push_arg(&mut v, "near");
    push_arg(&mut v, "contract");
    push_arg(&mut v, "call-function");
    push_arg(&mut v, "as-read-only");
    push_arg(&mut v, account);
    push_arg(&mut v, "storage_balance_of");
    push_arg(&mut v, "json-args");
    let j = json_account_id_arg(target);
    push_arg(&mut v, j.as_str());
    push_arg(&mut v, "network-config");
    push_arg(&mut v, "mainnet");
    push_arg(&mut v, "now");
    proof {
        assert(seq_views(v@) =~= spec_storage_balance_of_args(account@, target@));
    }
    v
}

/// The storage-deposit transaction: funds `beneficiary` on one token with
/// `amount` yoctonear, signed by `signer`.
pub open spec fn spec_storage_deposit_args(
    account: Seq<char>,
    beneficiary: Seq<char>,
    amount: nat,
    signer: Seq<char>,
) -> Seq<Seq<char>> {
    spec_call_function_args(
        account,
        "storage_deposit"@,
        spec_json_account_id(beneficiary),
        amount,
        signer,
    )
}

pub fn storage_deposit_args(account: &str, beneficiary: &str, amount: u128, signer: &str) -> (r:
    Vec<String>)
    ensures
        seq_views(r@) == spec_storage_deposit_args(account@, beneficiary@, amount as nat, signer@),
{
    call_function_args(account, "storage_deposit", json_account_id_arg(beneficiary), amount, signer)
}

} // verus!
