use vstd::prelude::*;

use crate::errors::RunError;
use crate::subtoken::lemma_trim_idempotent;
use crate::textutil::{
    all_ascii, lines_of, seq_views, split_into_lines, starts_with, str_all_ascii, str_starts_with,
    first_match, lemma_first_match_at, lemma_first_match_none, trim, trimmed,
};
use std::str::FromStr;

verus! {

/// What `near_sdk::NearToken` parses a human-readable amount (such as
/// `100 NEAR` or `1 yoctoNEAR`) into, in yoctonear; the outcome is a function
/// of the string alone.
pub uninterp spec fn near_amount_of(s: Seq<char>) -> Option<u128>;

/// Relies on near_sdk::NearToken::from_str (and as_yoctonear) to parse a
/// token amount; `None` reports its parse error. The parser splits a trimmed
/// copy at an index found in the original string, so the argument must carry
/// no surrounding whitespace and be plain ASCII — otherwise the split can
/// fall outside the copy and panic.
#[verifier::external_body]
fn near_amount_from_str(s: &str) -> (r: Option<u128>)
    requires
        all_ascii(s@),
        s@ == trim(s@),
    ensures
        r == near_amount_of(s@),
{
    match near_sdk::NearToken::from_str(s) {
        Ok(t) => Some(t.as_yoctonear()),
        Err(_) => None,
    }
}

/// The line prefix under which the account-state command reports the
/// signer's balance.
pub open spec fn balance_line_prefix() -> Seq<char> {
    "Native account balance"@
}

/// The trimmed lines of the account-state output.
pub open spec fn trimmed_lines(s: Seq<char>) -> Seq<Seq<char>> {
    lines_of(s).map_values(|l: Seq<char>| trim(l))
}

/// The amount substring of a balance line: what follows the prefix, trimmed.
pub open spec fn balance_amount_str(t: Seq<char>) -> Seq<char> {
    trim(t.skip(balance_line_prefix().len() as int))
}

/// Reads the signer's balance out of the account-state command's output: the
/// first trimmed line starting with `Native account balance` holds the
/// amount, which — when it is plain ASCII — the token parser turns into
/// yoctonear. Everything else is a failed balance query.
pub fn parse_balance_output(output: &str) -> (r: Result<u128, RunError>)
    ensures
        r is Ok <==> ({
            let k = first_match(trimmed_lines(output@), balance_line_prefix());
            &&& k >= 0
            &&& all_ascii(balance_amount_str(trimmed_lines(output@)[k]))
            &&& near_amount_of(balance_amount_str(trimmed_lines(output@)[k])) is Some
        }),
        r matches Ok(v) ==> Some(v) == near_amount_of(
            balance_amount_str(
                trimmed_lines(output@)[first_match(trimmed_lines(output@), balance_line_prefix())],
            ),
        ),
        r matches Err(e) ==> e == RunError::BalanceQueryFailed,
{
    let lines = split_into_lines(output);
    let ghost tls = trimmed_lines(output@);
    let m = lines.len();
    let mut j: usize = 0;
    proof {
        assert(seq_views(lines@) =~= lines_of(output@));
        assert(tls.len() == lines@.len());
    }
    while j < m
        invariant
            j <= m,
            m == lines@.len(),
            seq_views(lines@) =~= lines_of(output@),
            tls == trimmed_lines(output@),
            tls.len() == m,
            forall|i: int| 0 <= i < j ==> !starts_with(#[trigger] tls[i], balance_line_prefix()),
        decreases m - j,
    {
        let t = trimmed(lines[j].as_str());
        proof {
            assert(lines@[j as int]@ == lines_of(output@)[j as int]);
            assert(tls[j as int] == trim(lines_of(output@)[j as int]));
        }
        if str_starts_with(t.as_str(), "Native account balance") {
            let plen = "Native account balance".unicode_len();
            let tlen = t.as_str().unicode_len();
            let rest = t.as_str().substring_char(plen, tlen);
            let amount = trimmed(rest);
            proof {
                lemma_first_match_at(tls, balance_line_prefix(), j as int);
                assert(rest@ =~= tls[j as int].skip(balance_line_prefix().len() as int));
                lemma_trim_idempotent(rest@);
                assert(amount@ == balance_amount_str(tls[j as int]));
            }
            if !str_all_ascii(amount.as_str()) {
                return Err(RunError::BalanceQueryFailed);
            }
            return match near_amount_from_str(amount.as_str()) {
                Some(v) => Ok(v),
                None => Err(RunError::BalanceQueryFailed),
            };
        }
        j += 1;
    }
    proof {
        lemma_first_match_none(tls, balance_line_prefix());
    }
    Err(RunError::BalanceQueryFailed)
}

} // verus!
