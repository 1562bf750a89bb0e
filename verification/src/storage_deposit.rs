use vstd::prelude::*;

use crate::errors::RunError;
use crate::subtoken::{sig_lines, sig_of};
use crate::textutil::{seq_views, split_into_lines, trim, trimmed};

verus! {

/// One token of the storage-deposit list: its declared type tag and its
/// account.
#[derive(Clone, Debug)]
pub struct TokenInformation {
    pub token_type: String,
    pub token_account: String,
}

/// How often `ch` occurs in `s`.
pub open spec fn count_ch(s: Seq<char>, ch: char) -> nat
    decreases s.len(),
{
    if s.len() == 0 {
        0
    } else {
        count_ch(s.drop_last(), ch) + if s.last() == ch {
            1nat
        } else {
            0nat
        }
    }
}

proof fn lemma_count_ch_concat(a: Seq<char>, b: Seq<char>, ch: char)
    ensures
        count_ch(a + b, ch) == count_ch(a, ch) + count_ch(b, ch),
    decreases b.len(),
{
    if b.len() == 0 {
        assert(a + b =~= a);
    } else {
        assert((a + b).drop_last() =~= a + b.drop_last());
        assert((a + b).last() == b.last());
        lemma_count_ch_concat(a, b.drop_last(), ch);
    }
}

proof fn lemma_count_ch_zero(s: Seq<char>, ch: char)
    requires
        forall|i: int| 0 <= i < s.len() ==> s[i] != ch,
    ensures
        count_ch(s, ch) == 0,
    decreases s.len(),
{
    if s.len() > 0 {
        lemma_count_ch_zero(s.drop_last(), ch);
    }
}

proof fn lemma_count_ch_two(s: Seq<char>, ch: char, p: int, q: int)
    requires
        0 <= p < q < s.len(),
        s[p] == ch,
        s[q] == ch,
    ensures
        count_ch(s, ch) >= 2,
    decreases s.len(),
{
    if q == s.len() - 1 {
        lemma_count_ch_one_at(s.drop_last(), ch, p);
    } else {
        lemma_count_ch_two(s.drop_last(), ch, p, q);
    }
}

proof fn lemma_count_ch_one_at(s: Seq<char>, ch: char, p: int)
    requires
        0 <= p < s.len(),
        s[p] == ch,
    ensures
        count_ch(s, ch) >= 1,
    decreases s.len(),
{
    if p < s.len() - 1 {
        lemma_count_ch_one_at(s.drop_last(), ch, p);
    }
}

impl TokenInformation {
    /// Parses one list line `<token type>:<token account>`: there must be
    /// exactly one `:`, and the two parts land in the two fields.
    pub fn from_line(line: &str) -> (r: Result<TokenInformation, RunError>)
        ensures
            r is Ok <==> count_ch(line@, ':') == 1,
            r matches Ok(t) ==> line@ == t.token_type@ + seq![':'] + t.token_account@ && count_ch(
                t.token_type@,
                ':',
            ) == 0 && count_ch(t.token_account@, ':') == 0,
            r matches Err(e) ==> e matches RunError::InvalidTokenLine { line: l } && l@ == line@,
    {
        let n = line.unicode_len();
        let mut f: usize = 0;
        while f < n && line.get_char(f) != ':'
            invariant
                f <= n,
                n == line@.len(),
                forall|j: int| 0 <= j < f ==> line@[j] != ':',
            decreases n - f,
        {
            f += 1;
        }
        if f == n {
            proof {
                lemma_count_ch_zero(line@, ':');
            }
            return Err(RunError::InvalidTokenLine { line: line.to_owned() });
        }
        // `f` is the first colon; look for a second one.
        let mut g: usize = f + 1;
        while g < n
            invariant
                f < g <= n,
                n == line@.len(),
                line@[f as int] == ':',
                forall|j: int| f < j < g ==> line@[j] != ':',
            decreases n - g,
        {
            if line.get_char(g) == ':' {
                proof {
                    lemma_count_ch_two(line@, ':', f as int, g as int);
                }
                return Err(RunError::InvalidTokenLine { line: line.to_owned() });
            }
            g += 1;
        }
        let ty = line.substring_char(0, f).to_owned();
        let acct = line.substring_char(f + 1, n).to_owned();
        proof {
            assert(ty@ =~= line@.take(f as int));
            assert(acct@ =~= line@.skip(f as int + 1));
            assert(line@ =~= ty@ + seq![':'] + acct@);
            lemma_count_ch_zero(ty@, ':');
            assert(forall|j: int| 0 <= j < acct@.len() ==> acct@[j] != ':') by {
                assert(forall|j: int| 0 <= j < acct@.len() ==> acct@[j] == line@[j + f + 1]);
            }
            lemma_count_ch_zero(acct@, ':');
            lemma_count_ch_concat(ty@ + seq![':'], acct@, ':');
            lemma_count_ch_concat(ty@, seq![':'], ':');
            assert(seq![':'].drop_last() =~= Seq::<char>::empty());
            assert(count_ch(Seq::<char>::empty(), ':') == 0);
            assert(count_ch(seq![':'], ':') == 1);
        }
        Ok(TokenInformation { token_type: ty, token_account: acct })
    }

    /// Index of the first significant line that is not `<type>:<account>`.
    pub open spec fn first_bad_line(ts: Seq<Seq<char>>) -> int
        decreases ts.len(),
    {
        if ts.len() == 0 {
            -1
        } else if count_ch(ts[0], ':') != 1 {
            0
        } else {
            let r = Self::first_bad_line(ts.drop_first());
            if r < 0 {
                -1
            } else {
                r + 1
            }
        }
    }

    /// Parses the whole token list: lines are trimmed, blank lines and `#`
    /// comments dropped, and each remaining line must hold exactly one `:`.
    pub fn parse_list(source: &str) -> (r: Result<Vec<TokenInformation>, RunError>)
        ensures
            r is Ok <==> (forall|i: int|
                0 <= i < sig_lines(source@).len() ==> count_ch(
                    #[trigger] sig_lines(source@)[i],
                    ':',
                ) == 1),
            r matches Ok(v) ==> v@.len() == sig_lines(source@).len() && (forall|i: int|
                0 <= i < v@.len() ==> sig_lines(source@)[i] == (#[trigger] v@[i]).token_type@
                    + seq![':'] + v@[i].token_account@),
            r matches Err(e) ==> e matches RunError::InvalidTokenLine { line } && line@ == sig_lines(
                source@,
            )[Self::first_bad_line(sig_lines(source@))] && Self::first_bad_line(
                sig_lines(source@),
            ) >= 0,
    {
        let lines = split_into_lines(source);
        let ghost ls = seq_views(lines@);
        let m = lines.len();
        let mut out: Vec<TokenInformation> = Vec::new();
        let ghost sig = sig_lines(source@);
        let mut j: usize = 0;
        let ghost mut done: Seq<Seq<char>> = sig_of(ls.take(0));
        proof {
            assert(ls.take(0) =~= Seq::<Seq<char>>::empty());
            assert(done =~= Seq::<Seq<char>>::empty());
        }
        while j < m
            invariant
                j <= m,
                m == lines@.len(),
                ls == seq_views(lines@),
                sig == sig_lines(source@),
                sig == sig_of(ls),
                done == sig_of(ls.take(j as int)),
                out@.len() == done.len(),
                forall|i: int| 0 <= i < out@.len() ==> done[i] == (#[trigger] out@[i]).token_type@
                    + seq![':'] + out@[i].token_account@,
                forall|i: int| 0 <= i < out@.len() ==> count_ch(#[trigger] done[i], ':') == 1,
            decreases m - j,
        {
            let t = trimmed(lines[j].as_str());
            let ghost tv = t@;
            proof {
                assert(lines@[j as int]@ == ls[j as int]);
                assert(ls.take(j as int + 1).drop_last() =~= ls.take(j as int));
                assert(ls.take(j as int + 1).last() == ls[j as int]);
            }
            let keep = t.as_str().unicode_len() > 0 && t.as_str().get_char(0) != '#';
            if keep {
                match Self::from_line(t.as_str()) {
                    Ok(tok) => {
                        proof {
                            done = done.push(tv);
                            assert(sig_of(ls.take(j as int + 1)) =~= done);
                        }
                        out.push(tok);
                    },
                    Err(e) => {
                        proof {
                            let k = done.len() as int;
                            assert(trim(ls[j as int]) == tv);
                            assert(sig_of(ls.take(j as int + 1)) == done + seq![tv]);
                            assert(sig_of(ls.take(j as int + 1)) =~= done.push(tv));
                            crate::subtoken::lemma_sig_take_extend(ls, j as int);
                            assert(sig.len() >= k + 1);
                            assert(sig.take(k + 1) == sig_of(ls.take(j as int + 1)));
                            assert(sig.take(k + 1) =~= done.push(tv));
                            assert(sig[k] == sig.take(k + 1)[k]);
                            assert(done.push(tv)[k] == tv);
                            assert(sig[k] == tv);
                            assert(count_ch(sig[k], ':') != 1);
                            assert forall|i: int| 0 <= i < k implies count_ch(
                                #[trigger] sig[i],
                                ':',
                            ) == 1 by {
                                assert(sig.take(k + 1)[i] == sig[i]);
                                assert(done.push(tv)[i] == done[i]);
                            }
                            lemma_first_bad_line_at(sig, k);
                            assert(TokenInformation::first_bad_line(sig) == k);
                            assert(0 <= k < sig_lines(source@).len() && count_ch(
                                sig_lines(source@)[k],
                                ':',
                            ) != 1);
                            assert(Self::first_bad_line(sig_lines(source@)) == k);
                            assert(sig_lines(source@)[Self::first_bad_line(sig_lines(source@))]
                                == tv);
                        }
                        return Err(e);
                    },
                }
            } else {
                proof {
                    assert(sig_of(ls.take(j as int + 1)) =~= done);
                }
            }
            j += 1;
        }
        proof {
            assert(ls.take(m as int) =~= ls);
            assert(done == sig);
            lemma_first_bad_line_none(sig);
        }
        Ok(out)
    }
}

proof fn lemma_first_bad_line_at(ts: Seq<Seq<char>>, k: int)
    requires
        0 <= k < ts.len(),
        count_ch(ts[k], ':') != 1,
        forall|i: int| 0 <= i < k ==> count_ch(#[trigger] ts[i], ':') == 1,
    ensures
        TokenInformation::first_bad_line(ts) == k,
    decreases k,
{
    if k == 0 {
    } else {
        let t = ts.drop_first();
        assert(forall|i: int| 0 <= i < k - 1 ==> count_ch(#[trigger] t[i], ':') == 1) by {
            assert(forall|i: int| 0 <= i < k - 1 ==> t[i] == ts[i + 1]);
        }
        assert(t[k - 1] == ts[k]);
        lemma_first_bad_line_at(t, k - 1);
    }
}

proof fn lemma_first_bad_line_none(ts: Seq<Seq<char>>)
    requires
        forall|i: int| 0 <= i < ts.len() ==> count_ch(#[trigger] ts[i], ':') == 1,
    ensures
        TokenInformation::first_bad_line(ts) == -1,
    decreases ts.len(),
{
    if ts.len() > 0 {
        lemma_first_bad_line_none(ts.drop_first());
    }
}

/// The storage-balance bounds one token contract reports.
#[derive(Clone, Copy, Debug)]
pub struct StorageBalanceBounds {
    pub min: u128,
    pub max: u128,
}

impl StorageBalanceBounds {
    /// The deposit this tool prefers to pay: the reported minimum bound.
    pub fn get_preferred_value(&self) -> (r: u128)
        ensures
            r == self.min,
    {
        self.min
    }
}

/// The storage balance one token contract reports for an account: JSON
/// `null` for none, or the available/total pair.
#[derive(Clone, Copy, Debug)]
pub enum StorageBalance {
    Null,
    Value { available: u128, total: u128 },
}

impl StorageBalance {
    pub open spec fn spec_balance(self) -> u128 {
        match self {
            StorageBalance::Null => 0,
            StorageBalance::Value { available: _, total } => total,
        }
    }

    /// The account's current total storage balance; none counts as zero.
    pub fn get_balance(&self) -> (r: u128)
        ensures
            r == self.spec_balance(),
    {
        match self {
            StorageBalance::Null => 0,
            StorageBalance::Value { available: _, total } => *total,
        }
    }
}

/// What still has to be deposited: the preferred value minus what is already
/// there, floored at zero.
pub open spec fn spec_shortfall(bounds: StorageBalanceBounds, balance: StorageBalance) -> u128 {
    if bounds.min > balance.spec_balance() {
        (bounds.min - balance.spec_balance()) as u128
    } else {
        0
    }
}

/// The tokens that still need a deposit, in input order, each with its
/// missing amount.
pub open spec fn spec_filter_deposits(
    ts: Seq<(TokenInformation, StorageBalanceBounds, StorageBalance)>,
) -> Seq<(TokenInformation, u128)>
    decreases ts.len(),
{
    if ts.len() == 0 {
        Seq::empty()
    } else {
        let head = ts[0];
        let rest = spec_filter_deposits(ts.drop_first());
        if spec_shortfall(head.1, head.2) > 0 {
            seq![(head.0, spec_shortfall(head.1, head.2))] + rest
        } else {
            rest
        }
    }
}

/// Drops every token whose storage balance already covers the preferred
/// deposit; the rest keep their missing amount, in input order.
pub fn filter_tokens_with_already_sufficient_storage(
    tokens: Vec<(TokenInformation, StorageBalanceBounds, StorageBalance)>,
) -> (r: Vec<(TokenInformation, u128)>)
    ensures
        r@ == spec_filter_deposits(tokens@),
{
    let mut tokens = tokens;
    let ghost orig = tokens@;
    let mut out: Vec<(TokenInformation, u128)> = Vec::new();
    proof {
        assert(out@ + spec_filter_deposits(tokens@) =~= spec_filter_deposits(tokens@));
    }
    while tokens.len() > 0
        invariant
            out@ + spec_filter_deposits(tokens@) == spec_filter_deposits(orig),
        decreases tokens.len(),
    {
        let ghost pre = tokens@;
        let (tok, bounds, bal) = tokens.remove(0);
        proof {
            assert(tokens@ =~= pre.drop_first());
            assert(pre[0].1 == bounds && pre[0].2 == bal && pre[0].0 == tok);
        }
        let have = bal.get_balance();
        let need = bounds.get_preferred_value();
        if need > have {
            let missing = need - have;
            proof {
                assert((out@ + seq![(tok, missing)]) + spec_filter_deposits(tokens@) =~= out@ + (
                seq![(tok, missing)] + spec_filter_deposits(tokens@)));
                assert(out@.push((tok, missing)) =~= out@ + seq![(tok, missing)]);
            }
            out.push((tok, missing));
        } else {
            proof {
                assert(spec_filter_deposits(pre) == spec_filter_deposits(tokens@));
            }
        }
    }
    proof {
        assert(spec_filter_deposits(tokens@) =~= Seq::<(TokenInformation, u128)>::empty());
        assert(out@ + spec_filter_deposits(tokens@) =~= out@);
    }
    out
}

/// The sum of all missing deposits, as an unbounded integer.
pub open spec fn spec_total_deposits(ds: Seq<(TokenInformation, u128)>) -> int
    decreases ds.len(),
{
    if ds.len() == 0 {
        0
    } else {
        spec_total_deposits(ds.drop_last()) + ds.last().1
    }
}

/// Adds up every missing deposit; `None` reports that the sum does not fit
/// in the balance type.
pub fn total_to_deposit(ds: &Vec<(TokenInformation, u128)>) -> (r: Option<u128>)
    ensures
        r is Some <==> spec_total_deposits(ds@) <= u128::MAX,
        r matches Some(v) ==> v == spec_total_deposits(ds@),
{
    let mut acc: u128 = 0;
    let n = ds.len();
    let mut i: usize = 0;
    proof {
        assert(ds@.take(0) =~= Seq::<(TokenInformation, u128)>::empty());
    }
    while i < n
        invariant
            i <= n,
            n == ds@.len(),
            acc == spec_total_deposits(ds@.take(i as int)),
            spec_total_deposits(ds@.take(i as int)) <= u128::MAX,
        decreases n - i,
    {
        proof {
            assert(ds@.take(i as int + 1).drop_last() =~= ds@.take(i as int));
            assert(ds@.take(i as int + 1).last() == ds@[i as int]);
            lemma_total_mono(ds@, i as int + 1);
        }
        match acc.checked_add(ds[i].1) {
            Some(v) => {
                acc = v;
            },
            None => {
                return None;
            },
        }
        i += 1;
    }
    proof {
        assert(ds@.take(n as int) =~= ds@);
    }
    Some(acc)
}

/// Partial sums never shrink, so an overflowing prefix sum means the total
/// overflows too.
proof fn lemma_total_mono(ds: Seq<(TokenInformation, u128)>, k: int)
    requires
        0 <= k <= ds.len(),
    ensures
        spec_total_deposits(ds.take(k)) <= spec_total_deposits(ds),
    decreases ds.len() - k,
{
    if k == ds.len() {
        assert(ds.take(k) =~= ds);
    } else {
        lemma_total_mono(ds, k + 1);
        assert(ds.take(k + 1).drop_last() =~= ds.take(k));
        assert(spec_total_deposits(ds.take(k + 1)) == spec_total_deposits(ds.take(k)) + ds[k].1);
    }
}

} // verus!
