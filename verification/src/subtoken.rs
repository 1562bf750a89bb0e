use vstd::prelude::*;

use crate::errors::RunError;
use crate::textutil::{
    is_ascii_ch, is_space_ch, is_ascii_char, is_space, lines_of, seq_views, split_into_lines, trim,
    trim_back, trim_front, trimmed,
};

verus! {

/// A single whitespace-free ASCII token, as target-list lines must be.
pub open spec fn valid_token(t: Seq<char>) -> bool {
    t.len() > 0 && forall|i: int|
        0 <= i < t.len() ==> is_ascii_char(#[trigger] t[i]) && !is_space(t[i])
}

/// A factory account id: plain ASCII with no embedded whitespace.
pub open spec fn valid_factory(s: Seq<char>) -> bool {
    forall|i: int| 0 <= i < s.len() ==> is_ascii_char(#[trigger] s[i]) && !is_space(s[i])
}

pub fn token_ok(t: &str) -> (r: bool)
    ensures
        r == valid_token(t@),
{
    let n = t.unicode_len();
    if n == 0 {
        return false;
    }
    let mut i: usize = 0;
    while i < n
        invariant
            i <= n,
            n == t@.len(),
            n > 0,
            forall|j: int| 0 <= j < i ==> is_ascii_char(#[trigger] t@[j]) && !is_space(t@[j]),
        decreases n - i,
    {
        let c = t.get_char(i);
        if !is_ascii_ch(c) || is_space_ch(c) {
            return false;
        }
        i += 1;
    }
    true
}

pub fn factory_ok(s: &str) -> (r: bool)
    ensures
        r == valid_factory(s@),
{
    let n = s.unicode_len();
    let mut i: usize = 0;
    while i < n
        invariant
            i <= n,
            n == s@.len(),
            forall|j: int| 0 <= j < i ==> is_ascii_char(#[trigger] s@[j]) && !is_space(s@[j]),
        decreases n - i,
    {
        let c = s.get_char(i);
        if !is_ascii_ch(c) || is_space_ch(c) {
            return false;
        }
        i += 1;
    }
    true
}

/// One target contract: a short prefix under the shared factory account.
#[derive(Debug)]
pub struct Subtoken {
    pub token_prefix: String,
    pub poa_factory_account: String,
}

impl Subtoken {
    /// Structural invariant: the prefix is a non-empty whitespace-free ASCII
    /// token and the factory id is plain ASCII without whitespace.
    pub open spec fn wf(self) -> bool {
        valid_token(self.token_prefix@) && valid_factory(self.poa_factory_account@)
    }

    /// The fully-qualified address: `prefix + "." + factory`.
    pub open spec fn spec_account_id(self) -> Seq<char> {
        self.token_prefix@ + seq!['.'] + self.poa_factory_account@
    }

    pub fn account_id(&self) -> (r: String)
        ensures
            r@ == self.spec_account_id(),
    {
        let mut r = self.token_prefix.clone();
        r.append(".");
        r.append(self.poa_factory_account.as_str());
        proof {
            reveal_strlit(".");
            assert("."@ =~= seq!['.']);
        }
        r
    }

    /// Builds a target from one list line: the line is trimmed and must be a
    /// single whitespace-free ASCII token.
    pub fn from_line(poa_factory_account: &str, line: &str) -> (r: Result<Subtoken, RunError>)
        ensures
            r is Ok <==> valid_token(trim(line@)),
            r matches Ok(t) ==> t.token_prefix@ == trim(line@) && t.poa_factory_account@
                == poa_factory_account@,
            r matches Err(e) ==> e matches RunError::InvalidTargetSpec { line: l } && l@ == trim(
                line@,
            ),
    {
        let t = trimmed(line);
        if token_ok(t.as_str()) {
            Ok(
                Subtoken {
                    token_prefix: t,
                    poa_factory_account: poa_factory_account.to_owned(),
                },
            )
        } else {
            Err(RunError::InvalidTargetSpec { line: t })
        }
    }
}

/// The significant lines of a line sequence: each line trimmed, then empty
/// lines and `#` comment lines dropped, input order kept.
pub open spec fn sig_of(ls: Seq<Seq<char>>) -> Seq<Seq<char>>
    decreases ls.len(),
{
    if ls.len() == 0 {
        Seq::empty()
    } else {
        let t = trim(ls.last());
        sig_of(ls.drop_last()) + if t.len() > 0 && t[0] != '#' {
            seq![t]
        } else {
            Seq::<Seq<char>>::empty()
        }
    }
}

/// The significant lines of a whole list source.
pub open spec fn sig_lines(s: Seq<char>) -> Seq<Seq<char>> {
    sig_of(lines_of(s))
}

/// Index of the first significant line that is not a valid token, or -1.
pub open spec fn first_bad(ts: Seq<Seq<char>>) -> int
    decreases ts.len(),
{
    if ts.len() == 0 {
        -1
    } else if !valid_token(ts[0]) {
        0
    } else {
        let r = first_bad(ts.drop_first());
        if r < 0 {
            -1
        } else {
            r + 1
        }
    }
}

pub open spec fn prefixes_of(v: Seq<Subtoken>) -> Seq<Seq<char>> {
    v.map_values(|t: Subtoken| t.token_prefix@)
}

proof fn lemma_first_bad_at(ts: Seq<Seq<char>>, k: int)
    requires
        0 <= k < ts.len(),
        !valid_token(ts[k]),
        forall|i: int| 0 <= i < k ==> valid_token(ts[i]),
    ensures
        first_bad(ts) == k,
    decreases k,
{
    if k == 0 {
    } else {
        let t = ts.drop_first();
        assert(forall|i: int| 0 <= i < k - 1 ==> valid_token(#[trigger] t[i])) by {
            assert(forall|i: int| 0 <= i < k - 1 ==> t[i] == ts[i + 1]);
        }
        assert(t[k - 1] == ts[k]);
        lemma_first_bad_at(t, k - 1);
    }
}

proof fn lemma_first_bad_none(ts: Seq<Seq<char>>)
    requires
        forall|i: int| 0 <= i < ts.len() ==> valid_token(#[trigger] ts[i]),
    ensures
        first_bad(ts) == -1,
    decreases ts.len(),
{
    if ts.len() > 0 {
        lemma_first_bad_none(ts.drop_first());
    }
}

proof fn lemma_trim_back_prefix(s: Seq<char>)
    ensures
        trim_back(s).len() <= s.len(),
        trim_back(s).len() > 0 ==> trim_back(s)[0] == s[0] && !is_space(trim_back(s).last()),
    decreases s.len(),
{
    if s.len() > 0 && is_space(s.last()) {
        lemma_trim_back_prefix(s.drop_last());
    }
}

proof fn lemma_trim_front_head(s: Seq<char>)
    ensures
        trim_front(s).len() > 0 ==> !is_space(trim_front(s)[0]),
    decreases s.len(),
{
    if s.len() > 0 && is_space(s[0]) {
        lemma_trim_front_head(s.drop_first());
    }
}

/// Trimming is idempotent.
pub proof fn lemma_trim_idempotent(s: Seq<char>)
    ensures
        trim(trim(s)) == trim(s),
{
    let tf = trim_front(s);
    let t = trim_back(tf);
    lemma_trim_front_head(s);
    lemma_trim_back_prefix(tf);
    if t.len() == 0 {
        assert(trim_front(t) =~= t);
        assert(trim_back(t) =~= t);
    } else {
        assert(tf.len() > 0);
        assert(t[0] == tf[0] && !is_space(tf[0]));
        assert(trim_front(t) == t);
        assert(!is_space(t.last()));
        assert(trim_back(t) == t);
    }
}

/// The ordered list of all targets of one run.
#[derive(Debug)]
pub struct SubtokenList {
    pub tokens_list: Vec<Subtoken>,
}

impl SubtokenList {
    pub open spec fn wf(self) -> bool {
        forall|i: int| 0 <= i < self.tokens_list@.len() ==> (#[trigger] self.tokens_list@[i]).wf()
    }

    /// Parses an operator-supplied target list: one whitespace-free ASCII
    /// token per line; lines are trimmed, blank lines and `#` comments are
    /// ignored; output order equals input order. The first offending line, if
    /// any, is named in the error.
    pub fn parse(poa_factory_account: &str, source: &str) -> (r: Result<SubtokenList, RunError>)
        ensures
            r is Ok <==> (forall|i: int|
                0 <= i < sig_lines(source@).len() ==> valid_token(#[trigger] sig_lines(source@)[i])),
            r matches Ok(l) ==> prefixes_of(l.tokens_list@) == sig_lines(source@) && (forall|i: int|
                0 <= i < l.tokens_list@.len() ==> (#[trigger] l.tokens_list@[i]).poa_factory_account@
                    == poa_factory_account@),
            r matches Ok(l) ==> (valid_factory(poa_factory_account@) ==> l.wf()),
            r matches Err(e) ==> e matches RunError::InvalidTargetSpec { line } && first_bad(
                sig_lines(source@),
            ) >= 0 && line@ == sig_lines(source@)[first_bad(sig_lines(source@))],
    {
        let lines = split_into_lines(source);
        let ghost ls = seq_views(lines@);
        let m = lines.len();
        let mut tokens: Vec<Subtoken> = Vec::new();
        let mut j: usize = 0;
        proof {
            assert(ls.take(0) =~= Seq::<Seq<char>>::empty());
            assert(prefixes_of(tokens@) =~= sig_of(ls.take(0)));
        }
        while j < m
            invariant
                j <= m,
                m == lines@.len(),
                ls == seq_views(lines@),
                sig_lines(source@) == sig_of(ls),
                prefixes_of(tokens@) == sig_of(ls.take(j as int)),
                forall|i: int| 0 <= i < tokens@.len() ==> valid_token(
                    (#[trigger] tokens@[i]).token_prefix@,
                ),
                forall|i: int| 0 <= i < tokens@.len() ==> (#[trigger] tokens@[i]).poa_factory_account@
                    == poa_factory_account@,
            decreases m - j,
        {
            let t = trimmed(lines[j].as_str());
            let ghost tv = trim(ls[j as int]);
            proof {
                assert(lines@[j as int]@ == ls[j as int]);
                assert(ls.take(j as int + 1).drop_last() =~= ls.take(j as int));
                assert(ls.take(j as int + 1).last() == ls[j as int]);
                assert(sig_of(ls.take(j as int + 1)) == sig_of(ls.take(j as int)) + if tv.len() > 0
                    && tv[0] != '#' {
                    seq![tv]
                } else {
                    Seq::<Seq<char>>::empty()
                });
            }
            let keep = t.as_str().unicode_len() > 0 && t.as_str().get_char(0) != '#';
            if keep {
                match Subtoken::from_line(poa_factory_account, t.as_str()) {
                    Ok(tok) => {
                        proof {
                            lemma_trim_idempotent(ls[j as int]);
                            assert(tok.token_prefix@ == tv);
                            assert(prefixes_of(tokens@.push(tok)) =~= prefixes_of(tokens@).push(
                                tok.token_prefix@,
                            ));
                            assert(sig_of(ls.take(j as int)) + seq![tv] =~= sig_of(
                                ls.take(j as int),
                            ).push(tv));
                        }
                        tokens.push(tok);
                    },
                    Err(e) => {
                        proof {
                            lemma_trim_idempotent(ls[j as int]);
                            // The offending line is the first invalid significant one.
                            let pre = sig_of(ls.take(j as int));
                            let k = pre.len() as int;
                            assert(ls.take(ls.len() as int) =~= ls);
                            lemma_sig_take_extend(ls, j as int);
                            let full = sig_of(ls);
                            assert(full.take(k + 1) =~= pre + seq![tv]);
                            assert(full[k] == tv) by {
                                assert(full.take(k + 1)[k] == full[k]);
                                assert((pre + seq![tv])[k] == tv);
                            }
                            assert forall|i: int| 0 <= i < k implies valid_token(
                                #[trigger] full[i],
                            ) by {
                                assert(full.take(k + 1)[i] == full[i]);
                                assert((pre + seq![tv])[i] == pre[i]);
                                assert(pre[i] == tokens@[i].token_prefix@);
                            }
                            lemma_first_bad_at(full, k);
                        }
                        return Err(e);
                    },
                }
            } else {
                proof {
                    assert(sig_of(ls.take(j as int)) + Seq::<Seq<char>>::empty() =~= sig_of(
                        ls.take(j as int),
                    ));
                }
            }
            j += 1;
        }
        proof {
            assert(ls.take(m as int) =~= ls);
            lemma_first_bad_none(sig_of(ls));
            assert(forall|i: int| 0 <= i < sig_of(ls).len() ==> valid_token(
                #[trigger] sig_of(ls)[i],
            )) by {
                assert(forall|i: int| 0 <= i < sig_of(ls).len() ==> sig_of(ls)[i] == prefixes_of(
                    tokens@,
                )[i]);
            }
        }
        Ok(SubtokenList { tokens_list: tokens })
    }
}

/// `sig_of` of a prefix extended by one more line: the significant lines of
/// the whole sequence begin with those of the prefix.
pub proof fn lemma_sig_take_extend(ls: Seq<Seq<char>>, j: int)
    requires
        0 <= j < ls.len(),
    ensures
        sig_of(ls).len() >= sig_of(ls.take(j + 1)).len(),
        sig_of(ls).take(sig_of(ls.take(j + 1)).len() as int) == sig_of(ls.take(j + 1)),
    decreases ls.len() - j,
{
    if j + 1 == ls.len() {
        assert(ls.take(j + 1) =~= ls);
        assert(sig_of(ls).take(sig_of(ls).len() as int) =~= sig_of(ls));
    } else {
        lemma_sig_take_extend(ls, j + 1);
        let a = sig_of(ls.take(j + 1));
        let b = sig_of(ls.take(j + 2));
        assert(ls.take(j + 2).drop_last() =~= ls.take(j + 1));
        assert(ls.take(j + 2).last() == ls[j + 1]);
        let t = trim(ls[j + 1]);
        assert(b == a + if t.len() > 0 && t[0] != '#' {
            seq![t]
        } else {
            Seq::<Seq<char>>::empty()
        });
        assert(b.take(a.len() as int) =~= a);
        assert(sig_of(ls).take(a.len() as int) =~= sig_of(ls).take(b.len() as int).take(
            a.len() as int,
        ));
    }
}

} // verus!
