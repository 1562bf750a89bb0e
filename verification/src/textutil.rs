use vstd::prelude::*;

verus! {

/// The whitespace characters this tool recognises: the ASCII part of Rust's
/// `char::is_whitespace`. All meaningful input here is ASCII by contract.
pub open spec fn is_space(c: char) -> bool {
    c == ' ' || c == '\t' || c == '\r' || c == '\n' || c == '\x0b' || c == '\x0c'
}

pub open spec fn is_ascii_char(c: char) -> bool {
    (c as u32) < 128
}

pub fn is_space_ch(c: char) -> (r: bool)
    ensures
        r == is_space(c),
{
    c == ' ' || c == '\t' || c == '\r' || c == '\n' || c == '\x0b' || c == '\x0c'
}

pub fn is_ascii_ch(c: char) -> (r: bool)
    ensures
        r == is_ascii_char(c),
{
    (c as u32) < 128
}

pub open spec fn all_ascii(s: Seq<char>) -> bool {
    forall|i: int| 0 <= i < s.len() ==> is_ascii_char(#[trigger] s[i])
}

pub fn str_all_ascii(s: &str) -> (r: bool)
    ensures
        r == all_ascii(s@),
{
    let n = s.unicode_len();
    let mut i: usize = 0;
    while i < n
        invariant
            i <= n,
            n == s@.len(),
            forall|j: int| 0 <= j < i ==> is_ascii_char(#[trigger] s@[j]),
        decreases n - i,
    {
        if !is_ascii_ch(s.get_char(i)) {
            return false;
        }
        i += 1;
    }
    true
}

/// What is left of `s` after removing leading whitespace.
pub open spec fn trim_front(s: Seq<char>) -> Seq<char>
    decreases s.len(),
{
    if s.len() > 0 && is_space(s[0]) {
        trim_front(s.drop_first())
    } else {
        s
    }
}

/// What is left of `s` after removing trailing whitespace.
pub open spec fn trim_back(s: Seq<char>) -> Seq<char>
    decreases s.len(),
{
    if s.len() > 0 && is_space(s.last()) {
        trim_back(s.drop_last())
    } else {
        s
    }
}

/// `s` with whitespace removed from both ends.
pub open spec fn trim(s: Seq<char>) -> Seq<char> {
    trim_back(trim_front(s))
}

proof fn lemma_trim_front_skip(s: Seq<char>, k: int)
    requires
        0 <= k <= s.len(),
        forall|i: int| 0 <= i < k ==> is_space(s[i]),
        k == s.len() || !is_space(s[k]),
    ensures
        trim_front(s) =~= s.skip(k),
    decreases k,
{
    if k == 0 {
        assert(trim_front(s) =~= s.skip(0));
    } else {
        assert(is_space(s[0]));
        let t = s.drop_first();
        assert(t =~= s.skip(1));
        assert(forall|i: int| 0 <= i < k - 1 ==> is_space(#[trigger] t[i])) by {
            assert(forall|i: int| 0 <= i < k - 1 ==> t[i] == s[i + 1]);
        }
        assert(k - 1 == t.len() || !is_space(t[k - 1]));
        lemma_trim_front_skip(t, k - 1);
        assert(t.skip(k - 1) =~= s.skip(k));
    }
}

proof fn lemma_trim_back_take(s: Seq<char>, m: int)
    requires
        0 <= m <= s.len(),
        forall|i: int| m <= i < s.len() ==> is_space(s[i]),
        m == 0 || !is_space(s[m - 1]),
    ensures
        trim_back(s) =~= s.take(m),
    decreases s.len() - m,
{
    if m == s.len() {
        assert(trim_back(s) =~= s.take(m)) by {
            assert(s.take(m) =~= s);
        }
    } else {
        assert(is_space(s.last()));
        let t = s.drop_last();
        lemma_trim_back_take(t, m);
        assert(t.take(m) =~= s.take(m));
    }
}

/// Index just past the leading whitespace of `s`.
fn scan_leading(s: &str) -> (a: usize)
    ensures
        a <= s@.len(),
        forall|i: int| 0 <= i < a ==> is_space(s@[i]),
        a < s@.len() ==> !is_space(s@[a as int]),
{
    let n = s.unicode_len();
    let mut a: usize = 0;
    while a < n
        invariant
            a <= n,
            n == s@.len(),
            forall|i: int| 0 <= i < a ==> is_space(s@[i]),
        decreases n - a,
    {
        if !is_space_ch(s.get_char(a)) {
            return a;
        }
        a += 1;
    }
    a
}

/// Index just before the trailing whitespace of `s`, not less than `a`.
fn scan_trailing(s: &str, a: usize) -> (b: usize)
    requires
        a <= s@.len(),
    ensures
        a <= b <= s@.len(),
        forall|i: int| b <= i < s@.len() ==> is_space(s@[i]),
        b > a ==> !is_space(s@[b - 1]),
{
    let n = s.unicode_len();
    let mut b: usize = n;
    while b > a
        invariant
            a <= b <= n,
            n == s@.len(),
            forall|i: int| b <= i < n ==> is_space(s@[i]),
        decreases b,
    {
        if !is_space_ch(s.get_char(b - 1)) {
            return b;
        }
        b -= 1;
    }
    b
}

/// A copy of `s` with whitespace removed from both ends.
pub fn trimmed(s: &str) -> (r: String)
    ensures
        r@ == trim(s@),
{
    let a = scan_leading(s);
    let b = scan_trailing(s, a);
    if a >= b {
        // Only whitespace: every index is either below `a` or at/above `b`.
        proof {
            lemma_trim_front_skip(s@, s@.len() as int);
            assert(trim_front(s@) =~= Seq::<char>::empty());
            assert(trim(s@) =~= Seq::<char>::empty());
        }
        String::new()
    } else {
        proof {
            lemma_trim_front_skip(s@, a as int);
            let t = s@.skip(a as int);
            assert(forall|i: int| b - a <= i < t.len() ==> is_space(#[trigger] t[i])) by {
                assert(forall|i: int| 0 <= i < t.len() ==> t[i] == s@[i + a]);
            }
            assert(!is_space(t[b - a - 1]));
            lemma_trim_back_take(t, b - a);
            assert(t.take(b - a) =~= s@.subrange(a as int, b as int));
        }
        let r = s.substring_char(a, b);
        r.to_owned()
    }
}

/// Position of the first newline in `s`, or -1 if there is none.
pub open spec fn first_nl(s: Seq<char>) -> int
    decreases s.len(),
{
    if s.len() == 0 {
        -1
    } else if s[0] == '\n' {
        0
    } else {
        let r = first_nl(s.drop_first());
        if r < 0 {
            -1
        } else {
            r + 1
        }
    }
}

/// `s` split at newline characters (the separators are dropped). The empty
/// sequence yields one empty line, like splitting does everywhere.
pub open spec fn lines_of(s: Seq<char>) -> Seq<Seq<char>>
    decreases s.len(),
{
    let p = first_nl(s);
    if p < 0 || p >= s.len() {
        seq![s]
    } else {
        seq![s.take(p)] + lines_of(s.skip(p + 1))
    }
}

proof fn lemma_first_nl_at(s: Seq<char>, k: int)
    requires
        0 <= k < s.len(),
        s[k] == '\n',
        forall|i: int| 0 <= i < k ==> s[i] != '\n',
    ensures
        first_nl(s) == k,
    decreases k,
{
    if k == 0 {
    } else {
        let t = s.drop_first();
        assert(forall|i: int| 0 <= i < k - 1 ==> #[trigger] t[i] != '\n') by {
            assert(forall|i: int| 0 <= i < k - 1 ==> t[i] == s[i + 1]);
        }
        assert(t[k - 1] == '\n');
        lemma_first_nl_at(t, k - 1);
    }
}

proof fn lemma_first_nl_none(s: Seq<char>)
    requires
        forall|i: int| 0 <= i < s.len() ==> s[i] != '\n',
    ensures
        first_nl(s) == -1,
    decreases s.len(),
{
    if s.len() > 0 {
        lemma_first_nl_none(s.drop_first());
    }
}

pub open spec fn seq_views(v: Seq<String>) -> Seq<Seq<char>> {
    v.map_values(|x: String| x@)
}

/// `p` is a prefix of `s`.
pub open spec fn starts_with(s: Seq<char>, p: Seq<char>) -> bool {
    p.len() <= s.len() && s.take(p.len() as int) == p
}

pub fn str_starts_with(s: &str, p: &str) -> (r: bool)
    ensures
        r == starts_with(s@, p@),
{
    let n = s.unicode_len();
    let m = p.unicode_len();
    if n < m {
        return false;
    }
    let mut i: usize = 0;
    while i < m
        invariant
            i <= m,
            m <= n,
            m == p@.len(),
            n == s@.len(),
            forall|j: int| 0 <= j < i ==> s@[j] == p@[j],
        decreases m - i,
    {
        if s.get_char(i) != p.get_char(i) {
            proof {
                assert(s@.take(m as int)[i as int] != p@[i as int]);
            }
            return false;
        }
        i += 1;
    }
    proof {
        assert(s@.take(m as int) =~= p@);
    }
    true
}

/// Index of the first element of `ls` that starts with `p`, or -1.
pub open spec fn first_match(ls: Seq<Seq<char>>, p: Seq<char>) -> int
    decreases ls.len(),
{
    if ls.len() == 0 {
        -1
    } else if starts_with(ls[0], p) {
        0
    } else {
        let r = first_match(ls.drop_first(), p);
        if r < 0 {
            -1
        } else {
            r + 1
        }
    }
}

pub proof fn lemma_first_match_at(ls: Seq<Seq<char>>, p: Seq<char>, k: int)
    requires
        0 <= k < ls.len(),
        starts_with(ls[k], p),
        forall|i: int| 0 <= i < k ==> !starts_with(#[trigger] ls[i], p),
    ensures
        first_match(ls, p) == k,
    decreases k,
{
    if k == 0 {
    } else {
        let t = ls.drop_first();
        assert(forall|i: int| 0 <= i < k - 1 ==> !starts_with(#[trigger] t[i], p)) by {
            assert(forall|i: int| 0 <= i < k - 1 ==> t[i] == ls[i + 1]);
        }
        assert(t[k - 1] == ls[k]);
        lemma_first_match_at(t, p, k - 1);
    }
}

pub proof fn lemma_first_match_none(ls: Seq<Seq<char>>, p: Seq<char>)
    requires
        forall|i: int| 0 <= i < ls.len() ==> !starts_with(#[trigger] ls[i], p),
    ensures
        first_match(ls, p) == -1,
    decreases ls.len(),
{
    if ls.len() > 0 {
        lemma_first_match_none(ls.drop_first(), p);
    }
}

/// `s` split into its lines.
pub fn split_into_lines(s: &str) -> (r: Vec<String>)
    ensures
        seq_views(r@) =~= lines_of(s@),
{
    let n = s.unicode_len();
    let mut r: Vec<String> = Vec::new();
    let mut start: usize = 0;
    let mut i: usize = 0;
    proof {
        assert(s@.skip(0) =~= s@);
        assert(seq_views(r@) =~= Seq::<Seq<char>>::empty());
        assert(seq_views(r@) + lines_of(s@.skip(0)) =~= lines_of(s@));
    }
    while i < n
        invariant
            start <= i <= n,
            n == s@.len(),
            forall|j: int| start <= j < i ==> s@[j] != '\n',
            seq_views(r@) + lines_of(s@.skip(start as int)) =~= lines_of(s@),
        decreases n - i,
    {
        if s.get_char(i) == '\n' {
            let line = s.substring_char(start, i).to_owned();
            proof {
                let rest = s@.skip(start as int);
                assert(forall|j: int| 0 <= j < i - start ==> #[trigger] rest[j] != '\n') by {
                    assert(forall|j: int| 0 <= j < i - start ==> rest[j] == s@[j + start]);
                }
                assert(rest[i - start] == '\n');
                lemma_first_nl_at(rest, i - start);
                assert(rest.take(i - start) =~= s@.subrange(start as int, i as int));
                assert(rest.skip(i - start + 1) =~= s@.skip(i as int + 1));
                assert(lines_of(rest) == seq![rest.take(i - start)] + lines_of(
                    s@.skip(i as int + 1),
                ));
                assert(seq_views(r@.push(line)) =~= seq_views(r@).push(line@));
            }
            r.push(line);
            start = i + 1;
        }
        i += 1;
    }
    let line = s.substring_char(start, n).to_owned();
    proof {
        let rest = s@.skip(start as int);
        assert(forall|j: int| 0 <= j < rest.len() ==> #[trigger] rest[j] != '\n') by {
            assert(forall|j: int| 0 <= j < rest.len() ==> rest[j] == s@[j + start]);
        }
        lemma_first_nl_none(rest);
        assert(lines_of(rest) == seq![rest]);
        assert(rest =~= s@.subrange(start as int, n as int));
        assert(seq_views(r@.push(line)) =~= seq_views(r@).push(line@));
    }
    r.push(line);
    r
}

} // verus!
