use vstd::prelude::*;

use crate::errors::RunError;
use crate::textutil::{
    all_ascii, is_ascii_ch, is_ascii_char, is_space, is_space_ch, lines_of, seq_views,
    split_into_lines, starts_with, str_starts_with, first_match, lemma_first_match_at,
    lemma_first_match_none, trim, trimmed,
};

verus! {

/// Number of whitespace-separated words: positions where a non-space
/// character follows the start or a space.
pub open spec fn word_count(s: Seq<char>) -> nat
    decreases s.len(),
{
    if s.len() == 0 {
        0
    } else {
        word_count(s.drop_last()) + if !is_space(s.last()) && (s.len() == 1 || is_space(
            s[s.len() - 2],
        )) {
            1nat
        } else {
            0nat
        }
    }
}

/// Validates the operator's seed material: trimmed, it must be exactly 12
/// whitespace-separated ASCII words. The trimmed phrase comes back.
pub fn validate_seed_phrase(s: &str) -> (r: Result<String, RunError>)
    ensures
        r is Ok <==> all_ascii(trim(s@)) && word_count(trim(s@)) == 12,
        r matches Ok(p) ==> p@ == trim(s@),
        r matches Err(e) ==> e == RunError::InvalidSeedPhrase,
{
    let t = trimmed(s);
    let n = t.as_str().unicode_len();
    let mut words: usize = 0;
    let mut i: usize = 0;
    proof {
        assert(t@.take(0) =~= Seq::<char>::empty());
    }
    while i < n
        invariant
            i <= n,
            n == t@.len(),
            words <= i,
            t@ == trim(s@),
            forall|j: int| 0 <= j < i ==> is_ascii_char(#[trigger] t@[j]),
            words == word_count(t@.take(i as int)),
        decreases n - i,
    {
        let c = t.as_str().get_char(i);
        if !is_ascii_ch(c) {
            return Err(RunError::InvalidSeedPhrase);
        }
        let at_word_start = !is_space_ch(c) && (i == 0 || is_space_ch(
            t.as_str().get_char(i - 1),
        ));
        proof {
            let pre = t@.take(i as int + 1);
            assert(pre.drop_last() =~= t@.take(i as int));
            assert(pre.last() == t@[i as int]);
            assert(i > 0 ==> pre[i as int - 1] == t@[i as int - 1]);
        }
        if at_word_start {
            words += 1;
        }
        i += 1;
    }
    proof {
        assert(t@.take(n as int) =~= t@);
    }
    if words == 12 {
        Ok(t)
    } else {
        Err(RunError::InvalidSeedPhrase)
    }
}

/// The line prefix under which the key-derivation command reports the key.
pub open spec fn key_line_prefix() -> Seq<char> {
    "Public key:"@
}

/// Extracts the derived public key from the key-derivation command's output:
/// what follows `Public key:` on the first line that carries that prefix,
/// trimmed.
pub fn extract_public_key(output: &str) -> (r: Option<String>)
    ensures
        r is Some <==> first_match(lines_of(output@), key_line_prefix()) >= 0,
        r matches Some(k) ==> k@ == trim(
            lines_of(output@)[first_match(lines_of(output@), key_line_prefix())].skip(
                key_line_prefix().len() as int,
            ),
        ),
{
    let lines = split_into_lines(output);
    let ghost ls = seq_views(lines@);
    let m = lines.len();
    let mut j: usize = 0;
    while j < m
        invariant
            j <= m,
            m == lines@.len(),
            ls == seq_views(lines@),
            ls =~= lines_of(output@),
            forall|i: int| 0 <= i < j ==> !starts_with(#[trigger] ls[i], key_line_prefix()),
        decreases m - j,
    {
        if str_starts_with(lines[j].as_str(), "Public key:") {
            let line = &lines[j];
            let plen = "Public key:".unicode_len();
            let llen = line.as_str().unicode_len();
            let rest = line.as_str().substring_char(plen, llen);
            proof {
                lemma_first_match_at(ls, key_line_prefix(), j as int);
                assert(rest@ =~= ls[j as int].skip(key_line_prefix().len() as int));
            }
            return Some(trimmed(rest));
        }
        j += 1;
    }
    proof {
        lemma_first_match_none(ls, key_line_prefix());
    }
    None
}

} // verus!
