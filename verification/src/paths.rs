use vstd::prelude::*;

use crate::subtoken::Subtoken;
use rand::RngExt;

verus! {

/// An ASCII alphanumeric character.
pub open spec fn is_ascii_alphanumeric_char(c: char) -> bool {
    (('0' as u32) <= c as u32 && c as u32 <= ('9' as u32)) || (('a' as u32) <= c as u32 && c as u32
        <= ('z' as u32)) || (('A' as u32) <= c as u32 && c as u32 <= ('Z' as u32))
}

/// A character the timestamp format produces: a digit, `-`, `_`, or the
/// sign written for years outside 0 to 9999.
pub open spec fn is_timestamp_char(c: char) -> bool {
    (('0' as u32) <= c as u32 && c as u32 <= ('9' as u32)) || c == '-' || c == '_' || c == '+'
}

/// A character safe inside a filename fragment: alphanumeric, `-`, `_` or
/// `+`.
pub open spec fn is_filename_char(c: char) -> bool {
    is_ascii_alphanumeric_char(c) || c == '-' || c == '_' || c == '+'
}

pub open spec fn filename_chars(s: Seq<char>) -> bool {
    forall|i: int| 0 <= i < s.len() ==> is_filename_char(#[trigger] s[i])
}

/// Canonical backup path for a target: `dir + "/" + address + ".bin"`.
pub open spec fn spec_backup_path(dir: Seq<char>, account: Seq<char>) -> Seq<char> {
    dir + seq!['/'] + account + ".bin"@
}

/// Alternate backup path used on collision: the file stem is extended with
/// `_` and a uniqueness suffix.
pub open spec fn spec_alternate_path(dir: Seq<char>, account: Seq<char>, sfx: Seq<char>) -> Seq<
    char,
> {
    dir + seq!['/'] + account + seq!['_'] + sfx + ".bin"@
}

/// The marker file contents that identify the backup directory to external
/// tooling as a regeneratable cache-like directory.
pub fn cachedir_tag_contents() -> (r: &'static str)
    ensures
        r@ == "Signature: 8a477f597d28d172789f06886806bc55\n"@,
{
    "Signature: 8a477f597d28d172789f06886806bc55\n"
}

/// Relies on chrono::Utc::now, rendered with format `%Y-%m-%d_%H-%M-%S`: a
/// UTC timestamp like `2001-02-03_04-05-06`. The value depends on the clock,
/// so only what holds for every clock value under this fixed format is
/// promised: the year takes at least four characters (so the whole rendering
/// at least 19), and every character is a digit, `-`, `_`, or the sign the
/// year field gains outside 0 to 9999.
#[verifier::external_body]
fn utc_timestamp_for_filename() -> (r: String)
    ensures
        r@.len() >= 19,
        forall|i: int| 0 <= i < r@.len() ==> is_timestamp_char(#[trigger] r@[i]),
{
    chrono::Utc::now().format("%Y-%m-%d_%H-%M-%S").to_string()
}

/// Relies on rand::rng sampling rand::distr::Alphanumeric: exactly six
/// characters, each drawn from the ASCII alphanumeric set; nothing more
/// holds of every outcome.
#[verifier::external_body]
fn random_alphanumeric_suffix() -> (r: String)
    ensures
        r@.len() == 6,
        forall|i: int| 0 <= i < r@.len() ==> is_ascii_alphanumeric_char(#[trigger] r@[i]),
{
    rand::rng().sample_iter(&rand::distr::Alphanumeric).take(6).map(char::from).collect()
}

/// A suffix for renaming a colliding backup file: the current UTC timestamp,
/// `_`, and six random alphanumeric characters — always a valid filename
/// fragment.
pub fn generate_duplicate_file_suffix() -> (r: String)
    ensures
        r@.len() >= 26,
        filename_chars(r@),
        exists|ts: Seq<char>, sfx: Seq<char>|
            {
                &&& r@ == ts + seq!['_'] + sfx
                &&& ts.len() >= 19
                &&& sfx.len() == 6
                &&& (forall|i: int| 0 <= i < ts.len() ==> is_timestamp_char(#[trigger] ts[i]))
                &&& (forall|i: int|
                    0 <= i < sfx.len() ==> is_ascii_alphanumeric_char(#[trigger] sfx[i]))
            },
{
    let mut r = utc_timestamp_for_filename();
    let ghost ts = r@;
    r.append("_");
    let s = random_alphanumeric_suffix();
    r.append(s.as_str());
    proof {
        reveal_strlit("_");
        assert("_"@ =~= seq!['_']);
        assert(r@ == ts + seq!['_'] + s@);
        assert forall|i: int| 0 <= i < r@.len() implies is_filename_char(#[trigger] r@[i]) by {
            if i < ts.len() {
                assert(r@[i] == ts[i]);
            } else if i == ts.len() {
                assert(r@[i] == '_');
            } else {
                assert(r@[i] == s@[i - ts.len() - 1]);
            }
        }
    }
    r
}

/// The canonical backup destination of one target's code.
pub fn backup_artifact_path(dir: &str, token: &Subtoken) -> (r: String)
    ensures
        r@ == spec_backup_path(dir@, token.spec_account_id()),
{
    let mut r = dir.to_owned();
    r.append("/");
    let a = token.account_id();
    r.append(a.as_str());
    r.append(".bin");
    proof {
        reveal_strlit("/");
        assert("/"@ =~= seq!['/']);
        assert(r@ =~= spec_backup_path(dir@, token.spec_account_id()));
    }
    r
}

/// The renamed destination used when the canonical path is already taken.
pub fn alternate_backup_path(dir: &str, token: &Subtoken, suffix: &str) -> (r: String)
    ensures
        r@ == spec_alternate_path(dir@, token.spec_account_id(), suffix@),
{
    let mut r = dir.to_owned();
    r.append("/");
    let a = token.account_id();
    r.append(a.as_str());
    r.append("_");
    r.append(suffix);
    r.append(".bin");
    proof {
        reveal_strlit("/");
        reveal_strlit("_");
        assert("/"@ =~= seq!['/']);
        assert("_"@ =~= seq!['_']);
        assert(r@ =~= spec_alternate_path(dir@, token.spec_account_id(), suffix@));
    }
    r
}

/// Backup-path collision law: whatever suffix the clock and the randomness
/// produced, the alternate path differs from the canonical one, so a
/// pre-existing backup at the canonical path is never overwritten.
pub proof fn law_backup_collision_safe(dir: Seq<char>, account: Seq<char>, sfx: Seq<char>)
    ensures
        spec_alternate_path(dir, account, sfx) != spec_backup_path(dir, account),
{
    assert(spec_alternate_path(dir, account, sfx).len() == dir.len() + 1 + account.len() + 1
        + sfx.len() + ".bin"@.len());
    assert(spec_backup_path(dir, account).len() == dir.len() + 1 + account.len() + ".bin"@.len());
}

/// Chooses where to write one target's backup: the canonical path, or, if a
/// file already sits there, a distinct alternate path whose stem carries a
/// filename-safe uniqueness suffix.
pub fn backup_dest_path(dir: &str, token: &Subtoken, canonical_exists: bool) -> (r: String)
    ensures
        !canonical_exists ==> r@ == spec_backup_path(dir@, token.spec_account_id()),
        canonical_exists ==> (exists|sfx: Seq<char>|
            {
                &&& r@ == spec_alternate_path(dir@, token.spec_account_id(), sfx)
                &&& sfx.len() >= 26
                &&& filename_chars(sfx)
            }),
        canonical_exists ==> r@ != spec_backup_path(dir@, token.spec_account_id()),
{
    if canonical_exists {
        let sfx = generate_duplicate_file_suffix();
        let r = alternate_backup_path(dir, token, sfx.as_str());
        proof {
            law_backup_collision_safe(dir@, token.spec_account_id(), sfx@);
            assert(r@ == spec_alternate_path(dir@, token.spec_account_id(), sfx@) && sfx@.len()
                >= 26 && filename_chars(sfx@));
        }
        r
    } else {
        backup_artifact_path(dir, token)
    }
}

} // verus!
