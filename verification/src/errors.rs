use vstd::prelude::*;

verus! {

/// Everything that can stop a run, from input validation up to the
/// transaction loop. Variants that concern one target carry its index in the
/// run's target list.
#[derive(Clone, Debug, PartialEq, Eq)]
pub enum RunError {
    /// The factory account id is not plain ASCII without whitespace.
    InvalidFactoryId,
    /// The replacement code file does not exist.
    MissingWasmFile,
    /// The target list file could not be read.
    MissingTargetList,
    /// A line of the target list is not a single whitespace-free ASCII token;
    /// the offending trimmed line is carried verbatim.
    InvalidTargetSpec { line: String },
    /// A line of the storage-deposit token list is not `<type>:<account>`;
    /// the offending line is carried verbatim.
    InvalidTokenLine { line: String },
    /// The seed phrase is not exactly 12 whitespace-separated ASCII words.
    InvalidSeedPhrase,
    /// The public key could not be derived from the seed phrase.
    KeyDerivationFailed,
    /// The signer's balance could not be determined.
    BalanceQueryFailed,
    /// The signer's balance is below the operator-specified minimum.
    InsufficientBalance { have: u128, need: u128 },
    /// The backup directory could not be created or marked.
    BackupDirFailed,
    /// Downloading the current code of one target failed; nothing has been
    /// mutated yet.
    BackupFailed { target: usize },
    /// Granting the temporary access key to one target failed; no deploy was
    /// attempted for it.
    GrantFailed { target: usize },
    /// Deploying to one target failed; its revoke was still submitted before
    /// this was surfaced.
    DeployFailed { target: usize },
    /// Revoking the temporary key failed: the credential may remain live.
    RevokeFailed { target: usize },
}

} // verus!
