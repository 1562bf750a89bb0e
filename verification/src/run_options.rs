use vstd::prelude::*;

verus! {

/// Options of the storage-deposit funding command. The front end fills this
/// from its command line; paths are carried as strings.
#[derive(Clone, Debug)]
pub struct FundStorageDepositOptions {
    /// Run normally except for the transactions that would modify the chain.
    pub dry_run: bool,
    /// File listing tokens as `<token type>:<token account>`, one per line.
    pub tokens_list_file: String,
    /// Account that pays the deposits and signs those transactions.
    pub source_account_for_near: String,
    /// Account that benefits from the deposits.
    pub deposit_beneficiary: String,
    /// Minimum balance the source account must keep for fees, in yoctonear.
    pub min_required_balance_for_fees: u128,
}

/// Options of the contract-replacement command.
#[derive(Clone, Debug)]
pub struct ReplacePoATokenContractOptions {
    /// File holding the 12-word seed phrase for the temporary access key.
    pub poa_seed_file: String,
    /// The account id that contains the PoA factory.
    pub poa_factory_account_id: String,
    /// File listing target token prefixes (not full addresses), one per line.
    pub tokens_prefixes_list_file: String,
    /// Account that signs the grant and revoke transactions.
    pub source_account_for_action: String,
    /// Minimum balance the signer must have for fees, in yoctonear.
    pub min_required_balance_for_fees: u128,
    /// Do not attach one yoctonear to the grant and revoke transactions.
    pub no_one_yocto_for_key_adding: bool,
    /// The wasm file that replaces each target's code.
    pub poa_token_wasm_file: String,
    /// Directory where pre-replacement code is backed up.
    pub poa_tokens_contracts_backup_dir: String,
}

/// Which of the two commands a run performs.
#[derive(Clone, Debug)]
pub enum RunCommand {
    FundStorageDeposit(FundStorageDepositOptions),
    ReplacePOATokenContract(ReplacePoATokenContractOptions),
}

/// Top-level options: one chosen command.
#[derive(Clone, Debug)]
pub struct RunOptions {
    pub command: RunCommand,
}

} // verus!
