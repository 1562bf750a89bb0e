use vstd::prelude::*;

use crate::errors::RunError;
use crate::paths::{backup_dest_path, backup_artifact_path, filename_chars, spec_alternate_path, spec_backup_path};
use crate::run_options::ReplacePoATokenContractOptions;
use crate::subtoken::{factory_ok, prefixes_of, sig_lines, valid_factory, valid_token, first_bad, SubtokenList};

verus! {

/// One externally visible operation the orchestrator has asked for, in the
/// order of asking. `t` is the index of the target concerned.
pub enum Op {
    /// Download of target `t`'s current code (read-only).
    Backup { t: int },
    /// Grant of the temporary access key to target `t` (mutating).
    Grant { t: int },
    /// Code replacement on target `t` (mutating).
    Deploy { t: int },
    /// Revocation of the temporary access key from target `t` (mutating).
    Revoke { t: int },
}

/// Where the run stands: every `Await*` phase means the matching action has
/// been handed out and its outcome has not yet come back.
#[derive(Clone, Copy, Debug, PartialEq, Eq, Structural)]
pub enum Phase {
    Start,
    AwaitWasmCheck,
    AwaitTargetList,
    AwaitBalance,
    AwaitBackupDir,
    AwaitPathCheck { i: usize },
    AwaitDownload { i: usize },
    AwaitKey,
    AwaitPause,
    AwaitGrant { i: usize },
    AwaitDeploy { i: usize },
    AwaitRevoke { i: usize, deploy_ok: bool },
    Completed,
    Failed,
}

/// What the front end reports back to the orchestrator.
pub enum Event {
    Begin,
    WasmFileExists { exists: bool },
    TargetListIs { contents: String },
    TargetListMissing,
    BalanceIs { amount: u128 },
    BalanceQueryFailed,
    BackupDirReady,
    BackupDirFailed,
    BackupPathExists { exists: bool },
    CodeSaved,
    DownloadFailed,
    PublicKeyIs { key: String },
    SeedPhraseInvalid,
    KeyDerivationFailed,
    Paused,
    GrantOk,
    GrantFailed,
    DeployOk,
    DeployFailed,
    RevokeOk,
    RevokeFailed,
}

/// What the orchestrator asks the front end to do next.
#[derive(Debug, PartialEq, Eq)]
pub enum Action {
    /// Check that the replacement wasm file exists.
    CheckWasmFile,
    /// Read the target list file and hand back its contents.
    ReadTargetList,
    /// Query the signer's balance.
    QueryBalance,
    /// Create the backup directory and its cache marker file.
    EnsureBackupDir,
    /// Check whether `path` (the canonical backup path of `target`) exists.
    CheckBackupPath { target: usize, path: String },
    /// Download `target`'s current code and save it at `dest`.
    DownloadCode { target: usize, dest: String },
    /// Derive the public key from the seed phrase.
    DerivePublicKey,
    /// Warn the operator and pause before the destructive phase.
    PauseBeforeMutation,
    /// Submit the grant transaction for `target`.
    SubmitGrant { target: usize, attach_one_yoctonear: bool },
    /// Submit the deploy transaction for `target`.
    SubmitDeploy { target: usize },
    /// Submit the revoke transaction for `target`.
    SubmitRevoke { target: usize, attach_one_yoctonear: bool },
    /// The run is complete.
    Finish,
    /// The run has failed; the error is in the orchestrator's `error` field.
    Fail,
}

/// The first `k` backup operations, in target order.
pub open spec fn backups_upto(k: nat) -> Seq<Op> {
    Seq::new(k, |j: int| Op::Backup { t: j })
}

/// The grant/deploy/revoke cycle of target `i`.
pub open spec fn cycle_ops(i: int) -> Seq<Op> {
    seq![Op::Grant { t: i }, Op::Deploy { t: i }, Op::Revoke { t: i }]
}

/// The complete cycles of targets `0 .. k`, in order.
pub open spec fn cycles_upto(k: nat) -> Seq<Op>
    decreases k,
{
    if k == 0 {
        Seq::empty()
    } else {
        cycles_upto((k - 1) as nat) + cycle_ops(k - 1)
    }
}

/// The normal form of every reachable trace: `b` backups, `c` complete
/// cycles, and the first `e` operations of cycle `c`.
pub open spec fn normal_hist(b: nat, c: nat, e: int) -> Seq<Op> {
    backups_upto(b) + cycles_upto(c) + cycle_ops(c as int).take(e)
}

/// The replacement orchestrator: validates inputs, backs every target up,
/// then runs grant, deploy, revoke per target, in order, and stops on the
/// first failure. It only decides; the unverified front end performs each
/// returned `Action` and feeds the outcome back through `step`.
pub struct Orchestrator {
    /// Account that signs grant and revoke transactions.
    pub signer: String,
    /// The factory account id all targets live under.
    pub factory: String,
    /// Path of the replacement wasm file.
    pub wasm_file: String,
    /// Path of the backup directory.
    pub backup_dir: String,
    /// Minimum balance the signer must have, in yoctonear.
    pub min_balance: u128,
    /// Whether grant and revoke transactions attach one yoctonear.
    pub attach_one_yoctonear: bool,
    /// The parsed target list, once the list file has been read.
    pub targets: Option<SubtokenList>,
    /// The public key used for every temporary grant, derived exactly once.
    pub public_key: Option<String>,
    pub phase: Phase,
    /// Why the run failed, when `phase` is `Failed`.
    pub error: Option<RunError>,
    /// The trace of operations asked for so far.
    pub history: Ghost<Seq<Op>>,
}

impl Orchestrator {
    pub open spec fn num_targets(self) -> nat {
        if self.targets is Some {
            self.targets->Some_0.tokens_list@.len()
        } else {
            0
        }
    }

    pub open spec fn target_account(self, i: int) -> Seq<char> {
        self.targets->Some_0.tokens_list@[i].spec_account_id()
    }

    /// Phases in which the target list has been parsed and stored.
    pub open spec fn phase_has_targets(self) -> bool {
        match self.phase {
            Phase::Start | Phase::AwaitWasmCheck | Phase::AwaitTargetList | Phase::Failed => false,
            _ => true,
        }
    }

    /// Phases in which the grant key has been derived and stored.
    pub open spec fn phase_has_key(self) -> bool {
        match self.phase {
            Phase::AwaitPause | Phase::AwaitGrant { .. } | Phase::AwaitDeploy { .. }
                | Phase::AwaitRevoke { .. } | Phase::Completed => true,
            _ => false,
        }
    }

    pub open spec fn idx_ok(self) -> bool {
        match self.phase {
            Phase::AwaitPathCheck { i } => i < self.num_targets(),
            Phase::AwaitDownload { i } => i < self.num_targets(),
            Phase::AwaitGrant { i } => i < self.num_targets(),
            Phase::AwaitDeploy { i } => i < self.num_targets(),
            Phase::AwaitRevoke { i, .. } => i < self.num_targets(),
            _ => true,
        }
    }

    /// Which errors can stand in `error`, and what they need of the state.
    pub open spec fn error_ok(self) -> bool {
        match self.error {
            Some(RunError::BackupFailed { target }) => self.targets is Some && target
                < self.num_targets(),
            Some(RunError::GrantFailed { target }) => self.targets is Some && target
                < self.num_targets(),
            Some(RunError::DeployFailed { target }) => self.targets is Some && target
                < self.num_targets(),
            Some(RunError::RevokeFailed { target }) => self.targets is Some && target
                < self.num_targets(),
            Some(RunError::InvalidSeedPhrase) => self.targets is Some,
            Some(RunError::KeyDerivationFailed) => self.targets is Some,
            _ => true,
        }
    }

    /// The exact trace every state carries, as a function of the phase.
    pub open spec fn canonical_ops(self) -> Seq<Op> {
        let n = self.num_targets();
        match self.phase {
            Phase::Start | Phase::AwaitWasmCheck | Phase::AwaitTargetList | Phase::AwaitBalance
                | Phase::AwaitBackupDir => Seq::empty(),
            Phase::AwaitPathCheck { i } => backups_upto(i as nat),
            Phase::AwaitDownload { i } => backups_upto((i + 1) as nat),
            Phase::AwaitKey | Phase::AwaitPause => backups_upto(n),
            Phase::AwaitGrant { i } => normal_hist(n, i as nat, 1),
            Phase::AwaitDeploy { i } => normal_hist(n, i as nat, 2),
            Phase::AwaitRevoke { i, .. } => normal_hist(n, i as nat, 3),
            Phase::Completed => backups_upto(n) + cycles_upto(n),
            Phase::Failed => match self.error {
                Some(RunError::BackupFailed { target }) => backups_upto((target + 1) as nat),
                Some(RunError::InvalidSeedPhrase) => backups_upto(n),
                Some(RunError::KeyDerivationFailed) => backups_upto(n),
                Some(RunError::GrantFailed { target }) => normal_hist(n, target as nat, 1),
                Some(RunError::DeployFailed { target }) => normal_hist(n, target as nat, 3),
                Some(RunError::RevokeFailed { target }) => normal_hist(n, target as nat, 3),
                _ => Seq::empty(),
            },
        }
    }

    /// The state invariant: every reachable orchestrator satisfies it, and
    /// its trace is pinned to the canonical trace of its phase.
    pub open spec fn inv(self) -> bool {
        &&& valid_factory(self.factory@)
        &&& (self.phase_has_targets() ==> self.targets is Some)
        &&& (self.targets matches Some(l) ==> l.wf() && forall|i: int|
            0 <= i < l.tokens_list@.len() ==> (#[trigger] l.tokens_list@[i]).poa_factory_account@
                == self.factory@)
        &&& self.idx_ok()
        &&& (self.phase == Phase::Failed <==> self.error is Some)
        &&& self.error_ok()
        &&& (self.phase_has_key() ==> self.public_key is Some)
        &&& self.history@ == self.canonical_ops()
    }

    pub open spec fn is_terminal(self) -> bool {
        self.phase == Phase::Completed || self.phase == Phase::Failed
    }

    /// Which events answer which phase.
    pub open spec fn accepts(self, event: Event) -> bool {
        match (self.phase, event) {
            (Phase::Start, Event::Begin) => true,
            (Phase::AwaitWasmCheck, Event::WasmFileExists { .. }) => true,
            (Phase::AwaitTargetList, Event::TargetListIs { .. }) => true,
            (Phase::AwaitTargetList, Event::TargetListMissing) => true,
            (Phase::AwaitBalance, Event::BalanceIs { .. }) => true,
            (Phase::AwaitBalance, Event::BalanceQueryFailed) => true,
            (Phase::AwaitBackupDir, Event::BackupDirReady) => true,
            (Phase::AwaitBackupDir, Event::BackupDirFailed) => true,
            (Phase::AwaitPathCheck { .. }, Event::BackupPathExists { .. }) => true,
            (Phase::AwaitDownload { .. }, Event::CodeSaved) => true,
            (Phase::AwaitDownload { .. }, Event::DownloadFailed) => true,
            (Phase::AwaitKey, Event::PublicKeyIs { .. }) => true,
            (Phase::AwaitKey, Event::SeedPhraseInvalid) => true,
            (Phase::AwaitKey, Event::KeyDerivationFailed) => true,
            (Phase::AwaitPause, Event::Paused) => true,
            (Phase::AwaitGrant { .. }, Event::GrantOk) => true,
            (Phase::AwaitGrant { .. }, Event::GrantFailed) => true,
            (Phase::AwaitDeploy { .. }, Event::DeployOk) => true,
            (Phase::AwaitDeploy { .. }, Event::DeployFailed) => true,
            (Phase::AwaitRevoke { .. }, Event::RevokeOk) => true,
            (Phase::AwaitRevoke { .. }, Event::RevokeFailed) => true,
            _ => false,
        }
    }
}

/// The six configuration fields never change after construction.
pub open spec fn same_config(pre: Orchestrator, post: Orchestrator) -> bool {
    &&& post.signer == pre.signer
    &&& post.factory == pre.factory
    &&& post.wasm_file == pre.wasm_file
    &&& post.backup_dir == pre.backup_dir
    &&& post.min_balance == pre.min_balance
    &&& post.attach_one_yoctonear == pre.attach_one_yoctonear
}

/// An ordinary (non-failing) transition: phase moves to `ph`, the trace grows
/// by exactly `ops`, and nothing else changes.
pub open spec fn advances(pre: Orchestrator, post: Orchestrator, ph: Phase, ops: Seq<Op>) -> bool {
    &&& same_config(pre, post)
    &&& post.targets == pre.targets
    &&& post.public_key == pre.public_key
    &&& post.error == pre.error
    &&& post.phase == ph
    &&& post.history@ == pre.history@ + ops
}

/// A failing transition: the run stops with error `e`; the trace does not
/// grow (the failed operation was already recorded when it was asked for).
pub open spec fn fails_with(pre: Orchestrator, post: Orchestrator, a: Action, e: RunError) -> bool {
    &&& same_config(pre, post)
    &&& post.targets == pre.targets
    &&& post.public_key == pre.public_key
    &&& post.phase == Phase::Failed
    &&& post.error == Some(e)
    &&& post.history@ == pre.history@
    &&& a == Action::Fail
}

/// The complete transition relation of `step`: what each event does to the
/// state and which action comes back.
pub open spec fn step_rel(pre: Orchestrator, event: Event, post: Orchestrator, a: Action) -> bool {
    let n = pre.num_targets() as int;
    match (pre.phase, event) {
        (Phase::Start, Event::Begin) => {
            &&& advances(pre, post, Phase::AwaitWasmCheck, Seq::empty())
            &&& a == Action::CheckWasmFile
        },
        (Phase::AwaitWasmCheck, Event::WasmFileExists { exists }) => {
            if exists {
                &&& advances(pre, post, Phase::AwaitTargetList, Seq::empty())
                &&& a == Action::ReadTargetList
            } else {
                fails_with(pre, post, a, RunError::MissingWasmFile)
            }
        },
        (Phase::AwaitTargetList, Event::TargetListMissing) => fails_with(
            pre,
            post,
            a,
            RunError::MissingTargetList,
        ),
        (Phase::AwaitTargetList, Event::TargetListIs { contents }) => {
            if forall|i: int|
                0 <= i < sig_lines(contents@).len() ==> valid_token(
                    #[trigger] sig_lines(contents@)[i],
                ) {
                &&& same_config(pre, post)
                &&& post.public_key == pre.public_key
                &&& post.error == pre.error
                &&& post.phase == Phase::AwaitBalance
                &&& post.history@ == pre.history@
                &&& post.targets matches Some(l) && prefixes_of(l.tokens_list@) == sig_lines(
                    contents@,
                )
                &&& a == Action::QueryBalance
            } else {
                &&& same_config(pre, post)
                &&& post.targets == pre.targets
                &&& post.public_key == pre.public_key
                &&& post.phase == Phase::Failed
                &&& post.history@ == pre.history@
                &&& post.error matches Some(RunError::InvalidTargetSpec { line }) && line@
                    == sig_lines(contents@)[first_bad(sig_lines(contents@))]
                &&& a == Action::Fail
            }
        },
        (Phase::AwaitBalance, Event::BalanceIs { amount }) => {
            if amount >= pre.min_balance {
                &&& advances(pre, post, Phase::AwaitBackupDir, Seq::empty())
                &&& a == Action::EnsureBackupDir
            } else {
                fails_with(
                    pre,
                    post,
                    a,
                    RunError::InsufficientBalance { have: amount, need: pre.min_balance },
                )
            }
        },
        (Phase::AwaitBalance, Event::BalanceQueryFailed) => fails_with(
            pre,
            post,
            a,
            RunError::BalanceQueryFailed,
        ),
        (Phase::AwaitBackupDir, Event::BackupDirReady) => {
            if n == 0 {
                &&& advances(pre, post, Phase::AwaitKey, Seq::empty())
                &&& a == Action::DerivePublicKey
            } else {
                &&& advances(pre, post, Phase::AwaitPathCheck { i: 0 }, Seq::empty())
                &&& a matches Action::CheckBackupPath { target, path } && target == 0 && path@
                    == spec_backup_path(pre.backup_dir@, pre.target_account(0))
            }
        },
        (Phase::AwaitBackupDir, Event::BackupDirFailed) => fails_with(
            pre,
            post,
            a,
            RunError::BackupDirFailed,
        ),
        (Phase::AwaitPathCheck { i }, Event::BackupPathExists { exists }) => {
            &&& advances(pre, post, Phase::AwaitDownload { i }, seq![Op::Backup { t: i as int }])
            &&& a matches Action::DownloadCode { target, dest } && target == i && {
                let canonical = spec_backup_path(pre.backup_dir@, pre.target_account(i as int));
                if exists {
                    dest@ != canonical && (exists|sfx: Seq<char>|
                        {
                            &&& dest@ == spec_alternate_path(
                                pre.backup_dir@,
                                pre.target_account(i as int),
                                sfx,
                            )
                            &&& sfx.len() >= 26
                            &&& filename_chars(sfx)
                        })
                } else {
                    dest@ == canonical
                }
            }
        },
        (Phase::AwaitDownload { i }, Event::CodeSaved) => {
            if i + 1 < n {
                &&& advances(pre, post, Phase::AwaitPathCheck { i: (i + 1) as usize }, Seq::empty())
                &&& a matches Action::CheckBackupPath { target, path } && target == i + 1 && path@
                    == spec_backup_path(pre.backup_dir@, pre.target_account(i + 1))
            } else {
                &&& advances(pre, post, Phase::AwaitKey, Seq::empty())
                &&& a == Action::DerivePublicKey
            }
        },
        (Phase::AwaitDownload { i }, Event::DownloadFailed) => fails_with(
            pre,
            post,
            a,
            RunError::BackupFailed { target: i },
        ),
        (Phase::AwaitKey, Event::PublicKeyIs { key }) => {
            &&& same_config(pre, post)
            &&& post.targets == pre.targets
            &&& post.error == pre.error
            &&& post.phase == Phase::AwaitPause
            &&& post.history@ == pre.history@
            &&& post.public_key == Some(key)
            &&& a == Action::PauseBeforeMutation
        },
        (Phase::AwaitKey, Event::SeedPhraseInvalid) => fails_with(
            pre,
            post,
            a,
            RunError::InvalidSeedPhrase,
        ),
        (Phase::AwaitKey, Event::KeyDerivationFailed) => fails_with(
            pre,
            post,
            a,
            RunError::KeyDerivationFailed,
        ),
        (Phase::AwaitPause, Event::Paused) => {
            if n == 0 {
                &&& advances(pre, post, Phase::Completed, Seq::empty())
                &&& a == Action::Finish
            } else {
                &&& advances(pre, post, Phase::AwaitGrant { i: 0 }, seq![Op::Grant { t: 0 }])
                &&& a == (Action::SubmitGrant {
                    target: 0,
                    attach_one_yoctonear: pre.attach_one_yoctonear,
                })
            }
        },
        (Phase::AwaitGrant { i }, Event::GrantOk) => {
            &&& advances(pre, post, Phase::AwaitDeploy { i }, seq![Op::Deploy { t: i as int }])
            &&& a == (Action::SubmitDeploy { target: i })
        },
        (Phase::AwaitGrant { i }, Event::GrantFailed) => fails_with(
            pre,
            post,
            a,
            RunError::GrantFailed { target: i },
        ),
        (Phase::AwaitDeploy { i }, Event::DeployOk) => {
            &&& advances(
                pre,
                post,
                Phase::AwaitRevoke { i, deploy_ok: true },
                seq![Op::Revoke { t: i as int }],
            )
            &&& a == (Action::SubmitRevoke {
                target: i,
                attach_one_yoctonear: pre.attach_one_yoctonear,
            })
        },
        (Phase::AwaitDeploy { i }, Event::DeployFailed) => {
            &&& advances(
                pre,
                post,
                Phase::AwaitRevoke { i, deploy_ok: false },
                seq![Op::Revoke { t: i as int }],
            )
            &&& a == (Action::SubmitRevoke {
                target: i,
                attach_one_yoctonear: pre.attach_one_yoctonear,
            })
        },
        (Phase::AwaitRevoke { i, deploy_ok }, Event::RevokeOk) => {
            if !deploy_ok {
                fails_with(pre, post, a, RunError::DeployFailed { target: i })
            } else if i + 1 < n {
                &&& advances(
                    pre,
                    post,
                    Phase::AwaitGrant { i: (i + 1) as usize },
                    seq![Op::Grant { t: i + 1 }],
                )
                &&& a == (Action::SubmitGrant {
                    target: (i + 1) as usize,
                    attach_one_yoctonear: pre.attach_one_yoctonear,
                })
            } else {
                &&& advances(pre, post, Phase::Completed, Seq::empty())
                &&& a == Action::Finish
            }
        },
        (Phase::AwaitRevoke { i, .. }, Event::RevokeFailed) => fails_with(
            pre,
            post,
            a,
            RunError::RevokeFailed { target: i },
        ),
        _ => false,
    }
}

impl Orchestrator {
    /// Builds the orchestrator for one run. Fails fast when the factory
    /// account id is not plain ASCII without whitespace.
    pub fn new(options: ReplacePoATokenContractOptions) -> (r: Result<Orchestrator, RunError>)
        ensures
            r is Ok <==> valid_factory(options.poa_factory_account_id@),
            r matches Ok(o) ==> {
                &&& o.inv()
                &&& o.phase == Phase::Start
                &&& o.history@ == Seq::<Op>::empty()
                &&& o.signer == options.source_account_for_action
                &&& o.factory == options.poa_factory_account_id
                &&& o.wasm_file == options.poa_token_wasm_file
                &&& o.backup_dir == options.poa_tokens_contracts_backup_dir
                &&& o.min_balance == options.min_required_balance_for_fees
                &&& o.attach_one_yoctonear == !options.no_one_yocto_for_key_adding
                &&& o.targets is None
                &&& o.public_key is None
                &&& o.error is None
            },
            r matches Err(e) ==> e == RunError::InvalidFactoryId,
    {
        if !factory_ok(options.poa_factory_account_id.as_str()) {
            return Err(RunError::InvalidFactoryId);
        }
        let attach = !options.no_one_yocto_for_key_adding;
        Ok(
            Orchestrator {
                signer: options.source_account_for_action,
                factory: options.poa_factory_account_id,
                wasm_file: options.poa_token_wasm_file,
                backup_dir: options.poa_tokens_contracts_backup_dir,
                min_balance: options.min_required_balance_for_fees,
                attach_one_yoctonear: attach,
                targets: None,
                public_key: None,
                phase: Phase::Start,
                error: None,
                history: Ghost(Seq::empty()),
            },
        )
    }

    pub fn num_targets_ex(&self) -> (r: usize)
        ensures
            r == self.num_targets(),
    {
        match &self.targets {
            Some(l) => l.tokens_list.len(),
            None => 0,
        }
    }

    /// The fully-qualified address of target `i`.
    pub fn target_account_id(&self, i: usize) -> (r: String)
        requires
            self.targets is Some,
            i < self.num_targets(),
        ensures
            r@ == self.target_account(i as int),
    {
        match &self.targets {
            Some(l) => l.tokens_list[i].account_id(),
            None => vstd::pervasive::unreached(),
        }
    }

    /// Feeds the outcome of the previous action back in and returns the next
    /// action. The protocol: backups strictly before any grant; for every
    /// deploy outcome the revoke is submitted immediately; any grant, deploy
    /// or revoke failure ends the run without touching later targets.
    pub fn step(&mut self, event: Event) -> (a: Action)
        requires
            old(self).inv(),
            !old(self).is_terminal(),
            old(self).accepts(event),
        ensures
            final(self).inv(),
            step_rel(*old(self), event, *final(self), a),
    {
        let ghost pre = *self;
        match (self.phase, event) {
            (Phase::Start, Event::Begin) => {
                self.phase = Phase::AwaitWasmCheck;
                proof {
                    assert(pre.history@ + Seq::<Op>::empty() =~= pre.history@);
                }
                Action::CheckWasmFile
            },
            (Phase::AwaitWasmCheck, Event::WasmFileExists { exists }) => {
                if exists {
                    self.phase = Phase::AwaitTargetList;
                    proof {
                        assert(pre.history@ + Seq::<Op>::empty() =~= pre.history@);
                    }
                    Action::ReadTargetList
                } else {
                    self.phase = Phase::Failed;
                    self.error = Some(RunError::MissingWasmFile);
                    Action::Fail
                }
            },
            (Phase::AwaitTargetList, Event::TargetListMissing) => {
                self.phase = Phase::Failed;
                self.error = Some(RunError::MissingTargetList);
                Action::Fail
            },
            (Phase::AwaitTargetList, Event::TargetListIs { contents }) => {
                match SubtokenList::parse(self.factory.as_str(), contents.as_str()) {
                    Ok(list) => {
                        self.targets = Some(list);
                        self.phase = Phase::AwaitBalance;
                        proof {
                            assert(pre.history@ + Seq::<Op>::empty() =~= pre.history@);
                        }
                        Action::QueryBalance
                    },
                    Err(e) => {
                        self.phase = Phase::Failed;
                        self.error = Some(e);
                        Action::Fail
                    },
                }
            },
            (Phase::AwaitBalance, Event::BalanceIs { amount }) => {
                if amount >= self.min_balance {
                    self.phase = Phase::AwaitBackupDir;
                    Action::EnsureBackupDir
                } else {
                    let need = self.min_balance;
                    self.phase = Phase::Failed;
                    self.error = Some(RunError::InsufficientBalance { have: amount, need });
                    Action::Fail
                }
            },
            (Phase::AwaitBalance, Event::BalanceQueryFailed) => {
                self.phase = Phase::Failed;
                self.error = Some(RunError::BalanceQueryFailed);
                Action::Fail
            },
            (Phase::AwaitBackupDir, Event::BackupDirReady) => {
                if self.num_targets_ex() == 0 {
                    self.phase = Phase::AwaitKey;
                    proof {
                        assert(backups_upto(0) =~= Seq::<Op>::empty());
                    }
                    Action::DerivePublicKey
                } else {
                    let path = match &self.targets {
                        Some(l) => backup_artifact_path(self.backup_dir.as_str(), &l.tokens_list[0]),
                        None => vstd::pervasive::unreached(),
                    };
                    self.phase = Phase::AwaitPathCheck { i: 0 };
                    proof {
                        assert(backups_upto(0) =~= Seq::<Op>::empty());
                        assert(self.canonical_ops() =~= pre.history@);
                    }
                    Action::CheckBackupPath { target: 0, path }
                }
            },
            (Phase::AwaitBackupDir, Event::BackupDirFailed) => {
                self.phase = Phase::Failed;
                self.error = Some(RunError::BackupDirFailed);
                Action::Fail
            },
            (Phase::AwaitPathCheck { i }, Event::BackupPathExists { exists }) => {
                let dest = match &self.targets {
                    Some(l) => backup_dest_path(
                        self.backup_dir.as_str(),
                        &l.tokens_list[i],
                        exists,
                    ),
                    None => vstd::pervasive::unreached(),
                };
                self.phase = Phase::AwaitDownload { i };
                proof {
                    self.history@ = pre.history@ + seq![Op::Backup { t: i as int }];
                    assert(self.canonical_ops() =~= self.history@);
                }
                Action::DownloadCode { target: i, dest }
            },
            (Phase::AwaitDownload { i }, Event::CodeSaved) => {
                let n = self.num_targets_ex();
                if i + 1 < n {
                    let path = match &self.targets {
                        Some(l) => backup_artifact_path(
                            self.backup_dir.as_str(),
                            &l.tokens_list[i + 1],
                        ),
                        None => vstd::pervasive::unreached(),
                    };
                    self.phase = Phase::AwaitPathCheck { i: i + 1 };
                    proof {
                        assert(pre.history@ + Seq::<Op>::empty() =~= pre.history@);
                    }
                    Action::CheckBackupPath { target: i + 1, path }
                } else {
                    self.phase = Phase::AwaitKey;
                    proof {
                        assert(pre.history@ + Seq::<Op>::empty() =~= pre.history@);
                    }
                    Action::DerivePublicKey
                }
            },
            (Phase::AwaitDownload { i }, Event::DownloadFailed) => {
                self.phase = Phase::Failed;
                self.error = Some(RunError::BackupFailed { target: i });
                Action::Fail
            },
            (Phase::AwaitKey, Event::PublicKeyIs { key }) => {
                self.public_key = Some(key);
                self.phase = Phase::AwaitPause;
                proof {
                    assert(pre.history@ + Seq::<Op>::empty() =~= pre.history@);
                }
                Action::PauseBeforeMutation
            },
            (Phase::AwaitKey, Event::SeedPhraseInvalid) => {
                self.phase = Phase::Failed;
                self.error = Some(RunError::InvalidSeedPhrase);
                Action::Fail
            },
            (Phase::AwaitKey, Event::KeyDerivationFailed) => {
                self.phase = Phase::Failed;
                self.error = Some(RunError::KeyDerivationFailed);
                Action::Fail
            },
            (Phase::AwaitPause, Event::Paused) => {
                if self.num_targets_ex() == 0 {
                    self.phase = Phase::Completed;
                    proof {
                        assert(cycles_upto(0) =~= Seq::<Op>::empty());
                        assert(self.canonical_ops() =~= pre.history@);
                    }
                    Action::Finish
                } else {
                    let fee = self.attach_one_yoctonear;
                    self.phase = Phase::AwaitGrant { i: 0 };
                    proof {
                        self.history@ = pre.history@ + seq![Op::Grant { t: 0 }];
                        assert(cycles_upto(0) =~= Seq::<Op>::empty());
                        assert(cycle_ops(0).take(1) =~= seq![Op::Grant { t: 0 }]);
                        assert(self.canonical_ops() =~= self.history@);
                    }
                    Action::SubmitGrant { target: 0, attach_one_yoctonear: fee }
                }
            },
            (Phase::AwaitGrant { i }, Event::GrantOk) => {
                self.phase = Phase::AwaitDeploy { i };
                proof {
                    self.history@ = pre.history@ + seq![Op::Deploy { t: i as int }];
                    assert(cycle_ops(i as int).take(2) =~= cycle_ops(i as int).take(1) + seq![
                        Op::Deploy { t: i as int },
                    ]);
                    assert(self.canonical_ops() =~= self.history@);
                }
                Action::SubmitDeploy { target: i }
            },
            (Phase::AwaitGrant { i }, Event::GrantFailed) => {
                self.phase = Phase::Failed;
                self.error = Some(RunError::GrantFailed { target: i });
                Action::Fail
            },
            (Phase::AwaitDeploy { i }, Event::DeployOk) => {
                let fee = self.attach_one_yoctonear;
                self.phase = Phase::AwaitRevoke { i, deploy_ok: true };
                proof {
                    self.history@ = pre.history@ + seq![Op::Revoke { t: i as int }];
                    assert(cycle_ops(i as int).take(3) =~= cycle_ops(i as int).take(2) + seq![
                        Op::Revoke { t: i as int },
                    ]);
                    assert(self.canonical_ops() =~= self.history@);
                }
                Action::SubmitRevoke { target: i, attach_one_yoctonear: fee }
            },
            (Phase::AwaitDeploy { i }, Event::DeployFailed) => {
                let fee = self.attach_one_yoctonear;
                self.phase = Phase::AwaitRevoke { i, deploy_ok: false };
                proof {
                    self.history@ = pre.history@ + seq![Op::Revoke { t: i as int }];
                    assert(cycle_ops(i as int).take(3) =~= cycle_ops(i as int).take(2) + seq![
                        Op::Revoke { t: i as int },
                    ]);
                    assert(self.canonical_ops() =~= self.history@);
                }
                Action::SubmitRevoke { target: i, attach_one_yoctonear: fee }
            },
            (Phase::AwaitRevoke { i, deploy_ok }, Event::RevokeOk) => {
                if !deploy_ok {
                    self.phase = Phase::Failed;
                    self.error = Some(RunError::DeployFailed { target: i });
                    Action::Fail
                } else {
                    let n = self.num_targets_ex();
                    if i + 1 < n {
                        let fee = self.attach_one_yoctonear;
                        self.phase = Phase::AwaitGrant { i: i + 1 };
                        proof {
                            self.history@ = pre.history@ + seq![Op::Grant { t: i + 1 }];
                            assert(cycle_ops(i as int).take(3) =~= cycle_ops(i as int));
                            assert(cycles_upto((i + 1) as nat) == cycles_upto(i as nat) + cycle_ops(
                                i as int,
                            ));
                            assert(cycle_ops(i + 1).take(1) =~= seq![Op::Grant { t: i + 1 }]);
                            assert(self.canonical_ops() =~= self.history@);
                        }
                        Action::SubmitGrant { target: i + 1, attach_one_yoctonear: fee }
                    } else {
                        self.phase = Phase::Completed;
                        proof {
                            assert(cycle_ops(i as int).take(3) =~= cycle_ops(i as int));
                            assert(cycles_upto((i + 1) as nat) == cycles_upto(i as nat) + cycle_ops(
                                i as int,
                            ));
                            assert(self.canonical_ops() =~= pre.history@);
                        }
                        Action::Finish
                    }
                }
            },
            (Phase::AwaitRevoke { i, .. }, Event::RevokeFailed) => {
                self.phase = Phase::Failed;
                self.error = Some(RunError::RevokeFailed { target: i });
                Action::Fail
            },
            _ => vstd::pervasive::unreached(),
        }
    }
}

/// The target index an operation concerns.
pub open spec fn op_t(op: Op) -> int {
    match op {
        Op::Backup { t } => t,
        Op::Grant { t } => t,
        Op::Deploy { t } => t,
        Op::Revoke { t } => t,
    }
}

/// How often `op` occurs in `h`.
pub open spec fn count_op(h: Seq<Op>, op: Op) -> nat
    decreases h.len(),
{
    if h.len() == 0 {
        0
    } else {
        count_op(h.drop_last(), op) + if h.last() == op {
            1nat
        } else {
            0nat
        }
    }
}

proof fn lemma_count_concat(a: Seq<Op>, b: Seq<Op>, op: Op)
    ensures
        count_op(a + b, op) == count_op(a, op) + count_op(b, op),
    decreases b.len(),
{
    if b.len() == 0 {
        assert(a + b =~= a);
    } else {
        assert((a + b).drop_last() =~= a + b.drop_last());
        assert((a + b).last() == b.last());
        lemma_count_concat(a, b.drop_last(), op);
    }
}

proof fn lemma_count_at_least_one(h: Seq<Op>, op: Op, p: int)
    requires
        0 <= p < h.len(),
        h[p] == op,
    ensures
        count_op(h, op) >= 1,
    decreases h.len(),
{
    if p == h.len() - 1 {
    } else {
        lemma_count_at_least_one(h.drop_last(), op, p);
    }
}

proof fn lemma_count_two(h: Seq<Op>, op: Op, p: int, q: int)
    requires
        0 <= p < q < h.len(),
        h[p] == op,
        h[q] == op,
    ensures
        count_op(h, op) >= 2,
    decreases h.len(),
{
    if q == h.len() - 1 {
        lemma_count_at_least_one(h.drop_last(), op, p);
    } else {
        lemma_count_two(h.drop_last(), op, p, q);
    }
}

proof fn lemma_count_cycle(i: int, op: Op)
    ensures
        count_op(cycle_ops(i), op) == if op == (Op::Grant { t: i }) || op == (Op::Deploy { t: i })
            || op == (Op::Revoke { t: i }) {
            1nat
        } else {
            0nat
        },
{
    let g = Op::Grant { t: i };
    let d = Op::Deploy { t: i };
    let r = Op::Revoke { t: i };
    let s0 = Seq::<Op>::empty();
    let s1 = s0.push(g);
    let s2 = s1.push(d);
    let s3 = s2.push(r);
    assert(cycle_ops(i) =~= s3);
    assert(s3.drop_last() =~= s2);
    assert(s3.last() == r);
    assert(s2.drop_last() =~= s1);
    assert(s2.last() == d);
    assert(s1.drop_last() =~= s0);
    assert(s1.last() == g);
    assert(count_op(s0, op) == 0);
    assert(count_op(s1, op) == count_op(s0, op) + if g == op {
        1nat
    } else {
        0nat
    });
    assert(count_op(s2, op) == count_op(s1, op) + if d == op {
        1nat
    } else {
        0nat
    });
    assert(count_op(s3, op) == count_op(s2, op) + if r == op {
        1nat
    } else {
        0nat
    });
}

proof fn lemma_count_cycles(k: nat, op: Op)
    ensures
        count_op(cycles_upto(k), op) == if (op matches Op::Grant { t } && 0 <= t < k) || (
        op matches Op::Deploy { t } && 0 <= t < k) || (op matches Op::Revoke { t } && 0 <= t < k) {
            1nat
        } else {
            0nat
        },
    decreases k,
{
    if k == 0 {
    } else {
        lemma_count_cycles((k - 1) as nat, op);
        lemma_count_cycle(k - 1, op);
        lemma_count_concat(cycles_upto((k - 1) as nat), cycle_ops(k - 1), op);
    }
}

proof fn lemma_count_backups(k: nat, op: Op)
    requires
        !(op is Backup),
    ensures
        count_op(backups_upto(k), op) == 0,
    decreases k,
{
    if k > 0 {
        assert(backups_upto(k).drop_last() =~= backups_upto((k - 1) as nat));
        assert(backups_upto(k).last() == (Op::Backup { t: k - 1 }));
        lemma_count_backups((k - 1) as nat, op);
    }
}

proof fn lemma_count_take(c: int, e: int, op: Op)
    requires
        0 <= e <= 3,
    ensures
        count_op(cycle_ops(c).take(e), op) == (if e >= 1 && op == (Op::Grant { t: c }) {
            1nat
        } else {
            0nat
        }) + (if e >= 2 && op == (Op::Deploy { t: c }) {
            1nat
        } else {
            0nat
        }) + (if e >= 3 && op == (Op::Revoke { t: c }) {
            1nat
        } else {
            0nat
        }),
{
    let t = cycle_ops(c).take(e);
    let g = Op::Grant { t: c };
    let d = Op::Deploy { t: c };
    let s0 = Seq::<Op>::empty();
    let s1 = s0.push(g);
    let s2 = s1.push(d);
    assert(count_op(s0, op) == 0);
    assert(s1.drop_last() =~= s0);
    assert(s1.last() == g);
    assert(count_op(s1, op) == count_op(s0, op) + if g == op {
        1nat
    } else {
        0nat
    });
    assert(s2.drop_last() =~= s1);
    assert(s2.last() == d);
    assert(count_op(s2, op) == count_op(s1, op) + if d == op {
        1nat
    } else {
        0nat
    });
    if e == 0 {
        assert(t =~= s0);
    } else if e == 1 {
        assert(t =~= s1);
    } else if e == 2 {
        assert(t =~= s2);
    } else {
        assert(t =~= cycle_ops(c));
        lemma_count_cycle(c, op);
    }
}

proof fn lemma_cycles_len(k: nat)
    ensures
        cycles_upto(k).len() == 3 * k,
    decreases k,
{
    if k > 0 {
        lemma_cycles_len((k - 1) as nat);
    }
}

proof fn lemma_cycles_elems(k: nat)
    ensures
        cycles_upto(k).len() == 3 * k,
        forall|p: int|
            0 <= p < cycles_upto(k).len() ==> !((#[trigger] cycles_upto(k)[p]) is Backup) && 0
                <= op_t(cycles_upto(k)[p]) < k,
    decreases k,
{
    lemma_cycles_len(k);
    if k > 0 {
        lemma_cycles_elems((k - 1) as nat);
        let pre = cycles_upto((k - 1) as nat);
        let h = cycles_upto(k);
        assert forall|p: int|
            0 <= p < h.len() implies !((#[trigger] h[p]) is Backup) && 0 <= op_t(h[p]) < k by {
            if p < pre.len() {
                assert(h[p] == pre[p]);
            } else {
                assert(h[p] == cycle_ops(k - 1)[p - pre.len()]);
            }
        }
    }
}

proof fn lemma_cycles_adjacent(k: nat)
    ensures
        forall|p: int|
            0 <= p < cycles_upto(k).len() && (#[trigger] cycles_upto(k)[p]) is Revoke ==> 1 <= p
                && cycles_upto(k)[p - 1] == (Op::Deploy { t: op_t(cycles_upto(k)[p]) }),
        forall|p: int|
            0 <= p < cycles_upto(k).len() && (#[trigger] cycles_upto(k)[p]) is Deploy ==> 1 <= p
                && cycles_upto(k)[p - 1] == (Op::Grant { t: op_t(cycles_upto(k)[p]) }),
    decreases k,
{
    if k > 0 {
        lemma_cycles_adjacent((k - 1) as nat);
        lemma_cycles_len((k - 1) as nat);
        let pre = cycles_upto((k - 1) as nat);
        let h = cycles_upto(k);
        assert forall|p: int|
            0 <= p < h.len() && (#[trigger] h[p]) is Revoke implies 1 <= p && h[p - 1]
                == (Op::Deploy { t: op_t(h[p]) }) by {
            if p < pre.len() {
                assert(h[p] == pre[p]);
                assert(h[p - 1] == pre[p - 1]);
            } else {
                assert(h[p] == cycle_ops(k - 1)[p - pre.len()]);
                assert(p - pre.len() == 2);
                assert(h[p - 1] == cycle_ops(k - 1)[1]);
            }
        }
        assert forall|p: int|
            0 <= p < h.len() && (#[trigger] h[p]) is Deploy implies 1 <= p && h[p - 1] == (Op::Grant {
            t: op_t(h[p]),
        }) by {
            if p < pre.len() {
                assert(h[p] == pre[p]);
                assert(h[p - 1] == pre[p - 1]);
            } else {
                assert(h[p] == cycle_ops(k - 1)[p - pre.len()]);
                assert(p - pre.len() == 1);
                assert(h[p - 1] == cycle_ops(k - 1)[0]);
            }
        }
    }
}

/// The `(backups, complete cycles, partial cycle)` shape of each phase's
/// canonical trace.
pub open spec fn shape_of(o: Orchestrator) -> (nat, nat, int) {
    let n = o.num_targets();
    match o.phase {
        Phase::Start | Phase::AwaitWasmCheck | Phase::AwaitTargetList | Phase::AwaitBalance
            | Phase::AwaitBackupDir => (0nat, 0nat, 0),
        Phase::AwaitPathCheck { i } => (i as nat, 0nat, 0),
        Phase::AwaitDownload { i } => ((i + 1) as nat, 0nat, 0),
        Phase::AwaitKey | Phase::AwaitPause => (n, 0nat, 0),
        Phase::AwaitGrant { i } => (n, i as nat, 1),
        Phase::AwaitDeploy { i } => (n, i as nat, 2),
        Phase::AwaitRevoke { i, .. } => (n, i as nat, 3),
        Phase::Completed => (n, n, 0),
        Phase::Failed => match o.error {
            Some(RunError::BackupFailed { target }) => ((target + 1) as nat, 0nat, 0),
            Some(RunError::InvalidSeedPhrase) => (n, 0nat, 0),
            Some(RunError::KeyDerivationFailed) => (n, 0nat, 0),
            Some(RunError::GrantFailed { target }) => (n, target as nat, 1),
            Some(RunError::DeployFailed { target }) => (n, target as nat, 3),
            Some(RunError::RevokeFailed { target }) => (n, target as nat, 3),
            _ => (0nat, 0nat, 0),
        },
    }
}

/// Every reachable trace is in normal form, with shape bounds tied to the
/// number of targets.
proof fn lemma_inv_normal(o: Orchestrator)
    requires
        o.inv(),
    ensures
        ({
            let (b, c, e) = shape_of(o);
            &&& o.history@ == normal_hist(b, c, e)
            &&& 0 <= e <= 3
            &&& b <= o.num_targets()
            &&& c <= o.num_targets()
            &&& ((c > 0 || e > 0) ==> b == o.num_targets())
            &&& (e > 0 ==> c < o.num_targets())
            &&& (o.is_terminal() ==> e != 2)
        }),
{
    let (b, c, e) = shape_of(o);
    let n = o.num_targets();
    match o.phase {
        Phase::Start | Phase::AwaitWasmCheck | Phase::AwaitTargetList | Phase::AwaitBalance
            | Phase::AwaitBackupDir => {
            assert(normal_hist(b, c, e) =~= Seq::<Op>::empty());
        },
        Phase::AwaitPathCheck { i } => {
            assert(normal_hist(b, c, e) =~= backups_upto(i as nat));
        },
        Phase::AwaitDownload { i } => {
            assert(normal_hist(b, c, e) =~= backups_upto((i + 1) as nat));
        },
        Phase::AwaitKey | Phase::AwaitPause => {
            assert(normal_hist(b, c, e) =~= backups_upto(n));
        },
        Phase::AwaitGrant { i } => {},
        Phase::AwaitDeploy { i } => {},
        Phase::AwaitRevoke { i, .. } => {},
        Phase::Completed => {
            assert(normal_hist(b, c, e) =~= backups_upto(n) + cycles_upto(n));
        },
        Phase::Failed => match o.error {
            Some(RunError::BackupFailed { target }) => {
                assert(normal_hist(b, c, e) =~= backups_upto((target + 1) as nat));
            },
            Some(RunError::InvalidSeedPhrase) | Some(RunError::KeyDerivationFailed) => {
                assert(normal_hist(b, c, e) =~= backups_upto(n));
            },
            Some(RunError::GrantFailed { target }) => {},
            Some(RunError::DeployFailed { target }) => {},
            Some(RunError::RevokeFailed { target }) => {},
            _ => {
                assert(normal_hist(b, c, e) =~= Seq::<Op>::empty());
            },
        },
    }
}

/// All the positional and counting facts the laws need, over a normal-form
/// trace.
proof fn lemma_normal_facts(b: nat, c: nat, e: int)
    requires
        0 <= e <= 3,
    ensures
        ({
            let h = normal_hist(b, c, e);
            &&& h.len() == b + 3 * c + e
            &&& (forall|j: int| 0 <= j < b ==> h[j] == (Op::Backup { t: j }))
            &&& (forall|p: int| 0 <= p < h.len() && !((#[trigger] h[p]) is Backup) ==> b <= p)
            &&& (forall|p: int|
                0 <= p < h.len() && !((#[trigger] h[p]) is Backup) ==> 0 <= op_t(h[p]) <= c)
            &&& (forall|t: int|
                count_op(h, Op::Grant { t }) == if 0 <= t < c || (e >= 1 && t == c) {
                    1nat
                } else {
                    0nat
                })
            &&& (forall|t: int|
                count_op(h, Op::Deploy { t }) == if 0 <= t < c || (e >= 2 && t == c) {
                    1nat
                } else {
                    0nat
                })
            &&& (forall|t: int|
                count_op(h, Op::Revoke { t }) == if 0 <= t < c || (e >= 3 && t == c) {
                    1nat
                } else {
                    0nat
                })
            &&& (forall|p: int|
                0 <= p < h.len() && (#[trigger] h[p]) is Revoke ==> 1 <= p && h[p - 1]
                    == (Op::Deploy { t: op_t(h[p]) }))
            &&& (forall|p: int|
                0 <= p < h.len() && (#[trigger] h[p]) is Deploy ==> 1 <= p && h[p - 1]
                    == (Op::Grant { t: op_t(h[p]) }))
        }),
{
    let h = normal_hist(b, c, e);
    let bs = backups_upto(b);
    let cs = cycles_upto(c);
    let ts = cycle_ops(c as int).take(e);
    lemma_cycles_elems(c);
    lemma_cycles_adjacent(c);
    assert(h.len() == b + 3 * c + e);
    assert forall|j: int| 0 <= j < b implies h[j] == (Op::Backup { t: j }) by {
        assert(h[j] == bs[j]);
    }
    assert forall|p: int| 0 <= p < h.len() && !((#[trigger] h[p]) is Backup) implies b <= p && 0
        <= op_t(h[p]) <= c by {
        if p < b {
            assert(h[p] == bs[p]);
        } else if p < b + 3 * c {
            assert(h[p] == cs[p - b]);
        } else {
            assert(h[p] == ts[p - b - 3 * c]);
            assert(ts[p - b - 3 * c] == cycle_ops(c as int)[p - b - 3 * c]);
        }
    }
    assert forall|t: int|
        count_op(h, Op::Grant { t }) == (if 0 <= t < c || (e >= 1 && t == c) {
            1nat
        } else {
            0nat
        }) by {
        lemma_count_concat(bs + cs, ts, Op::Grant { t });
        lemma_count_concat(bs, cs, Op::Grant { t });
        lemma_count_backups(b, Op::Grant { t });
        lemma_count_cycles(c, Op::Grant { t });
        lemma_count_take(c as int, e, Op::Grant { t });
    }
    assert forall|t: int|
        count_op(h, Op::Deploy { t }) == (if 0 <= t < c || (e >= 2 && t == c) {
            1nat
        } else {
            0nat
        }) by {
        lemma_count_concat(bs + cs, ts, Op::Deploy { t });
        lemma_count_concat(bs, cs, Op::Deploy { t });
        lemma_count_backups(b, Op::Deploy { t });
        lemma_count_cycles(c, Op::Deploy { t });
        lemma_count_take(c as int, e, Op::Deploy { t });
    }
    assert forall|t: int|
        count_op(h, Op::Revoke { t }) == (if 0 <= t < c || (e >= 3 && t == c) {
            1nat
        } else {
            0nat
        }) by {
        lemma_count_concat(bs + cs, ts, Op::Revoke { t });
        lemma_count_concat(bs, cs, Op::Revoke { t });
        lemma_count_backups(b, Op::Revoke { t });
        lemma_count_cycles(c, Op::Revoke { t });
        lemma_count_take(c as int, e, Op::Revoke { t });
    }
    assert forall|p: int|
        0 <= p < h.len() && (#[trigger] h[p]) is Revoke implies 1 <= p && h[p - 1] == (Op::Deploy {
        t: op_t(h[p]),
    }) by {
        if p < b {
            assert(h[p] == bs[p]);
        } else if p < b + 3 * c {
            assert(h[p] == cs[p - b]);
            assert(h[p - 1] == cs[p - b - 1]);
        } else {
            let r = p - b - 3 * c;
            assert(h[p] == ts[r]);
            assert(ts[r] == cycle_ops(c as int)[r]);
            assert(r == 2);
            assert(h[p - 1] == ts[1]);
            assert(ts[1] == cycle_ops(c as int)[1]);
        }
    }
    assert forall|p: int|
        0 <= p < h.len() && (#[trigger] h[p]) is Deploy implies 1 <= p && h[p - 1] == (Op::Grant {
        t: op_t(h[p]),
    }) by {
        if p < b {
            assert(h[p] == bs[p]);
        } else if p < b + 3 * c {
            assert(h[p] == cs[p - b]);
            assert(h[p - 1] == cs[p - b - 1]);
        } else {
            let r = p - b - 3 * c;
            assert(h[p] == ts[r]);
            assert(ts[r] == cycle_ops(c as int)[r]);
            assert(r == 1);
            assert(h[p - 1] == ts[0]);
            assert(ts[0] == cycle_ops(c as int)[0]);
        }
    }
}

/// Ordering law: the trace never holds a grant, deploy or revoke for any
/// target before the backups of all targets stand at its front, in target
/// order. Backups strictly precede every mutation.
pub proof fn law_backups_precede_mutations(o: Orchestrator)
    requires
        o.inv(),
    ensures
        forall|p: int|
            0 <= p < o.history@.len() && !((#[trigger] o.history@[p]) is Backup) ==> o.num_targets()
                <= p,
        (exists|p: int| 0 <= p < o.history@.len() && !((#[trigger] o.history@[p]) is Backup))
            ==> (forall|j: int|
            0 <= j < o.num_targets() ==> o.history@[j] == (Op::Backup { t: j })),
{
    let (b, c, e) = shape_of(o);
    lemma_inv_normal(o);
    lemma_normal_facts(b, c, e);
    let h = o.history@;
    if c == 0 && e == 0 {
        assert(h.len() == b);
        assert forall|p: int|
            0 <= p < h.len() && !((#[trigger] h[p]) is Backup) implies o.num_targets() <= p by {
            assert(h[p] == (Op::Backup { t: p }));
        }
    } else {
        assert(b == o.num_targets());
    }
}

/// Guard-release law: per target, at most one grant is ever submitted, a
/// deploy only after its grant, a revoke only immediately after its deploy
/// attempt (whatever that attempt's outcome), and once the run has ended,
/// exactly one revoke was submitted for every deploy attempt.
pub proof fn law_guard_release(o: Orchestrator)
    requires
        o.inv(),
    ensures
        forall|t: int| count_op(o.history@, Op::Grant { t }) <= 1,
        forall|t: int|
            count_op(o.history@, Op::Deploy { t }) <= count_op(o.history@, Op::Grant { t }),
        forall|t: int|
            count_op(o.history@, Op::Revoke { t }) <= count_op(o.history@, Op::Deploy { t }),
        o.is_terminal() ==> (forall|t: int|
            count_op(o.history@, Op::Revoke { t }) == count_op(o.history@, Op::Deploy { t })),
        forall|p: int|
            0 <= p < o.history@.len() && (#[trigger] o.history@[p]) is Revoke ==> 1 <= p
                && o.history@[p - 1] == (Op::Deploy { t: op_t(o.history@[p]) }),
        forall|p: int, q: int|
            0 <= p < o.history@.len() && 0 <= q < o.history@.len() && (#[trigger] o.history@[p])
                is Deploy && (#[trigger] o.history@[q]) is Revoke && op_t(o.history@[p]) == op_t(
                o.history@[q],
            ) ==> p < q,
{
    let (b, c, e) = shape_of(o);
    lemma_inv_normal(o);
    lemma_normal_facts(b, c, e);
    let h = o.history@;
    assert forall|p: int, q: int|
        0 <= p < h.len() && 0 <= q < h.len() && (#[trigger] h[p]) is Deploy && (#[trigger] h[q])
            is Revoke && op_t(h[p]) == op_t(h[q]) implies p < q by {
        let t = op_t(h[p]);
        assert(h[p] == (Op::Deploy { t }));
        assert(h[q - 1] == (Op::Deploy { t }));
        if p != q - 1 {
            if p < q - 1 {
                lemma_count_two(h, Op::Deploy { t }, p, q - 1);
            } else {
                lemma_count_two(h, Op::Deploy { t }, q - 1, p);
            }
        }
    }
}

/// Fatal-short-circuit law: once a deploy or revoke failure for target `k`
/// has ended the run, the trace holds no grant and no deploy for any later
/// target.
pub proof fn law_fatal_short_circuit(o: Orchestrator, k: usize)
    requires
        o.inv(),
        o.error == Some(RunError::DeployFailed { target: k }) || o.error == Some(
            RunError::RevokeFailed { target: k },
        ),
    ensures
        forall|p: int|
            0 <= p < o.history@.len() && ((#[trigger] o.history@[p]) is Grant || o.history@[p]
                is Deploy) ==> op_t(o.history@[p]) <= k,
{
    let (b, c, e) = shape_of(o);
    lemma_inv_normal(o);
    lemma_normal_facts(b, c, e);
    let h = o.history@;
    assert forall|p: int|
        0 <= p < h.len() && ((#[trigger] h[p]) is Grant || h[p] is Deploy) implies op_t(h[p])
            <= k by {
        assert(0 <= op_t(h[p]) <= c);
    }
}

} // verus!
